use oracle_pool::ask::{addresses_of_call, addresses_of_setup, tokens_of_call};
use oracle_pool::contract::{execute, instantiate, leaves_room, query};
use oracle_pool::error::ContractError;
use oracle_pool::msg::{
    Answer, Env, ExecuteMsg, FreeEntryItem, InstantiateMsg, PotResponse, QueryMsg, QueryResponse,
    Response, RoundResponse,
};
use oracle_pool::query::is_tellable;
use oracle_pool::state::{RoundStatus, State};
use sha2::{Digest, Sha256};

const NFT: &str = "nft_contract";
const ADMIN: &str = "admin";
const DENOM: &str = "uluna";
const HOUR: u64 = 3600;
const NANOS: u64 = 1_000_000_000;
const GENESIS: u64 = 1_571_797_419_879_305_533;

fn secret_of(round: u64) -> Vec<u8> {
    format!("secret-for-round-{round}").into_bytes()
}

fn hash(b: &[u8]) -> Vec<u8> {
    Sha256::digest(b).to_vec()
}

fn at(offset: u64) -> u64 {
    GENESIS + offset * NANOS
}

fn valid(list: Vec<String>) -> Vec<Answer> {
    list.into_iter()
        .map(|a| Answer { about: a.clone(), outcome: Ok(a) })
        .collect()
}

/// A pool, what it holds, and who owns every token.
struct Pool {
    state: State,
    balance: u128,
    owner: &'static str,
}

fn init(owner: &'static str, payout: Vec<u64>, min_entries: u64) -> Pool {
    let msg = InstantiateMsg {
        admin: ADMIN.into(),
        nft_contract: NFT.into(),
        denom: DENOM.into(),
        treasury: "treasury".into(),
        treasury_bps: 1000,
        payout_bps: payout,
        caller_bps: 10,
        min_entries,
        min_pot: 0,
        stale_after_secs: 14 * 24 * HOUR,
        operator: None,
        first_seed_hash: hash(&secret_of(1)),
        first_close_time: at(24 * HOUR),
    };
    let addresses = valid(addresses_of_setup(&msg));
    let balance = 1_000_000_000_000u128;
    let (state, _) = instantiate(&Env { time: at(0), balance }, msg, &addresses).unwrap();
    Pool { state, balance, owner }
}

impl Pool {
    fn call(&mut self, offset: u64, sender: &str, msg: ExecuteMsg) -> Result<Response, ContractError> {
        let env = Env { time: at(offset), balance: self.balance };
        assert!(self.state.is_valid());
        assert!(leaves_room(&self.state, &msg));
        let addresses = valid(addresses_of_call(&msg));
        let owners = tokens_of_call(&self.state, &env, &msg)
            .into_iter()
            .map(|t| Answer { about: t, outcome: Ok(self.owner.to_string()) })
            .collect();
        execute(&mut self.state, &env, &sender.to_string(), msg, &addresses, &owners)
    }

    fn record(&mut self, offset: u64, minter: &str, n: u32, id: &str) {
        self.call(
            offset,
            NFT,
            ExecuteMsg::RecordEntry {
                token_id: id.into(),
                minter: minter.into(),
                entries: n,
                amount: 25_000_000_000u128 * n as u128,
                entropy: format!("e-{id}").into_bytes(),
            },
        )
        .unwrap();
    }

    fn free(
        &mut self,
        offset: u64,
        who: &str,
        wallet: &str,
        tickets: u32,
        tx: &str,
    ) -> Result<Response, ContractError> {
        self.call(
            offset,
            who,
            ExecuteMsg::RecordFreeEntries {
                entries: vec![FreeEntryItem {
                    wallet: wallet.into(),
                    tickets,
                    tx_hash: tx.into(),
                }],
            },
        )
    }

    fn open_second(&mut self) {
        self.call(
            10,
            ADMIN,
            ExecuteMsg::OpenRound {
                seed_hash: hash(&secret_of(2)),
                close_time: at(48 * HOUR),
            },
        )
        .unwrap();
    }

    fn draw(&mut self, offset: u64, round: u64) -> Result<Response, ContractError> {
        self.call(
            offset,
            "anyone",
            ExecuteMsg::ExecuteDraw { round_id: round, secret: secret_of(round) },
        )
    }

    fn ask(&self, offset: u64, msg: QueryMsg) -> QueryResponse {
        assert!(is_tellable(&self.state, &msg));
        let env = Env { time: at(offset), balance: self.balance };
        query(&self.state, &env, msg).unwrap()
    }

    fn round(&self, offset: u64, id: u64) -> RoundResponse {
        match self.ask(offset, QueryMsg::Round { round_id: id }) {
            QueryResponse::Round(r) => r,
            _ => panic!("not a round"),
        }
    }

    fn pot(&self, offset: u64) -> PotResponse {
        match self.ask(offset, QueryMsg::Pot {}) {
            QueryResponse::Pot(p) => p,
            _ => panic!("not a pot"),
        }
    }
}

#[test]
fn only_the_nft_contract_may_record() {
    let mut pool = init("alice", vec![8000], 5);
    let err = pool
        .call(
            10,
            "someone",
            ExecuteMsg::RecordEntry {
                token_id: "t1".into(),
                minter: "alice".into(),
                entries: 1,
                amount: 1,
                entropy: b"x".to_vec(),
            },
        )
        .unwrap_err();
    assert!(matches!(err, ContractError::Unauthorized {}));
}

#[test]
fn draw_pays_and_is_reproducible() {
    let mut pool = init("alice", vec![8000], 5);
    pool.record(10, "alice", 5, "common-1");

    let res = pool.draw(24 * HOUR + 1, 1).unwrap();

    // winner, treasury, caller
    assert_eq!(res.messages.len(), 3);

    let r = pool.round(24 * HOUR + 2, 1);
    assert_eq!(r.status, RoundStatus::Drawn);
    assert_eq!(r.total_entries, Some(5));
    assert_eq!(r.winners, vec!["alice".to_string()]);
    assert!(r.winner_indexes[0] < 5);
    assert!(!r.has_late_entries);
}

#[test]
fn wrong_secret_is_rejected() {
    let mut pool = init("alice", vec![8000], 5);
    pool.record(10, "alice", 5, "common-1");
    let err = pool
        .call(
            24 * HOUR + 1,
            "anyone",
            ExecuteMsg::ExecuteDraw { round_id: 1, secret: b"nope".to_vec() },
        )
        .unwrap_err();
    assert!(matches!(err, ContractError::SecretMismatch {}));
}

#[test]
fn cannot_draw_before_close() {
    let mut pool = init("alice", vec![8000], 5);
    pool.record(10, "alice", 5, "common-1");
    let err = pool.draw(HOUR, 1).unwrap_err();
    assert!(matches!(err, ContractError::NotClosed { round_id: 1 }));
}

/// A round below the threshold must consume nothing, so the next round starts
/// where this one did. This is the whole rollover mechanism.
#[test]
fn skipped_round_rolls_entries_over() {
    let mut pool = init("alice", vec![8000], 5);
    pool.record(10, "alice", 1, "common-1");
    pool.open_second();

    pool.draw(24 * HOUR + 1, 1).unwrap();

    let r1 = pool.round(24 * HOUR + 2, 1);
    assert_eq!(r1.status, RoundStatus::Skipped);
    assert_eq!(r1.first_entry_id, Some(1));
    assert_eq!(r1.last_entry_id, Some(0), "a skip must consume nothing");

    // four more entries arrive, round 2 now has five
    pool.record(25 * HOUR, "bob", 4, "rare-1");
    pool.draw(48 * HOUR + 1, 2).unwrap();

    let r2 = pool.round(48 * HOUR + 2, 2);
    assert_eq!(r2.status, RoundStatus::Drawn);
    assert_eq!(r2.total_entries, Some(5), "the rolled-over ticket must count");
    assert_eq!(r2.first_entry_id, Some(1));
}

#[test]
fn settlement_is_strictly_in_order() {
    let mut pool = init("alice", vec![8000], 5);
    pool.open_second();

    let err = pool.draw(48 * HOUR + 1, 2).unwrap_err();
    assert!(matches!(err, ContractError::OutOfOrder { expected: 1 }));
}

#[test]
fn rollover_needs_the_round_to_be_stale() {
    let mut pool = init("alice", vec![8000], 5);
    // one ticket against a threshold of five: nothing to draw
    pool.record(10, "alice", 1, "common-1");

    let err = pool
        .call(25 * HOUR, "anyone", ExecuteMsg::RolloverRound { round_id: 1 })
        .unwrap_err();
    assert!(matches!(err, ContractError::NotStale { .. }));

    pool.call(
        24 * HOUR + 15 * 24 * HOUR,
        "anyone",
        ExecuteMsg::RolloverRound { round_id: 1 },
    )
    .unwrap();

    let r = pool.round(24 * HOUR + 15 * 24 * HOUR, 1);
    assert_eq!(r.status, RoundStatus::RolledOver);
    assert_eq!(r.last_entry_id, Some(0), "a rollover must consume nothing");
}

/// The point of minter-supplied entropy: the operator knows the secret, so if
/// entries did not move the result they could mint until it pointed at them.
#[test]
fn entropy_from_entries_changes_the_result() {
    fn result_with(extra: bool) -> Vec<u8> {
        let mut pool = init("alice", vec![8000], 1);
        pool.record(10, "alice", 1, "common-1");
        if extra {
            pool.record(20, "bob", 1, "common-2");
        }
        pool.draw(24 * HOUR + 1, 1).unwrap();
        pool.round(24 * HOUR + 2, 1).result.unwrap()
    }
    assert_ne!(result_with(false), result_with(true));
    assert_eq!(result_with(true), result_with(true));
}

/// Entries recorded after close_time belong to the next round, whatever time
/// the draw is actually triggered.
#[test]
fn entries_after_close_belong_to_the_next_round() {
    let mut pool = init("alice", vec![8000], 1);
    pool.record(10, "alice", 1, "common-1");
    pool.open_second();
    // arrives one second after close_time
    pool.record(24 * HOUR + 1, "bob", 1, "common-2");

    pool.draw(30 * HOUR, 1).unwrap();

    let r = pool.round(30 * HOUR, 1);
    assert_eq!(r.total_entries, Some(1), "the late mint must not join round 1");
    assert_eq!(r.last_entry_id, Some(1));
}

/// Entries record what the minter sent, but a tax may mean that less arrives.
/// The pot must follow the balance, or the shortfall compounds until a draw
/// tries to pay out money that is not there.
#[test]
fn pot_never_exceeds_the_balance() {
    let mut pool = init("alice", vec![8000], 5);
    pool.balance = 24_750_000_000u128;
    pool.record(10, "alice", 1, "common-1");
    pool.record(11, "alice", 4, "rare-1");

    let res = pool.draw(24 * HOUR + 1, 1).unwrap();

    let sent: u128 = res.messages.iter().map(|m| m.amount).sum();

    assert!(
        sent <= 24_750_000_000u128,
        "paid out {sent} with only 24750000000 on hand"
    );
}

/// A rollover does not void a round that can be drawn.
#[test]
fn rollover_refuses_a_drawable_round() {
    let mut pool = init("alice", vec![8000], 5);
    pool.record(10, "alice", 5, "common-1");
    let err = pool
        .call(
            24 * HOUR + 15 * 24 * HOUR,
            "anyone",
            ExecuteMsg::RolloverRound { round_id: 1 },
        )
        .unwrap_err();
    assert!(matches!(err, ContractError::RoundIsDrawable { round_id: 1 }));
}

/// The way without a secret opens only once the reveal is overdue.
#[test]
fn stale_settlement_needs_the_round_to_be_stale() {
    let mut pool = init("alice", vec![8000], 1);
    pool.record(10, "alice", 5, "common-1");
    let err = pool
        .call(25 * HOUR, "anyone", ExecuteMsg::SettleStale { round_id: 1 })
        .unwrap_err();
    assert!(matches!(err, ContractError::NotStale { .. }));
}

/// The moment of the call has no say in the outcome.
#[test]
fn stale_settlement_is_the_same_whenever_it_is_called() {
    fn settle_at(offset: u64) -> RoundResponse {
        let mut pool = init("alice", vec![8000], 1);
        pool.record(10, "alice", 3, "common-1");
        pool.record(20, "bob", 2, "common-2");
        pool.call(offset, "anyone", ExecuteMsg::SettleStale { round_id: 1 })
            .unwrap();
        pool.round(offset, 1)
    }

    let early = settle_at(24 * HOUR + 15 * 24 * HOUR);
    let late = settle_at(24 * HOUR + 40 * 24 * HOUR);
    assert_eq!(early.result, late.result, "the result must not depend on the moment");
    assert_eq!(early.winner_indexes, late.winner_indexes);
    assert_eq!(early.status, RoundStatus::Drawn);
}

/// A round drawn without a reveal can be told from one with: there is no
/// secret in it.
#[test]
fn stale_settlement_records_no_secret() {
    let mut pool = init("alice", vec![8000], 1);
    pool.record(10, "alice", 5, "common-1");
    pool.call(
        24 * HOUR + 15 * 24 * HOUR,
        "anyone",
        ExecuteMsg::SettleStale { round_id: 1 },
    )
    .unwrap();
    let r = pool.round(24 * HOUR + 15 * 24 * HOUR, 1);
    assert_eq!(r.status, RoundStatus::Drawn);
    assert!(r.secret.is_none(), "no secret must be recorded");
    assert!(r.result.is_some());
    assert_eq!(r.total_entries, Some(5));
}

/// The result without the secret is not the one with it.
#[test]
fn stale_result_differs_from_the_revealed_one() {
    fn settle(stale: bool) -> Vec<u8> {
        let mut pool = init("alice", vec![8000], 1);
        pool.record(10, "alice", 3, "common-1");
        pool.record(20, "bob", 2, "common-2");
        let when = 24 * HOUR + 15 * 24 * HOUR;
        let msg = if stale {
            ExecuteMsg::SettleStale { round_id: 1 }
        } else {
            ExecuteMsg::ExecuteDraw { round_id: 1, secret: secret_of(1) }
        };
        pool.call(when, "anyone", msg).unwrap();
        pool.round(when, 1).result.unwrap()
    }
    assert_ne!(settle(true), settle(false));
}

#[test]
fn free_entries_are_admin_only() {
    let mut pool = init("alice", vec![8000], 1);
    let err = pool.free(10, "someone", "alice", 1, "AABB").unwrap_err();
    assert!(matches!(err, ContractError::Unauthorized {}));
}

#[test]
fn free_entries_are_refused_after_close() {
    let mut pool = init("alice", vec![8000], 1);
    pool.free(10, ADMIN, "alice", 2, "AABB").unwrap();
    let err = pool.free(25 * HOUR, ADMIN, "bob", 2, "CCDD").unwrap_err();
    assert!(matches!(err, ContractError::FreeEntriesClosed { round_id: 1 }));
}

#[test]
fn free_entries_add_tickets_but_no_pot() {
    let mut pool = init("alice", vec![8000], 1);
    pool.record(10, "alice", 2, "common-1");
    pool.free(20, ADMIN, "bob", 3, "AABB").unwrap();

    pool.draw(25 * HOUR, 1).unwrap();

    let r = pool.round(25 * HOUR, 1);
    assert_eq!(r.total_entries, Some(5), "two paid and three free");
    // only the paid mint is in the pot
    assert_eq!(r.pot, Some(50_000_000_000u128));
}

/// A free ticket has no token, so its prize goes to the wallet that earned it.
#[test]
fn a_free_ticket_can_win_and_is_paid_to_its_wallet() {
    // every token belongs to alice, so asking for an owner would show
    let mut pool = init("alice", vec![8000], 1);
    pool.free(10, ADMIN, "bob", 5, "AABB").unwrap();

    let res = pool.draw(25 * HOUR, 1).unwrap();

    let r = pool.round(25 * HOUR, 1);
    assert_eq!(r.winners, vec!["bob".to_string()], "the wallet that earned it is paid");
    assert_eq!(r.total_entries, Some(5));
    assert_eq!(r.pot, Some(0), "free entries bring no money");
    // the pot is empty, so nothing is sent
    assert!(res.messages.is_empty());
}

#[test]
fn free_entries_accept_a_batch() {
    let mut pool = init("alice", vec![8000], 1);
    pool.call(
        10,
        ADMIN,
        ExecuteMsg::RecordFreeEntries {
            entries: vec![
                FreeEntryItem { wallet: "alice".into(), tickets: 1, tx_hash: "AA".into() },
                FreeEntryItem { wallet: "bob".into(), tickets: 2, tx_hash: "BB".into() },
                FreeEntryItem { wallet: "carol".into(), tickets: 3, tx_hash: "CC".into() },
            ],
        },
    )
    .unwrap();
    pool.draw(25 * HOUR, 1).unwrap();
    let r = pool.round(25 * HOUR, 1);
    assert_eq!(r.total_entries, Some(6));
}

#[test]
fn free_entries_reject_empty_input() {
    let mut pool = init("alice", vec![8000], 1);
    let err = pool
        .call(10, ADMIN, ExecuteMsg::RecordFreeEntries { entries: vec![] })
        .unwrap_err();
    assert!(matches!(err, ContractError::BadFreeBatch { .. }));

    let err = pool.free(10, ADMIN, "alice", 0, "AABB").unwrap_err();
    assert!(matches!(err, ContractError::ZeroEntries {}));
}

/// Money that comes by plain transfer is in no entry. A skip takes it up.
#[test]
fn a_skip_absorbs_money_that_arrived_by_transfer() {
    let mut pool = init("alice", vec![8000], 5);

    // 100k held against one entry of 25k: the rest came by transfer
    pool.balance = 100_000_000_000u128;
    pool.record(10, "alice", 1, "common-1");

    let before = pool.pot(11);
    assert_eq!(before.carry, 0);
    assert_eq!(before.pending, 25_000_000_000);

    pool.open_second();

    // one entry against a threshold of five, so the round is skipped
    pool.draw(24 * HOUR + 1, 1).unwrap();

    let r = pool.round(24 * HOUR + 2, 1);
    assert_eq!(r.status, RoundStatus::Skipped);

    let after = pool.pot(24 * HOUR + 2);
    assert_eq!(after.pending, 25_000_000_000, "the entry is not consumed");
    assert_eq!(after.carry, 75_000_000_000, "75k came by transfer");
    assert_eq!(
        after.pending + after.carry,
        after.balance,
        "the whole balance takes part"
    );
}

/// A rollover takes it up too.
#[test]
fn a_rollover_absorbs_money_that_arrived_by_transfer() {
    let mut pool = init("alice", vec![8000], 5);

    pool.balance = 100_000_000_000u128;
    pool.record(10, "alice", 1, "common-1");

    let stale = 24 * HOUR + 14 * 24 * HOUR + 1;
    pool.call(stale, "anyone", ExecuteMsg::RolloverRound { round_id: 1 })
        .unwrap();

    let r = pool.round(stale + 1, 1);
    assert_eq!(r.status, RoundStatus::RolledOver);

    let after = pool.pot(stale + 1);
    assert_eq!(after.carry, 75_000_000_000);
    assert_eq!(after.pending + after.carry, after.balance);
}

/// What is taken up is not counted twice.
#[test]
fn absorbing_does_not_double_count_the_entries() {
    let mut pool = init("alice", vec![8000], 5);

    pool.balance = 100_000_000_000u128;
    pool.record(10, "alice", 1, "common-1");
    pool.open_second();
    pool.draw(24 * HOUR + 1, 1).unwrap();

    let after = pool.pot(24 * HOUR + 2);
    assert!(
        after.pending + after.carry <= after.balance,
        "pending + carry = {} against a balance of {}",
        after.pending + after.carry,
        after.balance
    );
}
