use oracle_pool::ask::{
    addresses_of_call, addresses_of_migration, addresses_of_setup, tokens_of_call,
};
use oracle_pool::bytes::{be_prefix, to_be_bytes};
use oracle_pool::contract::{execute, instantiate, leaves_room, migrate, query};
use oracle_pool::draw::{choose_winners, entry_at_index, scan_round};
use oracle_pool::error::{ContractError, StdError};
use oracle_pool::msg::{
    Answer, Attribute, BankSend, ConfigResponse, EntriesResponse, Env, ExecuteMsg, FreeEntryItem,
    InstantiateMsg, MigrateMsg, PotResponse, ProofResponse, QueryMsg, QueryResponse, Response,
    RoundResponse, RoundsResponse,
};
use oracle_pool::query::is_tellable;
use oracle_pool::settle::{bps, build_sends};
use oracle_pool::state::{Entry, RoundStatus, State};
use oracle_pool::text::{decimal_text, join_with_commas};
use sha2::{Digest, Sha256};

const NFT: &str = "nft_contract";
const ADMIN: &str = "admin";
const DENOM: &str = "uluna";
const HOUR: u64 = 3600;
const NANOS: u64 = 1_000_000_000;
const GENESIS: u64 = 1_571_797_419_879_305_533;

fn secret_of(round: u64) -> Vec<u8> {
    format!("secret-for-round-{round}").into_bytes()
}

fn hash(b: &[u8]) -> Vec<u8> {
    Sha256::digest(b).to_vec()
}

fn at(offset: u64) -> u64 {
    GENESIS + offset * NANOS
}

fn valid(list: Vec<String>) -> Vec<Answer> {
    list.into_iter()
        .map(|a| Answer { about: a.clone(), outcome: Ok(a) })
        .collect()
}

/// A pool, what it holds, and who owns every token.
struct Pool {
    state: State,
    balance: u128,
    owner: &'static str,
}

fn init(owner: &'static str, payout: Vec<u64>, min_entries: u64) -> Pool {
    let msg = setup(payout, min_entries);
    let addresses = valid(addresses_of_setup(&msg));
    let balance = 1_000_000_000_000u128;
    let (state, _) = instantiate(&Env { time: at(0), balance }, msg, &addresses).unwrap();
    Pool { state, balance, owner }
}

fn setup(payout: Vec<u64>, min_entries: u64) -> InstantiateMsg {
    InstantiateMsg {
        admin: ADMIN.into(),
        nft_contract: NFT.into(),
        denom: DENOM.into(),
        treasury: "treasury".into(),
        treasury_bps: 1000,
        payout_bps: payout,
        caller_bps: 10,
        min_entries,
        min_pot: 0,
        stale_after_secs: 14 * 24 * HOUR,
        operator: None,
        first_seed_hash: hash(&secret_of(1)),
        first_close_time: at(24 * HOUR),
    }
}

impl Pool {
    fn call(&mut self, offset: u64, sender: &str, msg: ExecuteMsg) -> Result<Response, ContractError> {
        let env = Env { time: at(offset), balance: self.balance };
        assert!(self.state.is_valid());
        assert!(leaves_room(&self.state, &msg));
        let addresses = valid(addresses_of_call(&msg));
        let owners = tokens_of_call(&self.state, &env, &msg)
            .into_iter()
            .map(|t| Answer { about: t, outcome: Ok(self.owner.to_string()) })
            .collect();
        execute(&mut self.state, &env, &sender.to_string(), msg, &addresses, &owners)
    }

    fn record(&mut self, offset: u64, minter: &str, n: u32, id: &str) {
        self.call(
            offset,
            NFT,
            ExecuteMsg::RecordEntry {
                token_id: id.into(),
                minter: minter.into(),
                entries: n,
                amount: 25_000_000_000u128 * n as u128,
                entropy: format!("e-{id}").into_bytes(),
            },
        )
        .unwrap();
    }

    fn free(
        &mut self,
        offset: u64,
        who: &str,
        wallet: &str,
        tickets: u32,
        tx: &str,
    ) -> Result<Response, ContractError> {
        self.call(
            offset,
            who,
            ExecuteMsg::RecordFreeEntries {
                entries: vec![FreeEntryItem {
                    wallet: wallet.into(),
                    tickets,
                    tx_hash: tx.into(),
                }],
            },
        )
    }

    fn draw(&mut self, offset: u64, round: u64) -> Result<Response, ContractError> {
        self.call(
            offset,
            "anyone",
            ExecuteMsg::ExecuteDraw { round_id: round, secret: secret_of(round) },
        )
    }

    fn ask(&self, offset: u64, msg: QueryMsg) -> QueryResponse {
        assert!(is_tellable(&self.state, &msg));
        let env = Env { time: at(offset), balance: self.balance };
        query(&self.state, &env, msg).unwrap()
    }

    fn round(&self, offset: u64, id: u64) -> RoundResponse {
        match self.ask(offset, QueryMsg::Round { round_id: id }) {
            QueryResponse::Round(r) => r,
            _ => panic!("not a round"),
        }
    }

    fn config(&self) -> ConfigResponse {
        match self.ask(0, QueryMsg::Config {}) {
            QueryResponse::Config(c) => c,
            _ => panic!("not a configuration"),
        }
    }

    fn current(&self, offset: u64) -> RoundResponse {
        match self.ask(offset, QueryMsg::CurrentRound {}) {
            QueryResponse::Round(r) => r,
            _ => panic!("not a round"),
        }
    }

    fn proof_of(&self, id: u64) -> ProofResponse {
        match self.ask(0, QueryMsg::Proof { round_id: id }) {
            QueryResponse::Proof(p) => p,
            _ => panic!("not a proof"),
        }
    }

    fn entry_ids(&self, start_after: Option<u64>, limit: Option<u32>) -> Vec<u64> {
        match self.ask(0, QueryMsg::Entries { start_after, limit }) {
            QueryResponse::Entries(EntriesResponse { entries }) => {
                entries.iter().map(|e| e.entry_id).collect()
            }
            _ => panic!("not entries"),
        }
    }

    fn round_ids(&self, start_after: Option<u64>, limit: Option<u32>) -> Vec<u64> {
        match self.ask(0, QueryMsg::Rounds { start_after, limit }) {
            QueryResponse::Rounds(RoundsResponse { rounds }) => {
                rounds.iter().map(|r| r.round_id).collect()
            }
            _ => panic!("not rounds"),
        }
    }

    fn open(&mut self, offset: u64, sender: &str, round: u64, closes: u64) -> Result<Response, ContractError> {
        self.call(
            offset,
            sender,
            ExecuteMsg::OpenRound { seed_hash: hash(&secret_of(round)), close_time: at(closes) },
        )
    }

    fn entry(&self, id: u64) -> Entry {
        match self.ask(0, QueryMsg::Entries { start_after: Some(id - 1), limit: Some(1) }) {
            QueryResponse::Entries(EntriesResponse { entries }) => entries[0].entry.clone(),
            _ => panic!("not entries"),
        }
    }

    fn pot(&self, offset: u64) -> PotResponse {
        match self.ask(offset, QueryMsg::Pot {}) {
            QueryResponse::Pot(p) => p,
            _ => panic!("not a pot"),
        }
    }
}

fn hex(bytes: &[u8]) -> String {
    bytes.iter().map(|b| format!("{b:02x}")).collect()
}

fn line(key: &str, value: &str) -> Attribute {
    Attribute { key: key.into(), value: value.into() }
}

fn send(to: &str, amount: u128) -> BankSend {
    BankSend { to_address: to.into(), amount, denom: DENOM.into() }
}

fn nothing() -> ExecuteMsg {
    ExecuteMsg::UpdateConfig {
        admin: None,
        operator: None,
        nft_contract: None,
        treasury: None,
        treasury_bps: None,
        payout_bps: None,
        caller_bps: None,
        min_entries: None,
        min_pot: None,
        stale_after_secs: None,
        paused: None,
    }
}

fn pause(on: bool) -> ExecuteMsg {
    match nothing() {
        ExecuteMsg::UpdateConfig {
            admin, operator, nft_contract, treasury, treasury_bps, payout_bps, caller_bps,
            min_entries, min_pot, stale_after_secs, ..
        } => ExecuteMsg::UpdateConfig {
            admin, operator, nft_contract, treasury, treasury_bps, payout_bps, caller_bps,
            min_entries, min_pot, stale_after_secs, paused: Some(on),
        },
        other => other,
    }
}

fn shares(treasury: Option<u64>, payout: Option<Vec<u64>>, entries: Option<u64>) -> ExecuteMsg {
    match nothing() {
        ExecuteMsg::UpdateConfig {
            admin, operator, nft_contract, treasury: to, caller_bps, min_pot, stale_after_secs,
            paused, ..
        } => ExecuteMsg::UpdateConfig {
            admin, operator, nft_contract, treasury: to, treasury_bps: treasury,
            payout_bps: payout, caller_bps, min_entries: entries, min_pot, stale_after_secs, paused,
        },
        other => other,
    }
}

fn mint(entries: u32, entropy: Vec<u8>) -> ExecuteMsg {
    ExecuteMsg::RecordEntry {
        token_id: "t1".into(),
        minter: "alice".into(),
        entries,
        amount: 7,
        entropy,
    }
}

#[test]
fn a_draw_has_these_numbers() {
    let mut pool = init("dave", vec![8000], 5);
    pool.record(10, "alice", 5, "common-1");
    let res = pool.draw(24 * HOUR + 1, 1).unwrap();
    assert_eq!(
        res.messages,
        vec![
            send("dave", 100_000_000_000),
            send("treasury", 12_500_000_000),
            send("anyone", 125_000_000),
        ]
    );
    assert_eq!(
        res.attributes,
        vec![
            line("action", "execute_draw"),
            line("round_id", "1"),
            line("entries", "5"),
            line("pot", "125000000000"),
            line("paid", "112625000000"),
            line("result", "g1b1oZSj8aKj1YU34vTC9aZS/SSXI5ztxW0v/N7wA7k="),
            line("winner_indexes", "0"),
            line("winners", "dave"),
        ]
    );
    let r = pool.round(24 * HOUR + 2, 1);
    assert_eq!(
        hex(&r.entropy.unwrap()),
        "4dfa622ad78a2daab0c95511a2499231feb0771d7dcfd06cfe7256ddb9e3a8e4"
    );
    assert_eq!(
        hex(&r.result.unwrap()),
        "8356f5a194a3f1a2a3d58537e2f4c2f5a652fd2497239cedc56d2ffcdef003b9"
    );
    assert_eq!(r.secret, Some(secret_of(1)));
    assert_eq!(r.settled_at, Some(at(24 * HOUR + 1)));
    assert_eq!(pool.state.carry, 1_000_000_000_000 - 112_625_000_000);
}

fn four_entries(owner: &'static str) -> Pool {
    let mut pool = init(owner, vec![4800, 2000, 1200], 1);
    pool.record(10, "alice", 3, "common-1");
    pool.record(20, "bob", 2, "common-2");
    pool.record(30, "carol", 4, "rare-1");
    pool.record(40, "alice", 1, "common-3");
    pool
}

#[test]
fn three_places_go_to_three_minters() {
    let mut pool = four_entries("dave");
    let res = pool.draw(24 * HOUR, 1).unwrap();
    let r = pool.round(24 * HOUR, 1);
    assert_eq!(
        hex(&r.result.clone().unwrap()),
        "79b30f6bdbc4b0a5a277a3e448d63977e47f2d7084772700bbfa5415a6ee4790"
    );
    assert_eq!(r.winner_indexes, vec![7, 4, 9]);
    assert_eq!(be_prefix(&r.result.unwrap()) % 10, 7);
    assert_eq!(res.attributes[6], line("winner_indexes", "7,4,9"));
    assert_eq!(res.attributes[7], line("winners", "dave,dave,dave"));
    assert_eq!(
        res.messages,
        vec![
            send("dave", 120_000_000_000),
            send("dave", 50_000_000_000),
            send("dave", 30_000_000_000),
            send("treasury", 25_000_000_000),
            send("anyone", 250_000_000),
        ]
    );
}

#[test]
fn a_stale_draw_has_these_numbers() {
    let mut pool = four_entries("dave");
    let res = pool
        .call(15 * 24 * HOUR, "anyone", ExecuteMsg::SettleStale { round_id: 1 })
        .unwrap();
    let r = pool.round(15 * 24 * HOUR, 1);
    assert_eq!(
        hex(&r.result.unwrap()),
        "b501ff9780a81e9c7c1c1a20a1c62e10006c3c78653afd55b3e521d3d1e31cad"
    );
    assert_eq!(r.winner_indexes, vec![6, 9, 3]);
    assert_eq!(r.secret, None);
    assert_eq!(res.attributes[0], line("action", "settle_stale"));
    assert_eq!(res.messages.last(), Some(&send("anyone", 250_000_000)));
}

#[test]
fn a_place_without_a_minter_is_not_paid() {
    let mut pool = init("dave", vec![4800, 2000, 1200], 1);
    pool.record(10, "alice", 3, "common-1");
    pool.record(20, "bob", 2, "common-2");
    let res = pool.draw(24 * HOUR, 1).unwrap();
    let r = pool.round(24 * HOUR, 1);
    assert_eq!(r.winner_indexes, vec![3, 0]);
    assert_eq!(
        res.messages,
        vec![
            send("dave", 60_000_000_000),
            send("dave", 25_000_000_000),
            send("treasury", 12_500_000_000),
            send("anyone", 125_000_000),
        ]
    );
}

#[test]
fn winners_are_paid_by_their_own_ticket() {
    let mut pool = four_entries("dave");
    let env = Env { time: at(24 * HOUR), balance: pool.balance };
    let msg = ExecuteMsg::ExecuteDraw { round_id: 1, secret: secret_of(1) };
    let tokens = tokens_of_call(&pool.state, &env, &msg);
    assert_eq!(tokens, vec!["rare-1", "common-2", "common-3"]);
    let owners = tokens
        .into_iter()
        .map(|t| Answer { about: t.clone(), outcome: Ok(format!("owner-of-{t}")) })
        .collect();
    execute(&mut pool.state, &env, &"anyone".to_string(), msg, &vec![], &owners).unwrap();
    assert_eq!(
        pool.round(24 * HOUR, 1).winners,
        vec!["owner-of-rare-1", "owner-of-common-2", "owner-of-common-3"]
    );
}

#[test]
fn an_owner_that_cannot_be_told_stops_the_draw() {
    let mut pool = four_entries("dave");
    let env = Env { time: at(24 * HOUR), balance: pool.balance };
    let msg = ExecuteMsg::ExecuteDraw { round_id: 1, secret: secret_of(1) };
    let owners = vec![
        Answer { about: "rare-1".into(), outcome: Ok("dave".into()) },
        Answer {
            about: "common-2".into(),
            outcome: Err(StdError::GenericErr { msg: "no such token".into() }),
        },
    ];
    let err = execute(&mut pool.state, &env, &"anyone".to_string(), msg, &vec![], &owners)
        .unwrap_err();
    assert_eq!(err, ContractError::Std(StdError::GenericErr { msg: "no such token".into() }));
    assert_eq!(pool.round(24 * HOUR, 1).status, RoundStatus::Closed);
    assert_eq!(pool.config().next_unsettled_id, 1);
}

#[test]
fn a_missing_answer_is_named() {
    let mut pool = four_entries("dave");
    let env = Env { time: at(24 * HOUR), balance: pool.balance };
    let msg = ExecuteMsg::ExecuteDraw { round_id: 1, secret: secret_of(1) };
    let err = execute(&mut pool.state, &env, &"anyone".to_string(), msg, &vec![], &vec![])
        .unwrap_err();
    assert_eq!(err, ContractError::Std(StdError::NotFound { kind: "rare-1".into() }));
}

#[test]
fn shares_are_rounded_down() {
    assert_eq!(bps(9_999, 1), 0);
    assert_eq!(bps(10_000, 1), 1);
    assert_eq!(bps(12_345, 4_800), 5_925);
    assert_eq!(bps(u128::MAX, 10_000), u128::MAX);
    assert_eq!(bps(u128::MAX, 5_000), u128::MAX / 2);
    assert_eq!(bps(3, 25_000), 7);
}

#[test]
fn numbers_are_written_in_decimal() {
    assert_eq!(decimal_text(0), "0");
    assert_eq!(decimal_text(10), "10");
    assert_eq!(decimal_text(u128::MAX), "340282366920938463463374607431768211455");
    assert_eq!(join_with_commas(&vec![]), "");
    assert_eq!(join_with_commas(&vec!["7".into(), "9".into(), "3".into()]), "7,9,3");
}

#[test]
fn numbers_are_hashed_big_end_first() {
    assert_eq!(to_be_bytes(0x0102_0304_0506_0708), vec![1, 2, 3, 4, 5, 6, 7, 8]);
    let mut bytes = vec![0u8; 32];
    bytes[15] = 9;
    bytes[16] = 255;
    assert_eq!(be_prefix(&bytes), 9);
    bytes[0] = 1;
    assert_eq!(be_prefix(&bytes), (1u128 << 120) + 9);
}

#[test]
fn tickets_stand_in_the_order_of_the_entries() {
    let pool = four_entries("dave");
    let rows: Vec<usize> =
        (0..10).map(|i| entry_at_index(&pool.state.entries, 0, 4, i).unwrap()).collect();
    assert_eq!(rows, vec![0, 0, 0, 1, 1, 2, 2, 2, 2, 3]);
    assert_eq!(
        entry_at_index(&pool.state.entries, 0, 4, 10),
        Err(ContractError::Std(StdError::GenericErr { msg: "ticket index out of range".into() }))
    );
}

#[test]
fn a_walk_stops_at_the_first_late_entry() {
    let mut pool = init("alice", vec![8000], 1);
    pool.record(10, "alice", 1, "common-1");
    pool.record(20, "bob", 2, "common-2");
    pool.record(24 * HOUR, "carol", 4, "rare-1");
    let round = &pool.state.rounds.rows[0].1;
    let scan = scan_round(
        &pool.state.entries, 1, 1, &round.seed_hash, at(15), round.close_time,
    );
    assert_eq!((scan.first_entry_id, scan.last_entry_id), (1, 2));
    assert_eq!((scan.start, scan.end), (0, 2));
    assert_eq!(scan.total_entries, 3);
    assert_eq!(scan.amount, 75_000_000_000);
    assert!(scan.has_late_entries);
}

#[test]
fn recording_reports_what_was_recorded() {
    let mut pool = init("alice", vec![8000], 1);
    let res = pool.call(10, NFT, mint(3, b"x".to_vec())).unwrap();
    assert_eq!(
        res.attributes,
        vec![
            line("action", "record_entry"),
            line("entry_id", "1"),
            line("token_id", "t1"),
            line("entries", "3"),
            line("amount", "7"),
        ]
    );
    let entry = pool.entry(1);
    assert_eq!(entry.token_id, "t1");
    assert_eq!(entry.minter, "alice");
    assert_eq!(entry.entries, 3);
    assert_eq!(entry.amount, 7);
    assert_eq!(entry.entropy, b"x".to_vec());
    assert_eq!(entry.recorded_at, at(10));
    assert!(!entry.free);
}

#[test]
fn a_free_entry_is_recorded_as_earned() {
    let mut pool = init("alice", vec![8000], 1);
    let res = pool.free(10, ADMIN, "bob", 3, "AABB").unwrap();
    assert_eq!(
        res.attributes,
        vec![line("action", "record_free_entries"), line("count", "1")]
    );
    let entry = pool.entry(1);
    assert_eq!(entry.token_id, "");
    assert_eq!(entry.minter, "bob");
    assert_eq!(entry.entries, 3);
    assert_eq!(entry.amount, 0);
    assert_eq!(entry.entropy, b"AABB".to_vec());
    assert!(entry.free);
}

#[test]
fn a_batch_is_recorded_whole_or_not_at_all() {
    let mut pool = init("alice", vec![8000], 1);
    let err = pool
        .call(
            10,
            ADMIN,
            ExecuteMsg::RecordFreeEntries {
                entries: vec![
                    FreeEntryItem { wallet: "alice".into(), tickets: 1, tx_hash: "AA".into() },
                    FreeEntryItem { wallet: "bob".into(), tickets: 2, tx_hash: "".into() },
                ],
            },
        )
        .unwrap_err();
    assert_eq!(err, ContractError::BadEntropy { max: 256 });
    assert_eq!(pool.config().next_entry_id, 1);
    assert!(pool.entry_ids(None, None).is_empty());
}

#[test]
fn free_entropy_is_counted_in_bytes() {
    let mut pool = init("alice", vec![8000], 1);
    pool.free(10, ADMIN, "bob", 1, &"a".repeat(256)).unwrap();
    let err = pool.free(10, ADMIN, "bob", 1, &"a".repeat(257)).unwrap_err();
    assert_eq!(err, ContractError::BadEntropy { max: 256 });
    // two bytes each
    let err = pool.free(10, ADMIN, "bob", 1, &"\u{e9}".repeat(129)).unwrap_err();
    assert_eq!(err, ContractError::BadEntropy { max: 256 });
    pool.free(10, ADMIN, "bob", 1, &"\u{e9}".repeat(128)).unwrap();
}

#[test]
fn entropy_has_one_to_256_bytes() {
    let mut pool = init("alice", vec![8000], 1);
    let err = pool.call(10, NFT, mint(1, vec![])).unwrap_err();
    assert_eq!(err, ContractError::BadEntropy { max: 256 });
    let err = pool.call(10, NFT, mint(1, vec![0; 257])).unwrap_err();
    assert_eq!(err, ContractError::BadEntropy { max: 256 });
    pool.call(10, NFT, mint(1, vec![0; 256])).unwrap();
}

#[test]
fn an_entry_has_a_ticket() {
    let mut pool = init("alice", vec![8000], 1);
    let err = pool.call(10, NFT, mint(0, b"x".to_vec())).unwrap_err();
    assert_eq!(err, ContractError::ZeroEntries {});
}

#[test]
fn an_address_that_is_not_valid_is_refused() {
    let mut pool = init("alice", vec![8000], 1);
    let env = Env { time: at(10), balance: pool.balance };
    let bad = vec![Answer {
        about: "alice".into(),
        outcome: Err(StdError::GenericErr { msg: "too short".into() }),
    }];
    let err = execute(
        &mut pool.state, &env, &NFT.to_string(), mint(1, b"x".to_vec()), &bad, &vec![],
    )
    .unwrap_err();
    assert_eq!(err, ContractError::Std(StdError::GenericErr { msg: "too short".into() }));
    assert_eq!(pool.config().next_entry_id, 1);
}

#[test]
fn a_pause_stops_mints_and_nothing_else() {
    let mut pool = init("alice", vec![8000], 1);
    pool.record(10, "alice", 5, "common-1");
    pool.call(11, ADMIN, pause(true)).unwrap();
    let err = pool.call(12, NFT, mint(1, b"x".to_vec())).unwrap_err();
    assert_eq!(err, ContractError::Paused {});
    pool.free(13, ADMIN, "bob", 1, "AABB").unwrap();
    pool.open(14, ADMIN, 2, 48 * HOUR).unwrap();
    pool.draw(24 * HOUR, 1).unwrap();
    assert_eq!(pool.round(24 * HOUR, 1).status, RoundStatus::Drawn);
    pool.call(24 * HOUR, ADMIN, pause(false)).unwrap();
    pool.record(24 * HOUR, "alice", 5, "common-2");
}

#[test]
fn opening_a_round_reports_it() {
    let mut pool = init("alice", vec![8000], 1);
    let res = pool.open(10, ADMIN, 2, 48 * HOUR).unwrap();
    assert_eq!(
        res.attributes,
        vec![
            line("action", "open_round"),
            line("round_id", "2"),
            line("close_time", "1571970219"),
            line("opened_after_previous_closed", "false"),
        ]
    );
    let r = pool.round(11, 2);
    assert_eq!(r.seed_hash, hash(&secret_of(2)));
    assert_eq!((r.opened_at, r.close_time), (at(10), at(48 * HOUR)));
    assert_eq!(r.status, RoundStatus::Open);
    let res = pool.open(48 * HOUR, ADMIN, 3, 72 * HOUR).unwrap();
    assert_eq!(res.attributes[3], line("opened_after_previous_closed", "true"));
}

#[test]
fn a_round_is_refused_for_these_reasons() {
    let mut pool = init("alice", vec![8000], 1);
    let err = pool.open(10, "someone", 2, 48 * HOUR).unwrap_err();
    assert_eq!(err, ContractError::Unauthorized {});
    let err = pool
        .call(10, ADMIN, ExecuteMsg::OpenRound { seed_hash: vec![1; 31], close_time: at(48 * HOUR) })
        .unwrap_err();
    assert_eq!(err, ContractError::BadSeedHash { got: 31 });
    let err = pool.open(10, ADMIN, 2, 10).unwrap_err();
    assert_eq!(err, ContractError::CloseTimeInPast {});
    let err = pool.open(10, ADMIN, 2, 24 * HOUR).unwrap_err();
    assert_eq!(err, ContractError::CloseTimeNotAfterPrevious { previous: 1_571_883_819 });
    assert_eq!(pool.config().last_round_id, 1);
}

#[test]
fn a_round_that_is_not_there_is_not_found() {
    let mut pool = init("alice", vec![8000], 1);
    pool.record(10, "alice", 5, "common-1");
    pool.draw(24 * HOUR, 1).unwrap();
    let err = pool.draw(24 * HOUR, 2).unwrap_err();
    assert_eq!(err, ContractError::RoundNotFound { round_id: 2 });
}

#[test]
fn a_round_is_settled_only_once() {
    let mut pool = init("alice", vec![8000], 1);
    pool.record(10, "alice", 5, "common-1");
    let stale = 40 * 24 * HOUR;
    pool.call(stale, "anyone", ExecuteMsg::SettleStale { round_id: 1 }).unwrap();
    let before = pool.round(stale, 1);
    for msg in [
        ExecuteMsg::SettleStale { round_id: 1 },
        ExecuteMsg::ExecuteDraw { round_id: 1, secret: secret_of(1) },
        ExecuteMsg::RolloverRound { round_id: 1 },
    ] {
        let err = pool.call(stale, "anyone", msg).unwrap_err();
        assert_eq!(err, ContractError::AlreadySettled { round_id: 1 });
    }
    assert_eq!(pool.round(stale, 1), before);
}

#[test]
fn a_round_turns_stale_at_the_second() {
    let mut pool = init("alice", vec![8000], 5);
    let err = pool
        .call(
            24 * HOUR + 14 * 24 * HOUR - 1,
            "anyone",
            ExecuteMsg::RolloverRound { round_id: 1 },
        )
        .unwrap_err();
    assert_eq!(err, ContractError::NotStale { round_id: 1, secs: 14 * 24 * HOUR });
    let res = pool
        .call(24 * HOUR + 14 * 24 * HOUR, "anyone", ExecuteMsg::RolloverRound { round_id: 1 })
        .unwrap();
    assert_eq!(
        res.attributes,
        vec![line("action", "rollover_round"), line("round_id", "1")]
    );
    assert!(res.messages.is_empty());
}

#[test]
fn a_stale_round_with_too_little_is_skipped() {
    let mut pool = init("alice", vec![8000], 5);
    pool.record(10, "alice", 1, "common-1");
    let res = pool
        .call(40 * 24 * HOUR, "anyone", ExecuteMsg::SettleStale { round_id: 1 })
        .unwrap();
    assert_eq!(
        res.attributes,
        vec![
            line("action", "skip_round"),
            line("round_id", "1"),
            line("entries", "1"),
            line("pot", "25000000000"),
        ]
    );
    let r = pool.round(40 * 24 * HOUR, 1);
    assert_eq!(r.status, RoundStatus::Skipped);
    assert_eq!((r.secret, r.result, r.pot), (None, None, None));
}

#[test]
fn a_small_pot_is_skipped_too() {
    let mut msg = setup(vec![8000], 1);
    msg.min_pot = 25_000_000_001;
    let addresses = valid(addresses_of_setup(&msg));
    let balance = 1_000_000_000_000u128;
    let (state, res) = instantiate(&Env { time: at(0), balance }, msg, &addresses).unwrap();
    assert_eq!(
        res.attributes,
        vec![
            line("action", "instantiate"),
            line("admin", "admin"),
            line("first_close_time", "1571883819"),
        ]
    );
    let mut pool = Pool { state, balance, owner: "alice" };
    pool.record(10, "alice", 1, "common-1");
    pool.draw(24 * HOUR, 1).unwrap();
    assert_eq!(pool.round(24 * HOUR, 1).status, RoundStatus::Skipped);
}

#[test]
fn an_empty_round_can_be_drawn_for_nobody() {
    let mut pool = init("alice", vec![8000], 0);
    pool.state.carry = 10_000;
    let res = pool.draw(24 * HOUR, 1).unwrap();
    assert_eq!(res.messages, vec![send("treasury", 1_000), send("anyone", 10)]);
    let r = pool.round(24 * HOUR, 1);
    assert_eq!(r.status, RoundStatus::Drawn);
    assert_eq!((r.first_entry_id, r.last_entry_id), (Some(1), Some(0)));
    assert_eq!(r.total_entries, Some(0));
    assert!(r.winner_indexes.is_empty() && r.winners.is_empty());
}

#[test]
fn a_pool_is_not_set_up_for_these_reasons() {
    fn refused(msg: InstantiateMsg) -> ContractError {
        let addresses = valid(addresses_of_setup(&msg));
        instantiate(&Env { time: at(0), balance: 0 }, msg, &addresses).unwrap_err()
    }
    let mut msg = setup(vec![8000], 1);
    msg.first_seed_hash = vec![0; 33];
    assert_eq!(refused(msg), ContractError::BadSeedHash { got: 33 });
    let mut msg = setup(vec![8000], 1);
    msg.first_close_time = at(0);
    assert_eq!(refused(msg), ContractError::CloseTimeInPast {});
    let mut msg = setup(vec![8000], 1);
    msg.denom = "".into();
    assert_eq!(
        refused(msg),
        ContractError::InvalidConfig { reason: "denom must not be empty".into() }
    );
    assert_eq!(
        refused(setup(vec![], 1)),
        ContractError::InvalidConfig { reason: "payout_bps must have at least one place".into() }
    );
    assert_eq!(
        refused(setup(vec![8000, 991], 1)),
        ContractError::InvalidConfig {
            reason: "payout + treasury + caller = 10001 bps, must be <= 10000".into()
        }
    );
    assert_eq!(
        refused(setup(vec![u64::MAX, u64::MAX], 1)),
        ContractError::InvalidConfig {
            reason: "payout + treasury + caller = 36893488147419104240 bps, must be <= 10000".into()
        }
    );
    let mut msg = setup(vec![8000], 1);
    msg.operator = Some("keeper".into());
    let err = instantiate(&Env { time: at(0), balance: 0 }, msg, &valid(vec![ADMIN.into()]))
        .unwrap_err();
    assert_eq!(err, ContractError::Std(StdError::NotFound { kind: "keeper".into() }));
}

#[test]
fn the_whole_pot_may_be_shared_out() {
    let mut pool = init("dave", vec![8990], 1);
    pool.record(10, "alice", 1, "common-1");
    pool.balance = 25_000_000_000;
    let res = pool.draw(24 * HOUR, 1).unwrap();
    let paid: u128 = res.messages.iter().map(|m| m.amount).sum();
    assert_eq!(paid, 25_000_000_000);
    assert_eq!(pool.pot(24 * HOUR).carry, 0);
}

#[test]
fn the_operator_opens_rounds_and_sets_thresholds() {
    let mut msg = setup(vec![8000], 1);
    msg.operator = Some("keeper".into());
    assert_eq!(addresses_of_setup(&msg), vec!["admin", "keeper", "nft_contract", "treasury"]);
    let addresses = valid(addresses_of_setup(&msg));
    let balance = 1_000_000_000_000u128;
    let (state, _) = instantiate(&Env { time: at(0), balance }, msg, &addresses).unwrap();
    let mut pool = Pool { state, balance, owner: "alice" };
    assert_eq!(pool.config().operator, "keeper");
    pool.open(10, "keeper", 2, 48 * HOUR).unwrap();
    pool.call(10, "keeper", shares(None, None, Some(9))).unwrap();
    pool.call(10, "keeper", pause(true)).unwrap();
    let err = pool.call(10, "keeper", shares(Some(1), None, None)).unwrap_err();
    assert_eq!(err, ContractError::Unauthorized {});
    let err = pool.free(10, "keeper", "bob", 1, "AABB").unwrap_err();
    assert_eq!(err, ContractError::Unauthorized {});
    let c = pool.config();
    assert_eq!((c.min_entries, c.paused, c.treasury_bps), (9, true, 1000));
}

#[test]
fn the_admin_changes_anything_but_the_denomination() {
    let mut pool = init("alice", vec![8000], 1);
    let msg = ExecuteMsg::UpdateConfig {
        admin: Some("boss".into()),
        operator: Some("keeper".into()),
        nft_contract: Some("cw721".into()),
        treasury: Some("vault".into()),
        treasury_bps: Some(500),
        payout_bps: Some(vec![5000, 4000]),
        caller_bps: Some(5),
        min_entries: Some(2),
        min_pot: Some(3),
        stale_after_secs: Some(4),
        paused: Some(true),
    };
    assert_eq!(addresses_of_call(&msg), vec!["boss", "keeper", "cw721", "vault"]);
    let res = pool.call(10, ADMIN, msg).unwrap();
    assert_eq!(
        res.attributes,
        vec![line("action", "update_config"), line("admin", "boss")]
    );
    let c = pool.config();
    assert_eq!(
        (c.admin.as_str(), c.operator.as_str(), c.nft_contract.as_str(), c.treasury.as_str()),
        ("boss", "keeper", "cw721", "vault")
    );
    assert_eq!((c.treasury_bps, c.payout_bps, c.caller_bps), (500, vec![5000, 4000], 5));
    assert_eq!((c.min_entries, c.min_pot, c.stale_after_secs, c.paused), (2, 3, 4, true));
    assert_eq!(c.denom, DENOM);
    let err = pool.call(11, ADMIN, nothing()).unwrap_err();
    assert_eq!(err, ContractError::Unauthorized {});
}

#[test]
fn an_update_that_pays_too_much_changes_nothing() {
    let mut pool = init("alice", vec![8000], 1);
    let err = pool.call(10, ADMIN, shares(Some(2000), Some(vec![8000]), None)).unwrap_err();
    assert_eq!(
        err,
        ContractError::InvalidConfig {
            reason: "payout + treasury + caller = 10010 bps, must be <= 10000".into()
        }
    );
    let err = pool.call(10, ADMIN, shares(None, Some(vec![]), None)).unwrap_err();
    assert_eq!(
        err,
        ContractError::InvalidConfig { reason: "payout_bps must have at least one place".into() }
    );
    assert_eq!(pool.config().treasury_bps, 1000);
}

#[test]
fn an_open_round_keeps_its_terms() {
    let mut pool = init("dave", vec![8000], 5);
    pool.record(10, "alice", 5, "common-1");
    pool.call(11, ADMIN, shares(Some(0), Some(vec![1]), Some(100))).unwrap();
    let res = pool.draw(24 * HOUR, 1).unwrap();
    assert_eq!(
        res.messages,
        vec![
            send("dave", 100_000_000_000),
            send("treasury", 12_500_000_000),
            send("anyone", 125_000_000),
        ]
    );
}

#[test]
fn a_round_without_terms_goes_by_the_configuration() {
    let mut pool = init("dave", vec![8000], 5);
    pool.state.rounds.rows[0].1.terms = None;
    pool.record(10, "alice", 5, "common-1");
    pool.call(11, ADMIN, shares(Some(0), Some(vec![5000]), None)).unwrap();
    let res = pool.draw(24 * HOUR, 1).unwrap();
    assert_eq!(res.messages, vec![send("dave", 62_500_000_000), send("anyone", 125_000_000)]);
}

#[test]
fn nothing_after_close_moves_the_outcome() {
    let mut quiet = four_entries("dave");
    quiet.draw(30 * HOUR, 1).unwrap();

    let mut busy = four_entries("dave");
    busy.open(12 * HOUR, ADMIN, 2, 48 * HOUR).unwrap();
    busy.record(24 * HOUR, "erin", 9, "late-1");
    busy.free(25 * HOUR, ADMIN, "frank", 9, "AABB").unwrap();
    busy.call(26 * HOUR, ADMIN, shares(Some(0), Some(vec![1]), Some(100))).unwrap();
    busy.open(27 * HOUR, ADMIN, 3, 72 * HOUR).unwrap();
    busy.draw(30 * HOUR, 1).unwrap();

    assert_eq!(quiet.round(30 * HOUR, 1), busy.round(30 * HOUR, 1));
}

#[test]
fn anyone_settles_alike() {
    let mut one = four_entries("dave");
    let mut two = four_entries("dave");
    let msg = || ExecuteMsg::ExecuteDraw { round_id: 1, secret: secret_of(1) };
    let a = one.call(24 * HOUR, "anyone", msg()).unwrap();
    let b = two.call(24 * HOUR, "someone", msg()).unwrap();
    assert_eq!(a.attributes, b.attributes);
    assert_eq!(a.messages[..4], b.messages[..4]);
    assert_eq!(b.messages[4], send("someone", 250_000_000));
    assert_eq!(one.round(24 * HOUR, 1), two.round(24 * HOUR, 1));
    assert_eq!(one.state.carry, two.state.carry);
}

#[test]
fn rounds_consume_one_behind_the_other() {
    let mut pool = init("dave", vec![8000], 2);
    pool.record(10, "alice", 2, "common-1");
    pool.open(11, ADMIN, 2, 48 * HOUR).unwrap();
    pool.open(12, ADMIN, 3, 72 * HOUR).unwrap();
    pool.record(25 * HOUR, "bob", 1, "common-2");
    pool.record(49 * HOUR, "carol", 1, "common-3");
    pool.draw(73 * HOUR, 1).unwrap();
    pool.draw(73 * HOUR, 2).unwrap();
    pool.draw(73 * HOUR, 3).unwrap();
    let ranges: Vec<(Option<u64>, Option<u64>, RoundStatus)> = (1..4)
        .map(|id| {
            let r = pool.round(73 * HOUR, id);
            (r.first_entry_id, r.last_entry_id, r.status)
        })
        .collect();
    assert_eq!(
        ranges,
        vec![
            (Some(1), Some(1), RoundStatus::Drawn),
            (Some(2), Some(1), RoundStatus::Skipped),
            (Some(2), Some(3), RoundStatus::Drawn),
        ]
    );
    let ids = |id: u64| -> Vec<u64> { pool.proof_of(id).entries.iter().map(|e| e.entry_id).collect() };
    assert_eq!((ids(1), ids(2), ids(3)), (vec![1], vec![], vec![2, 3]));
}

#[test]
fn a_round_opened_late_says_so() {
    let mut pool = init("dave", vec![8000], 1);
    pool.record(10, "alice", 1, "common-1");
    pool.draw(24 * HOUR, 1).unwrap();
    pool.record(25 * HOUR, "bob", 1, "common-2");
    pool.open(26 * HOUR, ADMIN, 2, 48 * HOUR).unwrap();
    pool.draw(48 * HOUR, 2).unwrap();
    assert!(pool.round(48 * HOUR, 2).has_late_entries);
    assert!(!pool.round(48 * HOUR, 1).has_late_entries);
}

#[test]
fn a_round_opened_in_time_does_not() {
    let mut pool = init("dave", vec![8000], 1);
    pool.record(10, "alice", 1, "common-1");
    pool.open(12 * HOUR, ADMIN, 2, 48 * HOUR).unwrap();
    pool.draw(24 * HOUR, 1).unwrap();
    pool.record(25 * HOUR, "bob", 1, "common-2");
    pool.draw(48 * HOUR, 2).unwrap();
    assert!(!pool.round(48 * HOUR, 2).has_late_entries);
}

#[test]
fn a_proof_can_be_rechecked() {
    let mut pool = four_entries("dave");
    pool.draw(24 * HOUR, 1).unwrap();
    let p = pool.proof_of(1);
    let secret = p.secret.clone().unwrap();
    assert_eq!(hash(&secret), p.seed_hash);
    let mut acc = hash(&[1u64.to_be_bytes().to_vec(), p.seed_hash.clone()].concat());
    let mut total = 0u64;
    for e in &p.entries {
        acc = hash(
            &[acc, e.entry.minter.as_bytes().to_vec(), e.entry.entropy.clone()].concat(),
        );
        total += e.entry.entries as u64;
    }
    assert_eq!(p.entropy, Some(acc.clone()));
    assert_eq!(p.total_entries, Some(total));
    let result = hash(&[secret, acc, 1u64.to_be_bytes().to_vec()].concat());
    assert_eq!(p.result, Some(result.clone()));
    let mut first = [0u8; 16];
    first.copy_from_slice(&result[..16]);
    assert_eq!(p.winner_indexes[0], (u128::from_be_bytes(first) % total as u128) as u64);
    let start = hash(&[result, 0u64.to_be_bytes().to_vec()].concat());
    let second = hash(&[start, 1u64.to_be_bytes().to_vec()].concat());
    let mut next = [0u8; 16];
    next.copy_from_slice(&second[..16]);
    assert_eq!(p.winner_indexes[1], (u128::from_be_bytes(next) % total as u128) as u64);

    pool.open(25 * HOUR, ADMIN, 2, 48 * HOUR).unwrap();
    pool.record(26 * HOUR, "erin", 9, "late-1");
    assert_eq!(pool.proof_of(1), p);
}

#[test]
fn an_unsettled_round_has_no_entries_in_its_proof() {
    let pool = four_entries("dave");
    let p = pool.proof_of(1);
    assert!(p.entries.is_empty());
    assert_eq!((p.secret, p.entropy, p.result, p.total_entries), (None, None, None, None));
}

#[test]
fn what_is_not_there_is_not_found() {
    let pool = init("dave", vec![8000], 1);
    let env = Env { time: at(0), balance: 0 };
    for msg in [QueryMsg::Round { round_id: 7 }, QueryMsg::Proof { round_id: 7 }] {
        let err = query(&pool.state, &env, msg).unwrap_err();
        assert_eq!(err, StdError::NotFound { kind: "round 7".into() });
    }
}

#[test]
fn a_closed_round_is_told_to_be_closed() {
    let pool = init("dave", vec![8000], 1);
    assert_eq!(pool.round(24 * HOUR - 1, 1).status, RoundStatus::Open);
    assert_eq!(pool.round(24 * HOUR, 1).status, RoundStatus::Closed);
    assert_eq!(pool.state.rounds.rows[0].1.status, RoundStatus::Open);
}

#[test]
fn the_current_round_is_the_first_that_is_open() {
    let mut pool = init("dave", vec![8000], 1);
    pool.open(11, ADMIN, 2, 48 * HOUR).unwrap();
    pool.open(12, ADMIN, 3, 72 * HOUR).unwrap();
    assert_eq!(pool.current(0).round_id, 1);
    assert_eq!(pool.current(24 * HOUR).round_id, 2);
    assert_eq!(pool.current(48 * HOUR).round_id, 3);
    let last = pool.current(72 * HOUR);
    assert_eq!((last.round_id, last.status), (3, RoundStatus::Closed));
}

#[test]
fn free_entries_are_taken_while_a_later_round_is_open() {
    let mut pool = init("dave", vec![8000], 1);
    pool.open(11, ADMIN, 2, 48 * HOUR).unwrap();
    pool.free(25 * HOUR, ADMIN, "bob", 1, "AABB").unwrap();
    let err = pool.free(48 * HOUR, ADMIN, "bob", 1, "AABB").unwrap_err();
    assert_eq!(err, ContractError::FreeEntriesClosed { round_id: 2 });
}

#[test]
fn pages_hold_thirty_and_at_most_a_hundred() {
    let mut pool = init("dave", vec![8000], 1);
    for i in 0..120u64 {
        pool.record(i, "alice", 1, "common");
    }
    assert_eq!(pool.entry_ids(None, None), (1..=30).collect::<Vec<u64>>());
    assert_eq!(pool.entry_ids(Some(30), None), (31..=60).collect::<Vec<u64>>());
    assert_eq!(pool.entry_ids(None, Some(1000)), (1..=100).collect::<Vec<u64>>());
    assert_eq!(pool.entry_ids(Some(118), Some(5)), vec![119, 120]);
    assert!(pool.entry_ids(None, Some(0)).is_empty());
    assert!(pool.entry_ids(Some(u64::MAX), None).is_empty());
    pool.open(11, ADMIN, 2, 48 * HOUR).unwrap();
    pool.open(12, ADMIN, 3, 72 * HOUR).unwrap();
    assert_eq!(pool.round_ids(None, None), vec![1, 2, 3]);
    assert_eq!(pool.round_ids(Some(1), Some(1)), vec![2]);
}

#[test]
fn the_configuration_is_told_with_the_counters() {
    let mut pool = four_entries("dave");
    pool.draw(24 * HOUR, 1).unwrap();
    let c = pool.config();
    assert_eq!((c.next_unsettled_id, c.last_round_id, c.next_entry_id), (2, 1, 5));
    assert_eq!(c.carry, pool.state.carry);
    assert_eq!(c.operator, ADMIN);
    assert_eq!(c.payout_bps, vec![4800, 2000, 1200]);
}

#[test]
fn money_of_entries_behind_a_draw_stays_theirs() {
    let mut pool = init("dave", vec![8000], 1);
    pool.record(10, "alice", 1, "common-1");
    pool.record(25 * HOUR, "bob", 2, "common-2");
    pool.balance = 75_000_000_000;
    pool.draw(26 * HOUR, 1).unwrap();
    let paid = 20_000_000_000u128 + 2_500_000_000 + 25_000_000;
    pool.balance -= paid;
    let after = pool.pot(26 * HOUR);
    assert_eq!(after.pending, 50_000_000_000);
    assert_eq!(after.carry, 25_000_000_000 - paid);
    assert_eq!(after.pending + after.carry, after.balance);
}

#[test]
fn a_shortfall_leaves_no_carry() {
    let mut pool = init("dave", vec![8000], 5);
    pool.record(10, "alice", 1, "common-1");
    pool.balance = 24_000_000_000;
    pool.draw(24 * HOUR, 1).unwrap();
    assert_eq!(pool.state.carry, 0);
}

#[test]
fn a_sum_that_is_no_amount_is_not_told() {
    let mut pool = init("dave", vec![8000], 1);
    for i in 0..2u64 {
        pool.call(
            i,
            NFT,
            ExecuteMsg::RecordEntry {
                token_id: "t1".into(),
                minter: "alice".into(),
                entries: 1,
                amount: u128::MAX,
                entropy: b"x".to_vec(),
            },
        )
        .unwrap();
    }
    assert!(!is_tellable(&pool.state, &QueryMsg::Pot {}));
    assert!(is_tellable(&pool.state, &QueryMsg::Config {}));
    pool.draw(24 * HOUR, 1).unwrap();
    assert_eq!(pool.round(24 * HOUR, 1).pot, Some(1_000_000_000_000));
}

#[test]
fn ids_run_out_in_the_end() {
    let mut pool = init("dave", vec![8000], 1);
    pool.state.next_entry_id = u64::MAX - 1;
    assert!(leaves_room(&pool.state, &mint(1, b"x".to_vec())));
    pool.state.next_entry_id = u64::MAX;
    assert!(!leaves_room(&pool.state, &mint(1, b"x".to_vec())));
    assert!(leaves_room(&pool.state, &nothing()));
    pool.state.last_round_id = u64::MAX;
    assert!(leaves_room(&pool.state, &ExecuteMsg::RolloverRound { round_id: 1 }));
    pool.state.next_unsettled_id = u64::MAX;
    assert!(!leaves_room(&pool.state, &ExecuteMsg::RolloverRound { round_id: 1 }));
}

#[test]
fn a_state_that_is_no_pool_is_told_apart() {
    let fresh = || four_entries("dave").state;
    assert!(fresh().is_valid());
    let mut s = fresh();
    s.config.treasury_bps = 9_000;
    assert!(!s.is_valid());
    let mut s = fresh();
    s.entries.rows.swap(0, 1);
    assert!(!s.is_valid());
    let mut s = fresh();
    s.entries.rows[0].1.entries = 0;
    assert!(!s.is_valid());
    let mut s = fresh();
    s.entries.rows[0].1.free = true;
    assert!(!s.is_valid());
    let mut s = fresh();
    s.next_entry_id = 4;
    assert!(!s.is_valid());
    let mut s = fresh();
    s.next_unsettled_id = 2;
    assert!(!s.is_valid());
    let mut s = fresh();
    s.rounds.rows[0].1.status = RoundStatus::Drawn;
    assert!(!s.is_valid());
    let mut s = fresh();
    s.rounds.rows[0].1.seed_hash.pop();
    assert!(!s.is_valid());
    let mut s = fresh();
    s.rounds.rows[0].1.terms.as_mut().unwrap().caller_bps = 1_001;
    assert!(!s.is_valid());
}

#[test]
fn migration_names_the_operator_before_the_admin_goes() {
    let mut pool = init("dave", vec![8000], 1);
    pool.state.config.operator = None;
    assert_eq!(pool.config().operator, ADMIN);
    let msg = MigrateMsg {
        admin: Some("boss".into()),
        operator: None,
        stale_after_secs: Some(60),
    };
    let addresses = valid(addresses_of_migration(&msg));
    let res = migrate(&mut pool.state, msg, &addresses).unwrap();
    assert_eq!(res.attributes, vec![line("action", "migrate")]);
    let c = pool.config();
    assert_eq!((c.admin.as_str(), c.operator.as_str()), ("boss", ADMIN));
    assert_eq!(c.stale_after_secs, 60);
    assert_eq!(pool.state.config.operator, Some(ADMIN.to_string()));
    migrate(&mut pool.state, MigrateMsg::default(), &vec![]).unwrap();
    assert_eq!(pool.state.config.operator, Some(ADMIN.to_string()));
    let err = migrate(
        &mut pool.state,
        MigrateMsg { admin: None, operator: Some("keeper".into()), stale_after_secs: None },
        &vec![],
    )
    .unwrap_err();
    assert_eq!(err, ContractError::Std(StdError::NotFound { kind: "keeper".into() }));
}

#[test]
fn only_settlement_asks_for_owners() {
    let pool = four_entries("dave");
    let env = |offset| Env { time: at(offset), balance: pool.balance };
    let draw = ExecuteMsg::ExecuteDraw { round_id: 1, secret: secret_of(1) };
    assert!(tokens_of_call(&pool.state, &env(HOUR), &draw).is_empty());
    assert_eq!(tokens_of_call(&pool.state, &env(24 * HOUR), &draw).len(), 3);
    let wrong = ExecuteMsg::ExecuteDraw { round_id: 1, secret: secret_of(2) };
    assert!(tokens_of_call(&pool.state, &env(24 * HOUR), &wrong).is_empty());
    let stale = ExecuteMsg::SettleStale { round_id: 1 };
    assert!(tokens_of_call(&pool.state, &env(24 * HOUR), &stale).is_empty());
    assert_eq!(
        tokens_of_call(&pool.state, &env(15 * 24 * HOUR), &stale),
        vec!["rare-1", "common-3", "common-2"]
    );
    assert!(tokens_of_call(&pool.state, &env(24 * HOUR), &nothing()).is_empty());
}

#[test]
fn a_result_points_at_a_ticket() {
    let pool = four_entries("dave");
    let mut result = vec![0u8; 32];
    result[15] = 27;
    let winners = choose_winners(&pool.state.entries, 0, 4, 10, &result, 1);
    let found: Vec<(u64, usize)> = winners.iter().map(|w| (w.index, w.row)).collect();
    assert_eq!(found, vec![(7, 2)]);
    assert!(choose_winners(&pool.state.entries, 0, 4, 10, &result, 0).is_empty());
}

#[test]
fn prizes_go_out_place_by_place() {
    let pool = four_entries("dave");
    let terms = pool.state.config.terms();
    let to = vec!["erin".to_string(), "frank".to_string()];
    let (sends, paid) = build_sends(&pool.state, &terms, 1_003, &to, &"anyone".to_string());
    assert_eq!(
        sends,
        vec![
            send("erin", 481),
            send("frank", 200),
            send("treasury", 100),
            send("anyone", 1),
        ]
    );
    assert_eq!(paid, 782);
    let (sends, paid) = build_sends(&pool.state, &terms, 3, &to, &"anyone".to_string());
    assert_eq!(sends, vec![send("erin", 1)]);
    assert_eq!(paid, 1);
}

#[test]
fn entries_are_kept_as_they_were_recorded() {
    let mut pool = four_entries("dave");
    let before: Vec<Entry> = (1..5).map(|id| pool.entry(id)).collect();
    pool.open(50, ADMIN, 2, 48 * HOUR).unwrap();
    pool.call(60, ADMIN, pause(true)).unwrap();
    pool.free(70, ADMIN, "bob", 1, "AABB").unwrap();
    pool.draw(24 * HOUR, 1).unwrap();
    let after: Vec<Entry> = (1..5).map(|id| pool.entry(id)).collect();
    assert_eq!(before, after);
    assert_eq!(pool.entry_ids(None, None), vec![1, 2, 3, 4, 5]);
    let times: Vec<u64> = (1..6).map(|id| pool.entry(id).recorded_at).collect();
    assert_eq!(times, vec![at(10), at(20), at(30), at(40), at(70)]);
}

#[test]
fn answers_that_were_not_asked_for_do_not_matter() {
    let mut lean = four_entries("dave");
    let mut rich = four_entries("dave");
    let env = Env { time: at(24 * HOUR), balance: lean.balance };
    let msg = || ExecuteMsg::ExecuteDraw { round_id: 1, secret: secret_of(1) };
    let answer = |t: &str, o: &str| Answer { about: t.into(), outcome: Ok(o.into()) };
    let few = vec![answer("rare-1", "x"), answer("common-3", "y"), answer("common-2", "z")];
    let many = vec![
        answer("common-1", "w"), answer("common-2", "z"), answer("rare-1", "x"),
        answer("common-3", "y"), answer("rare-1", "v"),
    ];
    let caller = "anyone".to_string();
    let a = execute(&mut lean.state, &env, &caller, msg(), &vec![], &few).unwrap();
    let b = execute(&mut rich.state, &env, &caller, msg(), &valid(vec!["erin".into()]), &many)
        .unwrap();
    assert_eq!(a, b);
    assert_eq!(lean.round(24 * HOUR, 1), rich.round(24 * HOUR, 1));
}

#[test]
fn a_stale_round_moves_on_with_nobody_left() {
    let mut pool = init("dave", vec![8000], 1);
    pool.record(10, "alice", 5, "common-1");
    pool.open(11, ADMIN, 2, 48 * HOUR).unwrap();
    let late = 400 * 24 * HOUR;
    pool.call(late, "stranger", ExecuteMsg::SettleStale { round_id: 1 }).unwrap();
    pool.call(late, "stranger", ExecuteMsg::RolloverRound { round_id: 2 }).unwrap();
    let c = pool.config();
    assert_eq!((c.next_unsettled_id, c.last_round_id), (3, 2));
    assert_eq!(pool.round(late, 2).first_entry_id, Some(2));
}

#[test]
fn a_reveal_comes_through_a_year_late() {
    let mut pool = four_entries("dave");
    pool.draw(400 * 24 * HOUR, 1).unwrap();
    assert_eq!(pool.round(400 * 24 * HOUR, 1).winner_indexes, vec![7, 4, 9]);
}

#[test]
fn a_replaced_admin_is_no_longer_operator() {
    let mut pool = init("alice", vec![8000], 1);
    assert_eq!(pool.state.config.operator, None);
    pool.open(10, ADMIN, 2, 48 * HOUR).unwrap();
    let hand_over = ExecuteMsg::UpdateConfig {
        admin: Some("boss".into()),
        operator: None,
        nft_contract: None,
        treasury: None,
        treasury_bps: None,
        payout_bps: None,
        caller_bps: None,
        min_entries: None,
        min_pot: None,
        stale_after_secs: None,
        paused: None,
    };
    pool.call(11, ADMIN, hand_over).unwrap();
    assert_eq!(pool.config().operator, "boss");
    let err = pool.open(12, ADMIN, 3, 72 * HOUR).unwrap_err();
    assert_eq!(err, ContractError::Unauthorized {});
    let err = pool.call(12, ADMIN, pause(true)).unwrap_err();
    assert_eq!(err, ContractError::Unauthorized {});
    pool.open(12, "boss", 3, 72 * HOUR).unwrap();
}

#[test]
fn a_skip_is_the_same_whenever_it_is_called() {
    fn skip_at(offset: u64, busy: bool) -> RoundResponse {
        let mut pool = init("dave", vec![8000], 5);
        pool.record(10, "alice", 1, "common-1");
        pool.open(20, ADMIN, 2, 72 * HOUR).unwrap();
        if busy {
            pool.record(25 * HOUR, "bob", 9, "late-1");
            pool.free(26 * HOUR, ADMIN, "carol", 9, "AABB").unwrap();
            pool.call(27 * HOUR, ADMIN, shares(None, None, Some(1))).unwrap();
        }
        pool.draw(offset, 1).unwrap();
        let mut r = pool.round(offset, 1);
        assert_eq!(r.settled_at, Some(at(offset)));
        r.settled_at = None;
        r
    }
    let early = skip_at(24 * HOUR, false);
    assert_eq!(early.status, RoundStatus::Skipped);
    assert_eq!(early, skip_at(50 * HOUR, true));
}

#[test]
fn a_short_balance_moves_the_pot_and_nothing_else() {
    let draw_with = |balance: u128| {
        let mut pool = four_entries("dave");
        pool.balance = balance;
        pool.draw(24 * HOUR, 1).unwrap();
        pool.round(24 * HOUR, 1)
    };
    let full = draw_with(1_000_000_000_000);
    assert_eq!(full, draw_with(250_000_000_000));
    let mut short = draw_with(100_000_000_000);
    assert_eq!(short.pot, Some(100_000_000_000));
    short.pot = full.pot;
    assert_eq!(full, short);
}
