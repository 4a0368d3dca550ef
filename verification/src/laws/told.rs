//! What each query is answered, and what the words of the contracts mean.

use vstd::prelude::*;

use crate::ask::{addresses_in, addresses_in_migration, addresses_in_setup, tokens_in};
use crate::contract::has_room;
use crate::draw::{money, EntryRows};
use crate::error::{ContractError, StdErrorView};
use crate::laws::settled::starts_at;
use crate::msg::{
    ConfigResponseView, Env, ExecuteMsgView, InstantiateMsgView, MigrateMsgView, PotResponseView,
    ProofResponseView, QueryMsg, QueryResponseView, Response, RoundResponseView,
};
use crate::outcome::{accords, Outcome};
use crate::query::{
    can_tell, current_told, first_pending, lemma_money_take, page, pending, query_told, rounds_told,
};
use crate::state::{share_sum, RoundStatus, RoundView, StateView};
use crate::table::{ascending, find, lemma_position, position, rows_between, rows_from};
use crate::text::decimal;

verus! {

/// A round as it is kept, but that an open one past its close is told to be
/// closed.
pub open spec fn as_kept(id: u64, round: RoundView, now: u64) -> RoundResponseView {
    RoundResponseView {
        round_id: id,
        seed_hash: round.seed_hash,
        opened_at: round.opened_at,
        close_time: round.close_time,
        status: if round.status == RoundStatus::Open && now >= round.close_time {
            RoundStatus::Closed
        } else {
            round.status
        },
        first_entry_id: round.first_entry_id,
        last_entry_id: round.last_entry_id,
        secret: round.secret,
        entropy: round.entropy,
        result: round.result,
        total_entries: round.total_entries,
        winner_indexes: round.winner_indexes,
        winners: round.winners,
        pot: round.pot,
        settled_at: round.settled_at,
        has_late_entries: round.has_late_entries,
    }
}

/// A round that is kept is told as it is kept; one that is not is not found, by
/// its number.
pub proof fn law_a_round_is_told_as_kept(s: StateView, env: Env, id: u64)
    ensures
        query_told(s, env, QueryMsg::Round { round_id: id }) == match find(s.rounds, id) {
            Some(round) => Ok(QueryResponseView::Round(as_kept(id, round, env.time))),
            None => Err(StdErrorView::NotFound { kind: "round "@ + decimal(id as nat) }),
        },
{
}

/// The configuration is told as it is kept, with who acts as operator and with
/// the counters.
pub proof fn law_the_configuration_is_told_as_kept(s: StateView, env: Env)
    ensures
        query_told(s, env, QueryMsg::Config {  }) == Ok::<_, StdErrorView>(
            QueryResponseView::Config(
                ConfigResponseView {
                    admin: s.config.admin,
                    operator: match s.config.operator {
                        Some(operator) => operator,
                        None => s.config.admin,
                    },
                    nft_contract: s.config.nft_contract,
                    denom: s.config.denom,
                    treasury: s.config.treasury,
                    treasury_bps: s.config.treasury_bps,
                    payout_bps: s.config.payout_bps,
                    caller_bps: s.config.caller_bps,
                    min_entries: s.config.min_entries,
                    min_pot: s.config.min_pot,
                    stale_after_secs: s.config.stale_after_secs,
                    paused: s.config.paused,
                    next_unsettled_id: s.next_unsettled_id,
                    last_round_id: s.last_round_id,
                    next_entry_id: s.next_entry_id,
                    carry: s.carry,
                },
            ),
        ),
{
}

/// How many rows are asked for: thirty if nothing is said, and never more than a
/// hundred.
pub open spec fn asked_for(limit: Option<u32>) -> int {
    match limit {
        None => 30,
        Some(limit) => if limit <= 100 {
            limit as int
        } else {
            100
        },
    }
}

/// A page holds the rows behind an id, or all from the first on, one behind the
/// other, as many as are asked for or as there are. Returned is where it starts.
pub proof fn law_a_page_holds_what_is_asked_for<V>(
    rows: Seq<(u64, V)>,
    start_after: Option<u64>,
    limit: Option<u32>,
) -> (p: int)
    requires
        ascending(rows),
    ensures
        0 <= p <= rows.len(),
        forall|j: int|
            0 <= j < rows.len() ==> (j >= p <==> match start_after {
                Some(id) => (#[trigger] rows[j]).0 > id,
                None => true,
            }),
        page(rows, start_after, limit) == rows.subrange(
            p,
            if rows.len() - p <= asked_for(limit) {
                rows.len() as int
            } else {
                p + asked_for(limit)
            },
        ),
{
    let p: int = match start_after {
        Some(id) => position(rows, id + 1),
        None => 0,
    };
    if let Some(id) = start_after {
        lemma_position(rows, id + 1);
    }
    assert(page(rows, start_after, limit) =~= rows.subrange(
        p,
        if rows.len() - p <= asked_for(limit) {
            rows.len() as int
        } else {
            p + asked_for(limit)
        },
    ));
    p
}

/// Rounds and entries are told page by page, in the order of their ids, each as
/// it is kept.
pub proof fn law_pages_are_told_as_kept(
    s: StateView,
    env: Env,
    start_after: Option<u64>,
    limit: Option<u32>,
)
    ensures
        query_told(s, env, QueryMsg::Entries { start_after, limit }) == Ok::<_, StdErrorView>(
            QueryResponseView::Entries(page(s.entries, start_after, limit)),
        ),
        query_told(s, env, QueryMsg::Rounds { start_after, limit }) == Ok::<_, StdErrorView>(
            QueryResponseView::Rounds(
                Seq::new(
                    page(s.rounds, start_after, limit).len(),
                    |i: int|
                        as_kept(
                            page(s.rounds, start_after, limit)[i].0,
                            page(s.rounds, start_after, limit)[i].1,
                            env.time,
                        ),
                ),
            ),
        ),
{
    assert(rounds_told(s, env.time, start_after, limit) =~= Seq::new(
        page(s.rounds, start_after, limit).len(),
        |i: int|
            as_kept(
                page(s.rounds, start_after, limit)[i].0,
                page(s.rounds, start_after, limit)[i].1,
                env.time,
            ),
    ));
}

/// The current round is told as any other.
pub proof fn law_the_current_round_is_told(s: StateView, env: Env)
    ensures
        query_told(s, env, QueryMsg::CurrentRound {  }) == match current_told(s, env.time) {
            Ok(round) => Ok(QueryResponseView::Round(round)),
            Err(e) => Err(e),
        },
{
}

/// A proof tells what the round's record tells, and the entries from its first
/// to its last.
pub proof fn law_a_proof_is_told_as_kept(s: StateView, env: Env, id: u64)
    ensures
        query_told(s, env, QueryMsg::Proof { round_id: id }) == match find(s.rounds, id) {
            None => Err(StdErrorView::NotFound { kind: "round "@ + decimal(id as nat) }),
            Some(round) => Ok(
                QueryResponseView::Proof(
                    ProofResponseView {
                        round_id: id,
                        seed_hash: round.seed_hash,
                        secret: round.secret,
                        entropy: round.entropy,
                        result: round.result,
                        total_entries: round.total_entries,
                        winner_indexes: round.winner_indexes,
                        winners: round.winners,
                        entries: if round.first_entry_id is Some && round.last_entry_id is Some {
                            rows_between(
                                s.entries,
                                round.first_entry_id->0 as int,
                                round.last_entry_id->0 as int,
                            )
                        } else {
                            Seq::empty()
                        },
                    },
                ),
            ),
        },
{
}

/// The pot is told as the balance, the carry, and the money of the entries that
/// wait behind the last settled round, five thousand at most.
pub proof fn law_the_pot_is_told(s: StateView, env: Env, first: int)
    requires
        s.wf(),
        starts_at(s, s.next_unsettled_id, first),
        can_tell(s, QueryMsg::Pot {  }),
    ensures
        ({
            let waiting: EntryRows = rows_from(s.entries, first);
            let seen: EntryRows = if waiting.len() <= 5_000 {
                waiting
            } else {
                waiting.subrange(0, 5_000)
            };
            &&& money(seen) <= u128::MAX
            &&& query_told(s, env, QueryMsg::Pot {  }) == Ok::<_, StdErrorView>(
                QueryResponseView::Pot(
                    PotResponseView {
                        denom: s.config.denom,
                        balance: env.balance,
                        carry: s.carry,
                        pending: money(seen) as u128,
                    },
                ),
            )
        }),
{
    assert(first_pending(s) == first);
    let waiting: EntryRows = rows_from(s.entries, first);
    assert(waiting.len() > 5_000 ==> pending(s) =~= waiting.subrange(0, 5_000));
}

/// Only a pot that is more than an amount holds cannot be told.
pub proof fn law_what_can_be_told(s: StateView, msg: QueryMsg, first: int)
    requires
        s.wf(),
        starts_at(s, s.next_unsettled_id, first),
    ensures
        !(msg is Pot) ==> can_tell(s, msg),
        money(rows_from(s.entries, first)) <= u128::MAX ==> can_tell(s, msg),
{
    assert(first_pending(s) == first);
    let waiting: EntryRows = rows_from(s.entries, first);
    if waiting.len() > 5_000 {
        lemma_money_take(waiting, 5_000);
    }
}

/// What is asked of the chain: about the minter of a mint, the wallets of free
/// entries in order, and the addresses of an update, of a setup and of a move
/// that are given.
pub proof fn law_which_addresses_are_asked_about(
    msg: ExecuteMsgView,
    setup: InstantiateMsgView,
    migration: MigrateMsgView,
)
    ensures
        match msg {
            ExecuteMsgView::RecordEntry { token_id, minter, entries, amount, entropy } =>
                addresses_in(msg) == seq![minter],
            ExecuteMsgView::RecordFreeEntries { entries } => addresses_in(msg) == Seq::new(
                entries.len(),
                |i: int| entries[i].wallet,
            ),
            ExecuteMsgView::UpdateConfig { update } => addresses_in(msg) == one_if(update.admin)
                + one_if(update.operator) + one_if(update.nft_contract) + one_if(update.treasury),
            _ => addresses_in(msg).len() == 0,
        },
        addresses_in_setup(setup) == seq![setup.admin] + one_if(setup.operator) + seq![
            setup.nft_contract,
        ] + seq![setup.treasury],
        addresses_in_migration(migration) == one_if(migration.admin) + one_if(migration.operator),
{
    match msg {
        ExecuteMsgView::RecordFreeEntries { entries } => {
            assert(addresses_in(msg) =~= Seq::new(entries.len(), |i: int| entries[i].wallet));
        },
        ExecuteMsgView::UpdateConfig { update } => {
            assert(addresses_in(msg) =~= one_if(update.admin) + one_if(update.operator) + one_if(
                update.nft_contract,
            ) + one_if(update.treasury));
        },
        _ => {},
    }
    assert(addresses_in_setup(setup) =~= seq![setup.admin] + one_if(setup.operator) + seq![
        setup.nft_contract,
    ] + seq![setup.treasury]);
    assert(addresses_in_migration(migration) =~= one_if(migration.admin) + one_if(
        migration.operator,
    ));
}

/// One text, or none.
pub open spec fn one_if(given: Option<Seq<char>>) -> Seq<Seq<char>> {
    match given {
        Some(given) => seq![given],
        None => Seq::empty(),
    }
}

/// Only a settlement that draws asks for owners.
pub proof fn law_what_does_not_draw_asks_for_no_owner(s: StateView, env: Env, msg: ExecuteMsgView)
    requires
        !(msg is ExecuteDraw),
        !(msg is SettleStale),
    ensures
        tokens_in(s, env, msg).len() == 0,
{
}

/// Only a counter that is full leaves no room: that of the entries for a mint or
/// for a batch, that of the rounds for a round, and both of the rounds' for a
/// settlement. An update always has room.
pub proof fn law_only_a_full_counter_leaves_no_room(s: StateView, msg: ExecuteMsgView)
    ensures
        has_room(s, msg) == match msg {
            ExecuteMsgView::RecordEntry { token_id, minter, entries, amount, entropy } =>
                s.next_entry_id < u64::MAX,
            ExecuteMsgView::RecordFreeEntries { entries } => s.next_entry_id + entries.len()
                <= u64::MAX,
            ExecuteMsgView::OpenRound { seed_hash, close_time } => s.last_round_id < u64::MAX,
            ExecuteMsgView::UpdateConfig { update } => true,
            _ => s.next_unsettled_id < u64::MAX || s.last_round_id < u64::MAX,
        },
{
}

/// A call does what its outcome says: it leaves that pool and says that
/// response, or it gives that error and leaves the pool as it was.
pub proof fn law_a_call_does_what_its_outcome_says(
    result: Result<Response, ContractError>,
    before: StateView,
    after: StateView,
    outcome: Outcome,
)
    requires
        accords(result, before, after, outcome),
    ensures
        outcome matches Ok((state, response)) ==> after == state && result is Ok && result->Ok_0@
            == response,
        outcome matches Err(error) ==> after == before && result is Err && result->Err_0@ == error,
{
}

/// What a pool in order is: fair terms, entries and rounds under growing ids
/// that were given out, entries with tickets and entropy, rounds that close one
/// after the other, settled up to the next, and untouched from there on.
pub proof fn law_what_a_pool_in_order_is(s: StateView)
    requires
        s.config.payout_bps.len() > 0,
        share_sum(s.config.payout_bps) + s.config.treasury_bps + s.config.caller_bps
            <= 10_000,
        1 <= s.next_entry_id,
        1 <= s.next_unsettled_id <= s.last_round_id + 1,
        forall|i: int, j: int|
            0 <= i < j < s.entries.len() ==> (#[trigger] s.entries[i]).0 < (
            #[trigger] s.entries[j]).0,
        forall|i: int|
            0 <= i < s.entries.len() ==> {
                &&& 1 <= (#[trigger] s.entries[i]).0 < s.next_entry_id
                &&& s.entries[i].1.entries > 0
                &&& 1 <= s.entries[i].1.entropy.len() <= 256
                &&& s.entries[i].1.free ==> s.entries[i].1.amount == 0
            },
        forall|i: int, j: int|
            0 <= i < j < s.rounds.len() ==> {
                &&& (#[trigger] s.rounds[i]).0 < (#[trigger] s.rounds[j]).0
                &&& s.rounds[i].1.close_time < s.rounds[j].1.close_time
            },
        forall|i: int|
            0 <= i < s.rounds.len() ==> {
                &&& 1 <= (#[trigger] s.rounds[i]).0 <= s.last_round_id
                &&& s.rounds[i].1.seed_hash.len() == 32
                &&& s.rounds[i].1.terms matches Some(terms) ==> {
                    &&& terms.payout_bps.len() > 0
                    &&& share_sum(terms.payout_bps) + terms.treasury_bps
                        + terms.caller_bps <= 10_000
                }
                &&& s.rounds[i].0 >= s.next_unsettled_id ==> s.rounds[i].1 == (RoundView {
                    status: RoundStatus::Open,
                    first_entry_id: None,
                    last_entry_id: None,
                    secret: None,
                    entropy: None,
                    result: None,
                    total_entries: None,
                    winner_indexes: Seq::empty(),
                    winners: Seq::empty(),
                    pot: None,
                    settled_at: None,
                    has_late_entries: false,
                    ..s.rounds[i].1
                })
                &&& s.rounds[i].0 < s.next_unsettled_id ==> {
                    &&& s.rounds[i].1.status == RoundStatus::Drawn || s.rounds[i].1.status
                        == RoundStatus::Skipped || s.rounds[i].1.status == RoundStatus::RolledOver
                    &&& s.rounds[i].1.first_entry_id is Some
                    &&& s.rounds[i].1.last_entry_id is Some
                    &&& 1 <= s.rounds[i].1.first_entry_id->0 <= s.rounds[i].1.last_entry_id->0 + 1
                    &&& s.rounds[i].1.last_entry_id->0 < s.next_entry_id
                }
            },
    ensures
        s.wf(),
{
    assert forall|i: int| 0 <= i < s.rounds.len() implies s.round_ok(
        (#[trigger] s.rounds[i]).0,
        s.rounds[i].1,
    ) by {
        assert(1 <= s.rounds[i].0 <= s.last_round_id);
    }
}

} // verus!
