//! What the pool tells of itself.

use vstd::prelude::*;

use crate::bytes::copied;
use crate::draw::{money, EntryRows, MAX_SCAN};
use crate::error::{viewed, StdError, StdErrorView};
use crate::msg::{
    entry_views, ConfigResponse, ConfigResponseView, EntriesResponse, EntryResponse, Env,
    PotResponse, PotResponseView, ProofResponse, ProofResponseView, QueryMsg, QueryResponseView,
    RoundResponse, RoundResponseView, RoundsResponse,
};
use crate::rounds::{current_row, taking_entries};
use crate::state::{
    copied_numbers, copied_option, copied_texts, Config, Entry, Round, RoundStatus, RoundView, State,
    StateView,
};
use crate::table::{find, lemma_position_monotone, rows_between, rows_from, Table};
use crate::text::{decimal, decimal_text};

verus! {

/// How many rows a page holds if nothing is said.
pub const DEFAULT_LIMIT: u32 = 30;

/// How many rows a page holds at most.
pub const MAX_LIMIT: u32 = 100;

/// The status a round is told to have: an open round that is past its close is
/// closed.
pub open spec fn status_at(round: RoundView, now: u64) -> RoundStatus {
    if round.status == RoundStatus::Open && now >= round.close_time {
        RoundStatus::Closed
    } else {
        round.status
    }
}

/// A round as it is told.
pub open spec fn told(round_id: u64, round: RoundView, now: u64) -> RoundResponseView {
    RoundResponseView {
        round_id,
        seed_hash: round.seed_hash,
        opened_at: round.opened_at,
        close_time: round.close_time,
        status: status_at(round, now),
        first_entry_id: round.first_entry_id,
        last_entry_id: round.last_entry_id,
        secret: round.secret,
        entropy: round.entropy,
        result: round.result,
        total_entries: round.total_entries,
        winner_indexes: round.winner_indexes,
        winners: round.winners,
        pot: round.pot,
        settled_at: round.settled_at,
        has_late_entries: round.has_late_entries,
    }
}

/// That there is no such round.
pub open spec fn no_round(round_id: u64) -> StdErrorView {
    StdErrorView::NotFound { kind: "round "@ + decimal(round_id as nat) }
}

/// The configuration and the counters.
pub open spec fn config_told(s: StateView) -> ConfigResponseView {
    ConfigResponseView {
        admin: s.config.admin,
        operator: s.config.operator_key(),
        nft_contract: s.config.nft_contract,
        denom: s.config.denom,
        treasury: s.config.treasury,
        treasury_bps: s.config.treasury_bps,
        payout_bps: s.config.payout_bps,
        caller_bps: s.config.caller_bps,
        min_entries: s.config.min_entries,
        min_pot: s.config.min_pot,
        stale_after_secs: s.config.stale_after_secs,
        paused: s.config.paused,
        next_unsettled_id: s.next_unsettled_id,
        last_round_id: s.last_round_id,
        next_entry_id: s.next_entry_id,
        carry: s.carry,
    }
}

/// One round.
pub open spec fn round_told(s: StateView, now: u64, round_id: u64) -> Result<
    RoundResponseView,
    StdErrorView,
> {
    match find(s.rounds, round_id) {
        Some(round) => Ok(told(round_id, round, now)),
        None => Err(no_round(round_id)),
    }
}

/// How many rows a page holds.
pub open spec fn page_size(limit: Option<u32>) -> nat {
    match limit {
        Some(limit) => if limit <= MAX_LIMIT {
            limit as nat
        } else {
            MAX_LIMIT as nat
        },
        None => DEFAULT_LIMIT as nat,
    }
}

/// The first `n` rows, or all if there are no more.
pub open spec fn first_rows<V>(rows: Seq<V>, n: nat) -> Seq<V> {
    if rows.len() <= n {
        rows
    } else {
        rows.take(n as int)
    }
}

/// The page of rows behind id `start_after`, or from the first on.
pub open spec fn page<V>(
    rows: Seq<(u64, V)>,
    start_after: Option<u64>,
    limit: Option<u32>,
) -> Seq<(u64, V)> {
    match start_after {
        Some(id) => first_rows(rows_from(rows, id + 1), page_size(limit)),
        None => first_rows(rows, page_size(limit)),
    }
}

/// The rounds of a page.
pub open spec fn rounds_told(
    s: StateView,
    now: u64,
    start_after: Option<u64>,
    limit: Option<u32>,
) -> Seq<RoundResponseView> {
    page(s.rounds, start_after, limit).map_values(
        |row: (u64, RoundView)| told(row.0, row.1, now),
    )
}

/// The round taking entries, or the last one if none does.
pub open spec fn current_told(s: StateView, now: u64) -> Result<RoundResponseView, StdErrorView> {
    match taking_entries(s, now) {
        Some((round_id, round)) => Ok(told(round_id, round, now)),
        None => round_told(s, now, s.last_round_id),
    }
}

/// The entries that a settled round has consumed.
pub open spec fn consumed(s: StateView, round: RoundView) -> EntryRows {
    match (round.first_entry_id, round.last_entry_id) {
        (Some(first), Some(last)) => rows_between(s.entries, first as int, last as int),
        _ => Seq::empty(),
    }
}

/// Everything needed to recheck a settled round.
pub open spec fn proof_told(s: StateView, round_id: u64) -> Result<
    ProofResponseView,
    StdErrorView,
> {
    match find(s.rounds, round_id) {
        None => Err(no_round(round_id)),
        Some(round) => Ok(
            ProofResponseView {
                round_id,
                seed_hash: round.seed_hash,
                secret: round.secret,
                entropy: round.entropy,
                result: round.result,
                total_entries: round.total_entries,
                winner_indexes: round.winner_indexes,
                winners: round.winners,
                entries: consumed(s, round),
            },
        ),
    }
}

/// The id of the first entry that no settlement has consumed.
pub open spec fn first_pending(s: StateView) -> int {
    if s.next_unsettled_id <= 1 {
        1
    } else {
        match find(s.rounds, (s.next_unsettled_id - 1) as u64) {
            Some(round) => match round.last_entry_id {
                Some(last) => last + 1,
                None => 1,
            },
            None => 1,
        }
    }
}

/// The entries that no settlement has consumed, and no more than one round
/// covers.
pub open spec fn pending(s: StateView) -> EntryRows {
    first_rows(rows_from(s.entries, first_pending(s)), MAX_SCAN as nat)
}

/// The pool's money.
pub open spec fn pot_told(s: StateView, balance: u128) -> PotResponseView {
    PotResponseView {
        denom: s.config.denom,
        balance,
        carry: s.carry,
        pending: money(pending(s)) as u128,
    }
}

/// What a query is answered.
pub open spec fn query_told(s: StateView, env: Env, msg: QueryMsg) -> Result<
    QueryResponseView,
    StdErrorView,
> {
    match msg {
        QueryMsg::Config {  } => Ok(QueryResponseView::Config(config_told(s))),
        QueryMsg::Round { round_id } => match round_told(s, env.time, round_id) {
            Ok(r) => Ok(QueryResponseView::Round(r)),
            Err(e) => Err(e),
        },
        QueryMsg::Rounds { start_after, limit } => Ok(
            QueryResponseView::Rounds(rounds_told(s, env.time, start_after, limit)),
        ),
        QueryMsg::CurrentRound {  } => match current_told(s, env.time) {
            Ok(r) => Ok(QueryResponseView::Round(r)),
            Err(e) => Err(e),
        },
        QueryMsg::Entries { start_after, limit } => Ok(
            QueryResponseView::Entries(page(s.entries, start_after, limit)),
        ),
        QueryMsg::Proof { round_id } => match proof_told(s, round_id) {
            Ok(r) => Ok(QueryResponseView::Proof(r)),
            Err(e) => Err(e),
        },
        QueryMsg::Pot {  } => Ok(QueryResponseView::Pot(pot_told(s, env.balance))),
    }
}

/// The answer can be written down: a sum of money that is asked for is an
/// amount.
pub open spec fn can_tell(s: StateView, msg: QueryMsg) -> bool {
    msg is Pot ==> money(pending(s)) <= u128::MAX
}

/// The status a round is told to have.
pub fn derived_status(round: &Round, now: u64) -> (status: RoundStatus)
    ensures
        status == status_at(round@, now),
{
    match round.status {
        RoundStatus::Open => {
            if now >= round.close_time {
                RoundStatus::Closed
            } else {
                RoundStatus::Open
            }
        },
        other => other,
    }
}

/// A round as it is told.
pub fn to_response(round_id: u64, round: &Round, now: u64) -> (response: RoundResponse)
    ensures
        response@ == told(round_id, round@, now),
{
    RoundResponse {
        round_id,
        seed_hash: copied(&round.seed_hash),
        opened_at: round.opened_at,
        close_time: round.close_time,
        status: derived_status(round, now),
        first_entry_id: round.first_entry_id,
        last_entry_id: round.last_entry_id,
        secret: copied_option(&round.secret),
        entropy: copied_option(&round.entropy),
        result: copied_option(&round.result),
        total_entries: round.total_entries,
        winner_indexes: copied_numbers(&round.winner_indexes),
        winners: copied_texts(&round.winners),
        pot: round.pot,
        settled_at: round.settled_at,
        has_late_entries: round.has_late_entries,
    }
}

/// The configuration and the counters.
pub fn query_config(state: &State) -> (response: ConfigResponse)
    ensures
        response@ == config_told(state@),
{
    let config: &Config = &state.config;
    ConfigResponse {
        admin: config.admin.clone(),
        operator: config.operator_key().clone(),
        nft_contract: config.nft_contract.clone(),
        denom: config.denom.clone(),
        treasury: config.treasury.clone(),
        treasury_bps: config.treasury_bps,
        payout_bps: copied_numbers(&config.payout_bps),
        caller_bps: config.caller_bps,
        min_entries: config.min_entries,
        min_pot: config.min_pot,
        stale_after_secs: config.stale_after_secs,
        paused: config.paused,
        next_unsettled_id: state.next_unsettled_id,
        last_round_id: state.last_round_id,
        next_entry_id: state.next_entry_id,
        carry: state.carry,
    }
}

/// That there is no such round.
fn round_not_found(round_id: u64) -> (error: StdError)
    ensures
        error@ == no_round(round_id),
{
    let mut kind: String = "round ".to_owned();
    let number: String = decimal_text(round_id as u128);
    kind.append(number.as_str());
    StdError::NotFound { kind }
}

/// One round.
pub fn query_round(state: &State, env: &Env, round_id: u64) -> (response: Result<
    RoundResponse,
    StdError,
>)
    ensures
        viewed(response) == round_told(state@, env.time, round_id),
{
    match state.rounds.get(round_id) {
        Some(round) => Ok(to_response(round_id, round, env.time)),
        None => Err(round_not_found(round_id)),
    }
}

/// How many rows a page holds.
fn page_limit(limit: Option<u32>) -> (size: usize)
    ensures
        size == page_size(limit),
{
    match limit {
        Some(limit) => {
            if limit <= MAX_LIMIT {
                limit as usize
            } else {
                MAX_LIMIT as usize
            }
        },
        None => DEFAULT_LIMIT as usize,
    }
}

/// Where a page starts and where it ends in the table.
fn page_bounds<T: View>(table: &Table<T>, start_after: Option<u64>, limit: Option<u32>) -> (bounds:
    (usize, usize))
    ensures
        bounds.0 <= bounds.1 <= table@.len() == table.rows@.len(),
        table@.subrange(bounds.0 as int, bounds.1 as int) == page(table@, start_after, limit),
{
    let start: usize = match start_after {
        Some(id) => table.locate_after(id),
        None => 0,
    };
    let size: usize = page_limit(limit);
    let left: usize = table.rows.len() - start;
    let end: usize = if left <= size {
        table.rows.len()
    } else {
        start + size
    };
    assert(table@.subrange(start as int, end as int) =~= page(table@, start_after, limit));
    (start, end)
}

/// A page of rounds.
pub fn query_rounds(
    state: &State,
    env: &Env,
    start_after: Option<u64>,
    limit: Option<u32>,
) -> (response: RoundsResponse)
    ensures
        response@ == rounds_told(state@, env.time, start_after, limit),
{
    let (start, end) = page_bounds(&state.rounds, start_after, limit);
    let ghost all: Seq<RoundResponseView> = rounds_told(state@, env.time, start_after, limit);
    let mut rounds: Vec<RoundResponse> = Vec::new();
    let mut i: usize = start;
    while i < end
        invariant
            start <= i <= end <= state@.rounds.len() == state.rounds.rows@.len(),
            state@.rounds.subrange(start as int, end as int) == page(
                state@.rounds,
                start_after,
                limit,
            ),
            all == rounds_told(state@, env.time, start_after, limit),
            rounds@.map_values(|r: RoundResponse| r@) == all.take(i - start),
        decreases end - i,
    {
        let ghost before: Seq<RoundResponseView> = rounds@.map_values(|r: RoundResponse| r@);
        let row: &(u64, Round) = &state.rounds.rows[i];
        rounds.push(to_response(row.0, &row.1, env.time));
        proof {
            assert(state@.rounds[i as int] == (row.0, row.1@));
            assert(page(state@.rounds, start_after, limit)[i - start] == state@.rounds[i as int]);
            assert(all[i - start] == told(row.0, row.1@, env.time));
            assert(rounds@.map_values(|r: RoundResponse| r@) =~= before.push(all[i - start]));
            assert(all.take(i - start + 1) =~= before.push(all[i - start]));
        }
        i = i + 1;
    }
    assert(all.take(i - start) =~= all);
    RoundsResponse { rounds }
}

/// The round taking entries, or the last one if none does.
pub fn query_current(state: &State, env: &Env) -> (response: Result<RoundResponse, StdError>)
    requires
        state@.wf(),
    ensures
        viewed(response) == current_told(state@, env.time),
{
    match current_row(state, env.time) {
        Some(i) => {
            let row: &(u64, Round) = &state.rounds.rows[i];
            assert(state@.rounds[i as int] == (row.0, row.1@));
            Ok(to_response(row.0, &row.1, env.time))
        },
        None => query_round(state, env, state.last_round_id),
    }
}

/// The entries in places `start` to `end` of the table.
fn copied_entries(entries: &Table<Entry>, start: usize, end: usize) -> (list: Vec<EntryResponse>)
    requires
        start <= end <= entries@.len(),
    ensures
        entry_views(list@) == entries@.subrange(start as int, end as int),
{
    let ghost all: EntryRows = entries@.subrange(start as int, end as int);
    let mut list: Vec<EntryResponse> = Vec::new();
    let mut i: usize = start;
    while i < end
        invariant
            start <= i <= end <= entries@.len() == entries.rows@.len(),
            all == entries@.subrange(start as int, end as int),
            entry_views(list@) == all.take(i - start),
        decreases end - i,
    {
        let ghost before: EntryRows = entry_views(list@);
        let row: &(u64, Entry) = &entries.rows[i];
        list.push(EntryResponse { entry_id: row.0, entry: row.1.clone() });
        proof {
            assert(entries@[i as int] == (row.0, row.1@));
            assert(entry_views(list@) =~= before.push(all[i - start]));
            assert(all.take(i - start + 1) =~= before.push(all[i - start]));
        }
        i = i + 1;
    }
    assert(all.take(i - start) =~= all);
    list
}

/// A page of entries.
pub fn query_entries(state: &State, start_after: Option<u64>, limit: Option<u32>) -> (response:
    EntriesResponse)
    ensures
        response@ == page(state@.entries, start_after, limit),
{
    let (start, end) = page_bounds(&state.entries, start_after, limit);
    EntriesResponse { entries: copied_entries(&state.entries, start, end) }
}

/// The entries that a settled round has consumed.
fn consumed_entries(state: &State, round: &Round) -> (list: Vec<EntryResponse>)
    requires
        state@.wf(),
    ensures
        entry_views(list@) == consumed(state@, round@),
{
    if let Some(first) = round.first_entry_id {
        if let Some(last) = round.last_entry_id {
            if first <= last {
                let start: usize = state.entries.locate(first);
                let end: usize = state.entries.locate_after(last);
                proof {
                    lemma_position_monotone(state@.entries, first as int, last + 1);
                }
                return copied_entries(&state.entries, start, end);
            }
        }
    }
    let none: Vec<EntryResponse> = Vec::new();
    assert(entry_views(none@) =~= Seq::empty());
    none
}

/// Everything needed to recheck a settled round.
pub fn query_proof(state: &State, round_id: u64) -> (response: Result<ProofResponse, StdError>)
    requires
        state@.wf(),
    ensures
        viewed(response) == proof_told(state@, round_id),
{
    let round: &Round = match state.rounds.get(round_id) {
        Some(round) => round,
        None => return Err(round_not_found(round_id)),
    };
    Ok(
        ProofResponse {
            round_id,
            seed_hash: copied(&round.seed_hash),
            secret: copied_option(&round.secret),
            entropy: copied_option(&round.entropy),
            result: copied_option(&round.result),
            total_entries: round.total_entries,
            winner_indexes: copied_numbers(&round.winner_indexes),
            winners: copied_texts(&round.winners),
            entries: consumed_entries(state, round),
        },
    )
}

/// Where the pending entries start and end in the table.
fn pending_bounds(state: &State) -> (bounds: (usize, usize))
    requires
        state@.wf(),
    ensures
        bounds.0 <= bounds.1 <= state@.entries.len() == state.entries.rows@.len(),
        state@.entries.subrange(bounds.0 as int, bounds.1 as int) == pending(state@),
{
    let start: usize = if state.next_unsettled_id <= 1 {
        state.entries.locate(1)
    } else {
        match state.rounds.get(state.next_unsettled_id - 1) {
            Some(round) => match round.last_entry_id {
                Some(last) => state.entries.locate_after(last),
                None => state.entries.locate(1),
            },
            None => state.entries.locate(1),
        }
    };
    let left: usize = state.entries.rows.len() - start;
    let end: usize = if left <= MAX_SCAN {
        state.entries.rows.len()
    } else {
        start + MAX_SCAN
    };
    assert(state@.entries.subrange(start as int, end as int) =~= pending(state@));
    (start, end)
}

/// The money of the entries in places `start` to `end`, if it is an amount.
fn money_between(entries: &Table<Entry>, start: usize, end: usize) -> (sum: Option<u128>)
    requires
        start <= end <= entries@.len(),
    ensures
        match sum {
            Some(amount) => amount == money(entries@.subrange(start as int, end as int)),
            None => money(entries@.subrange(start as int, end as int)) > u128::MAX,
        },
{
    let ghost all: EntryRows = entries@.subrange(start as int, end as int);
    let mut sum: u128 = 0;
    let mut i: usize = start;
    assert(all.take(0) =~= Seq::empty());
    while i < end
        invariant
            start <= i <= end <= entries@.len() == entries.rows@.len(),
            all == entries@.subrange(start as int, end as int),
            sum == money(all.take(i - start)),
        decreases end - i,
    {
        proof {
            assert(all.take(i - start + 1).drop_last() =~= all.take(i - start));
            assert(all[i - start] == entries@[i as int]);
            lemma_money_take(all, i - start + 1);
        }
        sum = match sum.checked_add(entries.rows[i].1.amount) {
            Some(more) => more,
            None => return None,
        };
        i = i + 1;
    }
    assert(all.take(i - start) =~= all);
    Some(sum)
}

/// The first entries bring no more money than all of them.
pub proof fn lemma_money_take(rows: EntryRows, n: int)
    requires
        0 <= n <= rows.len(),
    ensures
        money(rows.take(n)) <= money(rows),
    decreases rows.len(),
{
    if n == rows.len() {
        assert(rows.take(n) =~= rows);
    } else {
        assert(rows.drop_last().take(n) =~= rows.take(n));
        lemma_money_take(rows.drop_last(), n);
    }
}

/// Whether the answer can be written down.
pub fn is_tellable(state: &State, msg: &QueryMsg) -> (tellable: bool)
    requires
        state@.wf(),
    ensures
        tellable == can_tell(state@, *msg),
{
    match msg {
        QueryMsg::Pot {  } => {
            let (start, end) = pending_bounds(state);
            money_between(&state.entries, start, end).is_some()
        },
        _ => true,
    }
}

/// The pool's money.
pub fn query_pot(state: &State, env: &Env) -> (response: PotResponse)
    requires
        state@.wf(),
        money(pending(state@)) <= u128::MAX,
    ensures
        response@ == pot_told(state@, env.balance),
{
    let (start, end) = pending_bounds(state);
    let sum: u128 = match money_between(&state.entries, start, end) {
        Some(sum) => sum,
        None => 0,
    };
    PotResponse {
        denom: state.config.denom.clone(),
        balance: env.balance,
        carry: state.carry,
        pending: sum,
    }
}

} // verus!
