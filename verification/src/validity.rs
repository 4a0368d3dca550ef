//! Whether what was loaded is a pool.

use vstd::prelude::*;

use crate::config::check_bps;
use crate::rules::lemma_share_sum_take;
use crate::state::{
    entry_ok, share_sum, Entry, Round, RoundStatus, RoundTerms, RoundView, State, MAX_ENTROPY_BYTES,
    SEED_HASH_BYTES, WHOLE_BPS,
};
use crate::table::{ascending, Table};

verus! {

/// Whether ids grow strictly from row to row.
fn is_ascending<T: View>(table: &Table<T>) -> (yes: bool)
    ensures
        yes == ascending(table@),
{
    let mut i: usize = 1;
    while i < table.rows.len()
        invariant
            1 <= i,
            table@.len() == table.rows@.len(),
            ascending(table@.take(if i <= table@.len() { i as int } else { table@.len() as int })),
        decreases table.rows@.len() - i,
    {
        assert(table@[i - 1].0 == table.rows@[i - 1].0);
        assert(table@[i as int].0 == table.rows@[i as int].0);
        if table.rows[i - 1].0 >= table.rows[i].0 {
            return false;
        }
        proof {
            let shorter: Seq<(u64, T::V)> = table@.take(i as int);
            let longer: Seq<(u64, T::V)> = table@.take(i + 1);
            assert forall|j: int, k: int| 0 <= j < k < longer.len() implies (
            #[trigger] longer[j]).0 < (#[trigger] longer[k]).0 by {
                if k < i {
                    assert(shorter[j].0 < shorter[k].0);
                } else if j < i - 1 {
                    assert(shorter[j].0 < shorter[i - 1].0);
                }
            }
        }
        i = i + 1;
    }
    assert(table@.take(table@.len() as int) =~= table@);
    true
}

/// Whether an entry has a ticket and entropy, and no money if it is free.
fn is_entry_ok(entry: &Entry) -> (yes: bool)
    ensures
        yes == entry_ok(entry@),
{
    entry.entries > 0 && entry.entropy.len() >= 1 && entry.entropy.len() <= MAX_ENTROPY_BYTES && (
    !entry.free || entry.amount == 0)
}

/// Whether every entry is in order.
fn are_entries_ok(state: &State) -> (yes: bool)
    ensures
        yes == forall|i: int|
            0 <= i < state@.entries.len() ==> {
                &&& 1 <= (#[trigger] state@.entries[i]).0 < state@.next_entry_id
                &&& entry_ok(state@.entries[i].1)
            },
{
    let mut i: usize = 0;
    while i < state.entries.rows.len()
        invariant
            i <= state.entries.rows@.len() == state@.entries.len(),
            forall|j: int|
                0 <= j < i ==> {
                    &&& 1 <= (#[trigger] state@.entries[j]).0 < state@.next_entry_id
                    &&& entry_ok(state@.entries[j].1)
                },
        decreases state.entries.rows@.len() - i,
    {
        let row: &(u64, Entry) = &state.entries.rows[i];
        assert(state@.entries[i as int] == (row.0, row.1@));
        if row.0 < 1 || row.0 >= state.next_entry_id || !is_entry_ok(&row.1) {
            return false;
        }
        i = i + 1;
    }
    true
}

/// Whether nothing that settlement fills in is there.
fn is_untouched(round: &Round) -> (yes: bool)
    ensures
        yes == round@.untouched(),
{
    let open: bool = match round.status {
        RoundStatus::Open => true,
        _ => false,
    };
    open && round.first_entry_id.is_none() && round.last_entry_id.is_none()
        && round.secret.is_none() && round.entropy.is_none() && round.result.is_none()
        && round.total_entries.is_none() && round.winner_indexes.len() == 0
        && round.winners.len() == 0 && round.pot.is_none() && round.settled_at.is_none()
        && !round.has_late_entries
}

/// Whether the round is settled, with a boundary within the entries there are.
fn is_settled(round: &Round, next_entry_id: u64) -> (yes: bool)
    ensures
        yes == round@.is_settled(next_entry_id),
{
    let closed: bool = match round.status {
        RoundStatus::Drawn => true,
        RoundStatus::Skipped => true,
        RoundStatus::RolledOver => true,
        _ => false,
    };
    match (round.first_entry_id, round.last_entry_id) {
        (Some(first), Some(last)) => closed && 1 <= first && last < next_entry_id && first - 1
            <= last,
        _ => false,
    }
}

/// Whether a settlement on these terms pays out no more than the pot, with a
/// place to win.
fn is_fair(terms: &RoundTerms) -> (yes: bool)
    ensures
        yes == terms@.fair(),
{
    let shares: &Vec<u64> = &terms.payout_bps;
    if terms.treasury_bps > WHOLE_BPS || terms.caller_bps > WHOLE_BPS {
        return false;
    }
    let mut sum: u64 = terms.treasury_bps + terms.caller_bps;
    let mut i: usize = 0;
    assert(shares@.take(0) =~= Seq::empty());
    while i < shares.len()
        invariant
            i <= shares@.len(),
            sum <= 2 * WHOLE_BPS,
            terms@.payout_bps == shares@,
            sum == share_sum(shares@.take(i as int)) + terms.treasury_bps + terms.caller_bps,
        decreases shares@.len() - i,
    {
        proof {
            assert(shares@.take(i + 1).drop_last() =~= shares@.take(i as int));
            lemma_share_sum_take(shares@, i + 1);
        }
        if sum > WHOLE_BPS || shares[i] > WHOLE_BPS - sum {
            return false;
        }
        sum = sum + shares[i];
        i = i + 1;
    }
    assert(shares@.take(i as int) =~= shares@);
    sum <= WHOLE_BPS && shares.len() > 0
}

/// Whether a round is in order under its id.
fn is_round_ok(state: &State, id: u64, round: &Round) -> (yes: bool)
    ensures
        yes == state@.round_ok(id, round@),
{
    if id < 1 || id > state.last_round_id || round.seed_hash.len() != SEED_HASH_BYTES {
        return false;
    }
    let fair: bool = match &round.terms {
        Some(terms) => is_fair(terms),
        None => true,
    };
    fair && if id < state.next_unsettled_id {
        is_settled(round, state.next_entry_id)
    } else {
        is_untouched(round)
    }
}

/// Whether every round is in order.
fn are_rounds_ok(state: &State) -> (yes: bool)
    ensures
        yes == forall|i: int|
            0 <= i < state@.rounds.len() ==> state@.round_ok(
                (#[trigger] state@.rounds[i]).0,
                state@.rounds[i].1,
            ),
{
    let mut i: usize = 0;
    while i < state.rounds.rows.len()
        invariant
            i <= state.rounds.rows@.len() == state@.rounds.len(),
            forall|j: int|
                0 <= j < i ==> state@.round_ok(
                    (#[trigger] state@.rounds[j]).0,
                    state@.rounds[j].1,
                ),
        decreases state.rounds.rows@.len() - i,
    {
        let row: &(u64, Round) = &state.rounds.rows[i];
        assert(state@.rounds[i as int] == (row.0, row.1@));
        if !is_round_ok(state, row.0, &row.1) {
            return false;
        }
        i = i + 1;
    }
    true
}

/// Rounds close one after the other.
spec fn closing(rounds: Seq<(u64, RoundView)>) -> bool {
    forall|i: int, j: int|
        0 <= i < j < rounds.len() ==> (#[trigger] rounds[i]).1.close_time < (
        #[trigger] rounds[j]).1.close_time
}

/// Whether rounds close one after the other.
fn is_closing(table: &Table<Round>) -> (yes: bool)
    ensures
        yes == closing(table@),
{
    let mut i: usize = 1;
    while i < table.rows.len()
        invariant
            1 <= i,
            table@.len() == table.rows@.len(),
            closing(table@.take(if i <= table@.len() { i as int } else { table@.len() as int })),
        decreases table.rows@.len() - i,
    {
        assert(table@[i - 1].1 == table.rows@[i - 1].1@);
        assert(table@[i as int].1 == table.rows@[i as int].1@);
        if table.rows[i - 1].1.close_time >= table.rows[i].1.close_time {
            return false;
        }
        proof {
            let shorter: Seq<(u64, RoundView)> = table@.take(i as int);
            let longer: Seq<(u64, RoundView)> = table@.take(i + 1);
            assert forall|j: int, k: int| 0 <= j < k < longer.len() implies (
            #[trigger] longer[j]).1.close_time < (#[trigger] longer[k]).1.close_time by {
                if k < i {
                    assert(shorter[j].1.close_time < shorter[k].1.close_time);
                } else if j < i - 1 {
                    assert(shorter[j].1.close_time < shorter[i - 1].1.close_time);
                }
            }
        }
        i = i + 1;
    }
    assert(table@.take(table@.len() as int) =~= table@);
    true
}

impl State {
    /// Whether this is a pool that every call can be made on.
    pub fn is_valid(&self) -> (valid: bool)
        ensures
            valid == self@.wf(),
    {
        check_bps(&self.config).is_ok() && is_ascending(&self.entries) && self.next_entry_id >= 1
            && are_entries_ok(self) && is_ascending(&self.rounds) && self.next_unsettled_id >= 1
            && self.next_unsettled_id - 1 <= self.last_round_id && are_rounds_ok(self)
            && is_closing(&self.rounds)
    }
}

} // verus!
