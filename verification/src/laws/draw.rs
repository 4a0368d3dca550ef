//! What holds of every draw.

use vstd::prelude::*;

use crate::bytes::{be_bytes, be_value};
use crate::digest::sha256_of;
use crate::draw::{
    chain_seed, covered, first_free, has_won, last_id, lemma_ticket_is_entry, money, place_start, run_end,
    tickets, winning_tickets, EntryRows, MAX_SCAN,
};
use crate::error::StdErrorView;
use crate::laws::rounds::lemma_winning_tickets_len;
use crate::msg::{answer_to, AnswerView};
use crate::rules::{lemma_boundary, payees};
use crate::state::EntryView;
use crate::table::{ascending, lemma_position, position, rows_from};

verus! {

proof fn lemma_first_free(pool: EntryRows, chosen: Seq<u64>, start: nat, hops: nat)
    requires
        0 < pool.len() <= u64::MAX,
        start < pool.len(),
        hops <= pool.len(),
    ensures
        match first_free(pool, chosen, start, hops) {
            Some(i) => i < pool.len() && !has_won(pool, chosen, pool[i as int].1.minter),
            None => forall|h: int|
                hops <= h < pool.len() ==> has_won(
                    pool,
                    chosen,
                    pool[#[trigger] round_the(pool, start, h)].1.minter,
                ),
        },
    decreases pool.len() - hops,
{
    if hops < pool.len() {
        let i: nat = (start + hops) % pool.len();
        assert(i < pool.len());
        if has_won(pool, chosen, pool[i as int].1.minter) {
            lemma_first_free(pool, chosen, start, hops + 1);
            assert(round_the(pool, start, hops as int) == i);
        }
    }
}

/// The ticket that is `h` past `start`, round the pool.
pub open spec fn round_the(pool: EntryRows, start: nat, h: int) -> int {
    ((start + h) % (pool.len() as int)) as int
}

proof fn lemma_round_the(pool: EntryRows, start: nat, t: int)
    requires
        start < pool.len(),
        0 <= t < pool.len(),
    ensures
        exists|h: int| 0 <= h < pool.len() && #[trigger] round_the(pool, start, h) == t,
{
    let n: int = pool.len() as int;
    if t >= start {
        assert((start + (t - start)) % n == t) by {
            vstd::arithmetic::div_mod::lemma_small_mod(t as nat, pool.len());
        }
        assert(round_the(pool, start, t - start) == t);
    } else {
        assert((start + (t + n - start)) % n == t) by {
            vstd::arithmetic::div_mod::lemma_mod_add_multiples_vanish(t, n);
            vstd::arithmetic::div_mod::lemma_small_mod(t as nat, pool.len());
        }
        assert(round_the(pool, start, t + n - start) == t);
    }
}

/// Every winning ticket is one of the round's, no two of them belong to one
/// minter, and there are no more of them than places. A place goes without a
/// winner only if every minter has won already.
pub proof fn law_winners_are_distinct(pool: EntryRows, result: Seq<u8>, places: nat)
    requires
        0 < pool.len() <= u64::MAX,
    ensures
        ({
            let chosen: Seq<u64> = winning_tickets(pool, result, places);
            &&& chosen.len() <= places
            &&& forall|k: int| 0 <= k < chosen.len() ==> #[trigger] chosen[k] < pool.len()
            &&& forall|j: int, k: int|
                0 <= j < k < chosen.len() ==> pool[(#[trigger] chosen[j]) as int].1.minter
                    != pool[(#[trigger] chosen[k]) as int].1.minter
            &&& chosen.len() < places ==> forall|t: int|
                0 <= t < pool.len() ==> has_won(pool, chosen, (#[trigger] pool[t]).1.minter)
        }),
    decreases places,
{
    if places > 0 {
        let place: nat = (places - 1) as nat;
        let before: Seq<u64> = winning_tickets(pool, result, place);
        let chosen: Seq<u64> = winning_tickets(pool, result, places);
        let start: nat = place_start(result, place, pool.len());
        law_winners_are_distinct(pool, result, place);
        lemma_first_free(pool, before, start, 0);
        match first_free(pool, before, start, 0) {
            Some(i) => {
                assert(chosen == before.push(i));
                assert forall|j: int, k: int| 0 <= j < k < chosen.len() implies pool[(
                #[trigger] chosen[j]) as int].1.minter != pool[(#[trigger] chosen[k]) as int].1.minter by {
                    assert(chosen[j] == before[j]);
                    if k < before.len() {
                        assert(chosen[k] == before[k]);
                    } else if pool[chosen[j] as int].1.minter == pool[i as int].1.minter {
                        assert(has_won(pool, before, pool[i as int].1.minter));
                    }
                }
                if chosen.len() < places {
                    assert(has_won(pool, before, pool[i as int].1.minter));
                }
            },
            None => {
                assert forall|t: int| 0 <= t < pool.len() implies has_won(
                    pool,
                    chosen,
                    (#[trigger] pool[t]).1.minter,
                ) by {
                    lemma_round_the(pool, start, t);
                }
            },
        }
    }
}

/// Every winning ticket belongs to an entry of the round.
pub proof fn law_winners_come_from_the_round(rows: EntryRows, result: Seq<u8>, places: nat)
    requires
        0 < tickets(rows).len() <= u64::MAX,
    ensures
        ({
            let chosen: Seq<u64> = winning_tickets(tickets(rows), result, places);
            forall|k: int|
                0 <= k < chosen.len() ==> rows.contains(
                    tickets(rows)[(#[trigger] chosen[k]) as int],
                )
        }),
{
    law_winners_are_distinct(tickets(rows), result, places);
    let chosen: Seq<u64> = winning_tickets(tickets(rows), result, places);
    assert forall|k: int| 0 <= k < chosen.len() implies rows.contains(
        tickets(rows)[(#[trigger] chosen[k]) as int],
    ) by {
        lemma_ticket_is_entry(rows, chosen[k] as int);
    }
}

/// The first place goes to the ticket that the first sixteen bytes of the
/// result point at.
pub proof fn law_first_place_is_the_result(pool: EntryRows, result: Seq<u8>, places: nat)
    requires
        0 < pool.len() <= u64::MAX,
        places > 0,
    ensures
        winning_tickets(pool, result, places).len() > 0,
        winning_tickets(pool, result, places)[0] == be_value(result.take(16)) % pool.len(),
    decreases places,
{
    let start: nat = place_start(result, 0, pool.len());
    if places == 1 {
        let none: Seq<u64> = Seq::empty();
        assert(winning_tickets(pool, result, 0) == none);
        assert(!has_won(pool, none, pool[start as int].1.minter));
        vstd::arithmetic::div_mod::lemma_small_mod(start, pool.len());
        assert(first_free(pool, none, start, 0) == Some(start as u64));
    } else {
        law_first_place_is_the_result(pool, result, (places - 1) as nat);
    }
}

/// A round covers entries from its first id on, without a gap; all of them came
/// before it closed; and the entry behind them, if the walk did not stop for
/// length, came too late and is where the next round starts.
pub proof fn law_a_round_covers_what_came_in_time(entries: EntryRows, first: u64, close_time: u64)
    requires
        ascending(entries),
        first >= 1,
    ensures
        ({
            let rows: EntryRows = covered(entries, first, close_time);
            let next: EntryRows = rows_from(entries, last_id(rows, first) + 1);
            &&& rows + next == rows_from(entries, first as int)
            &&& rows.len() <= MAX_SCAN
            &&& forall|i: int|
                0 <= i < rows.len() ==> (#[trigger] rows[i]).1.recorded_at < close_time
            &&& next.len() > 0 && rows.len() < MAX_SCAN ==> next[0].1.recorded_at >= close_time
        }),
{
    lemma_boundary(entries, first, close_time);
    lemma_position(entries, first as int);
    let rows: EntryRows = covered(entries, first, close_time);
    let tail: EntryRows = rows_from(entries, first as int);
    let next: EntryRows = rows_from(entries, last_id(rows, first) + 1);
    assert(rows + next =~= tail);
    if next.len() > 0 && rows.len() < MAX_SCAN {
        lemma_run_stops(tail, close_time, MAX_SCAN as int, 0);
        assert(next[0] == tail[rows.len() as int]);
    }
}

proof fn lemma_run_stops(rows: EntryRows, close_time: u64, limit: int, i: int)
    requires
        0 <= i <= limit,
        i <= rows.len(),
    ensures
        ({
            let end: int = run_end(rows, close_time, limit, i);
            &&& i <= end <= rows.len()
            &&& end < rows.len() && end < limit ==> rows[end].1.recorded_at >= close_time
        }),
    decreases limit - i,
{
    if !(i >= limit || i >= rows.len() || rows[i].1.recorded_at >= close_time) {
        lemma_run_stops(rows, close_time, limit, i + 1);
    }
}

/// An entry adds as many tickets as it has and as much money as it brings; a
/// free one brings none.
pub proof fn law_an_entry_adds_its_tickets_and_money(rows: EntryRows, id: u64, entry: EntryView)
    ensures
        tickets(rows.push((id, entry))).len() == tickets(rows).len() + entry.entries,
        money(rows.push((id, entry))) == money(rows) + entry.amount,
{
    assert(rows.push((id, entry)).drop_last() =~= rows);
}

/// Every winner is paid for their own ticket: a token's owner of the day, or
/// the wallet that earned a free one.
pub proof fn law_each_ticket_pays_its_own(
    pool: EntryRows,
    chosen: Seq<u64>,
    owners: Seq<AnswerView>,
    list: Seq<Seq<char>>,
)
    requires
        payees(pool, chosen, owners) == Ok::<_, StdErrorView>(list),
    ensures
        list.len() == chosen.len(),
        forall|k: int|
            0 <= k < list.len() ==> {
                let entry: EntryView = pool[chosen[k] as int].1;
                if entry.free {
                    #[trigger] list[k] == entry.minter
                } else {
                    answer_to(owners, entry.token_id) == Ok::<_, StdErrorView>(list[k])
                }
            },
    decreases chosen.len(),
{
    if chosen.len() > 0 {
        let shorter: Seq<Seq<char>> = payees(pool, chosen.drop_last(), owners)->Ok_0;
        law_each_ticket_pays_its_own(pool, chosen.drop_last(), owners, shorter);
        assert(forall|k: int| 0 <= k < shorter.len() ==> #[trigger] list[k] == shorter[k]);
        assert(forall|k: int| 0 <= k < shorter.len() ==> chosen.drop_last()[k] == chosen[k]);
    }
}

/// The entries a round covers, place by place: from the first id on, one behind
/// the other, all recorded before the close, five thousand at most; and the one
/// behind them, unless there are five thousand, was not.
pub proof fn law_a_round_covers_exactly(entries: EntryRows, first: u64, close_time: u64) -> (p: int)
    requires
        ascending(entries),
        first >= 1,
    ensures
        ({
            let rows: EntryRows = covered(entries, first, close_time);
            let end: int = p + rows.len();
            &&& 0 <= p
            &&& end <= entries.len()
            &&& rows == entries.subrange(p, end)
            &&& forall|j: int| 0 <= j < p ==> (#[trigger] entries[j]).0 < first
            &&& forall|j: int| p <= j < entries.len() ==> (#[trigger] entries[j]).0 >= first
            &&& forall|j: int| p <= j < end ==> (#[trigger] entries[j]).1.recorded_at < close_time
            &&& rows.len() <= 5_000
            &&& rows.len() < 5_000 && end < entries.len() ==> entries[end].1.recorded_at
                >= close_time
        }),
{
    lemma_boundary(entries, first, close_time);
    lemma_position(entries, first as int);
    let p: int = position(entries, first as int);
    let rows: EntryRows = covered(entries, first, close_time);
    let tail: EntryRows = rows_from(entries, first as int);
    lemma_run_stops(tail, close_time, MAX_SCAN as int, 0);
    assert forall|j: int| p <= j < p + rows.len() implies (#[trigger] entries[j]).1.recorded_at
        < close_time by {
        assert(rows[j - p] == entries[j]);
    }
    if p + rows.len() < entries.len() {
        assert(tail[rows.len() as int] == entries[p + rows.len()]);
    }
    p
}

/// The hop at which the search for a free ticket ends.
proof fn lemma_hop(pool: EntryRows, chosen: Seq<u64>, start: nat, hops: nat) -> (h: int)
    requires
        0 < pool.len() <= u64::MAX,
        start < pool.len(),
        first_free(pool, chosen, start, hops) is Some,
    ensures
        hops <= h < pool.len(),
        0 <= round_the(pool, start, h) < pool.len(),
        first_free(pool, chosen, start, hops) == Some(round_the(pool, start, h) as u64),
        !has_won(pool, chosen, pool[round_the(pool, start, h)].1.minter),
        forall|g: int|
            hops <= g < h ==> has_won(
                pool,
                chosen,
                pool[#[trigger] round_the(pool, start, g)].1.minter,
            ),
    decreases pool.len() - hops,
{
    let i: nat = (start + hops) % pool.len();
    if has_won(pool, chosen, pool[i as int].1.minter) {
        let h: int = lemma_hop(pool, chosen, start, hops + 1);
        assert(round_the(pool, start, hops as int) == i);
        h
    } else {
        assert(round_the(pool, start, hops as int) == i);
        hops as int
    }
}

/// The first places do not depend on how many there are.
proof fn lemma_places_prefix(pool: EntryRows, result: Seq<u8>, places: nat, k: int)
    requires
        0 < pool.len() <= u64::MAX,
        0 <= k < winning_tickets(pool, result, places).len(),
    ensures
        winning_tickets(pool, result, (k + 1) as nat).len() == k + 1,
        winning_tickets(pool, result, places).take(k + 1) == winning_tickets(
            pool,
            result,
            (k + 1) as nat,
        ),
    decreases places,
{
    law_winners_are_distinct(pool, result, places);
    let chosen: Seq<u64> = winning_tickets(pool, result, places);
    if places == k + 1 {
        assert(chosen.take(k + 1) =~= chosen);
    } else {
        let place: nat = (places - 1) as nat;
        let before: Seq<u64> = winning_tickets(pool, result, place);
        let start: nat = place_start(result, place, pool.len());
        law_winners_are_distinct(pool, result, place);
        lemma_first_free(pool, before, start, 0);
        if before.len() <= k {
            if let Some(i) = first_free(pool, before, start, 0) {
                assert(has_won(pool, before, pool[i as int].1.minter));
            }
        }
        lemma_places_prefix(pool, result, place, k);
        assert(chosen.take(k + 1) =~= before.take(k + 1));
    }
}

proof fn lemma_seeds(result: Seq<u8>, k: nat) -> (seeds: Seq<Seq<u8>>)
    ensures
        seeds.len() == k + 1,
        seeds[0] == sha256_of(result + be_bytes(0)),
        forall|p: int|
            1 <= p <= k ==> #[trigger] seeds[p] == sha256_of(seeds[p - 1] + be_bytes(p as u64)),
        seeds[k as int] == chain_seed(result, k),
    decreases k,
{
    if k == 0 {
        seq![chain_seed(result, 0)]
    } else {
        let shorter: Seq<Seq<u8>> = lemma_seeds(result, (k - 1) as nat);
        let seeds: Seq<Seq<u8>> = shorter.push(chain_seed(result, k));
        assert forall|p: int| 1 <= p <= k implies #[trigger] seeds[p] == sha256_of(
            seeds[p - 1] + be_bytes(p as u64),
        ) by {
            assert(seeds[p - 1] == shorter[p - 1]);
            if p < k {
                assert(seeds[p] == shorter[p]);
            }
        }
        seeds
    }
}

/// One of the first `k` chosen tickets is the minter's.
pub open spec fn won_before(pool: EntryRows, chosen: Seq<u64>, k: int, minter: Seq<char>) -> bool {
    exists|j: int| 0 <= j < k && pool[(#[trigger] chosen[j]) as int].1.minter == minter
}

/// The winner of place `k`, and how many tickets were passed over.
proof fn lemma_winner_of_place(pool: EntryRows, result: Seq<u8>, places: nat, k: int) -> (h: int)
    requires
        0 < pool.len() <= u64::MAX,
        0 <= k < winning_tickets(pool, result, places).len(),
    ensures
        ({
            let chosen: Seq<u64> = winning_tickets(pool, result, places);
            let start: nat = place_start(result, k as nat, pool.len());
            &&& start < pool.len()
            &&& 0 <= h < pool.len()
            &&& chosen[k] == round_the(pool, start, h)
            &&& forall|g: int|
                0 <= g < h ==> won_before(
                    pool,
                    chosen,
                    k,
                    pool[#[trigger] round_the(pool, start, g)].1.minter,
                )
        }),
{
    let chosen: Seq<u64> = winning_tickets(pool, result, places);
    let place: nat = k as nat;
    let before: Seq<u64> = winning_tickets(pool, result, place);
    let start: nat = place_start(result, place, pool.len());
    lemma_places_prefix(pool, result, places, k);
    lemma_winning_tickets_len(pool, result, place);
    let upto: Seq<u64> = winning_tickets(pool, result, (k + 1) as nat);
    assert(first_free(pool, before, start, 0) is Some);
    assert(upto == before.push(first_free(pool, before, start, 0)->0));
    assert(chosen[k] == chosen.take(k + 1)[k]);
    assert forall|j: int| 0 <= j < k implies #[trigger] chosen[j] == before[j] by {
        assert(chosen.take(k + 1)[j] == chosen[j]);
    }
    let h: int = lemma_hop(pool, before, start, 0);
    assert forall|g: int| 0 <= g < h implies won_before(
        pool,
        chosen,
        k,
        pool[#[trigger] round_the(pool, start, g)].1.minter,
    ) by {
        let t: int = round_the(pool, start, g);
        assert(has_won(pool, before, pool[t].1.minter));
        let j: int = choose|j: int|
            0 <= j < before.len() && pool[(#[trigger] before[j]) as int].1.minter
                == pool[t].1.minter;
        assert(chosen[j] == before[j]);
    }
    h
}

/// Who wins place `k`. A number is read from the first sixteen bytes: of the
/// result for the first place, of the place's seed for every other, where a
/// seed is the hash of the one before it and of its number, and the first of
/// the result. The number points at a ticket; from there on, round the pool,
/// the first ticket wins whose minter has won none of the places before.
/// Returned are the seeds, the ticket pointed at, and how many were passed over.
pub proof fn law_a_place_takes_the_next_free_ticket(
    pool: EntryRows,
    result: Seq<u8>,
    places: nat,
    k: int,
) -> (r: (Seq<Seq<u8>>, nat, int))
    requires
        0 < pool.len() <= u64::MAX,
        0 <= k < winning_tickets(pool, result, places).len(),
    ensures
        ({
            let chosen: Seq<u64> = winning_tickets(pool, result, places);
            let seeds: Seq<Seq<u8>> = r.0;
            let start: nat = r.1;
            let passed: int = r.2;
            &&& seeds.len() == k + 1
            &&& seeds[0] == sha256_of(result + be_bytes(0))
            &&& forall|p: int|
                1 <= p <= k ==> #[trigger] seeds[p] == sha256_of(
                    seeds[p - 1] + be_bytes(p as u64),
                )
            &&& k == 0 ==> start == be_value(result.take(16)) % pool.len()
            &&& k > 0 ==> start == be_value(seeds[k].take(16)) % pool.len()
            &&& 0 <= passed < pool.len()
            &&& chosen[k] == (start + passed) % (pool.len() as int)
            &&& forall|j: int|
                0 <= j < k ==> pool[(#[trigger] chosen[j]) as int].1.minter
                    != pool[chosen[k] as int].1.minter
            &&& forall|h: int|
                0 <= h < passed ==> won_before(
                    pool,
                    chosen,
                    k,
                    pool[#[trigger] round_the(pool, start, h)].1.minter,
                )
        }),
{
    law_winners_are_distinct(pool, result, places);
    let start: nat = place_start(result, k as nat, pool.len());
    let h: int = lemma_winner_of_place(pool, result, places, k);
    let seeds: Seq<Seq<u8>> = lemma_seeds(result, k as nat);
    (seeds, start, h)
}

} // verus!
