//! Which entries a round covers, what they add up to, and who wins.

use vstd::prelude::*;
use vstd::utf8::encode_utf8;

use crate::bytes::{be_bytes, be_prefix, be_value, copied, joined, to_be_bytes};
use crate::digest::{sha256, sha256_of};
use crate::error::{ContractError, ContractErrorView, StdError, StdErrorView};
use crate::state::{Entry, EntryView};
use crate::table::{ascending, lemma_position, position, rows_from, Table};

verus! {

/// How many entries one round covers at most. Rounds are days long, not years.
pub const MAX_SCAN: usize = 5_000;

/// Entries with their ids, in id order.
pub type EntryRows = Seq<(u64, EntryView)>;

/// The first place, counting from `i`, that is at `limit`, past the rows, or
/// holds an entry recorded at or after `close_time`.
pub open spec fn run_end(rows: EntryRows, close_time: u64, limit: int, i: int) -> int
    decreases limit - i,
{
    if i >= limit || i >= rows.len() || rows[i].1.recorded_at >= close_time {
        i
    } else {
        run_end(rows, close_time, limit, i + 1)
    }
}

/// The entries of a round that starts at id `first` and closes at
/// `close_time`: those from `first` on, up to the first that came too late,
/// and no more than one round covers.
pub open spec fn covered(rows: EntryRows, first: u64, close_time: u64) -> EntryRows {
    let tail: EntryRows = rows_from(rows, first as int);
    tail.take(run_end(tail, close_time, MAX_SCAN as int, 0))
}

/// The tickets of a round: its entries in id order, each repeated as often as
/// it has tickets.
pub open spec fn tickets(rows: EntryRows) -> EntryRows
    decreases rows.len(),
{
    if rows.len() == 0 {
        Seq::empty()
    } else {
        tickets(rows.drop_last()) + Seq::new(rows.last().1.entries as nat, |k: int| rows.last())
    }
}

/// The money that the entries brought.
pub open spec fn money(rows: EntryRows) -> nat
    decreases rows.len(),
{
    if rows.len() == 0 {
        0
    } else {
        money(rows.drop_last()) + rows.last().1.amount as nat
    }
}

/// `n`, or the largest amount there is if that is less.
pub open spec fn capped(n: nat) -> u128 {
    if n <= u128::MAX {
        n as u128
    } else {
        u128::MAX
    }
}

/// Where a round's entropy starts, before any entry.
pub open spec fn entropy_seed(round_id: u64, seed_hash: Seq<u8>) -> Seq<u8> {
    sha256_of(be_bytes(round_id) + seed_hash)
}

/// `start` with every entry's minter and entropy hashed into it, in order.
pub open spec fn entropy_over(start: Seq<u8>, rows: EntryRows) -> Seq<u8>
    decreases rows.len(),
{
    if rows.len() == 0 {
        start
    } else {
        let entry: EntryView = rows.last().1;
        sha256_of(
            entropy_over(start, rows.drop_last()) + encode_utf8(entry.minter) + entry.entropy,
        )
    }
}

/// Some entry is older than the round's commitment.
pub open spec fn any_before(rows: EntryRows, opened_at: u64) -> bool {
    exists|i: int| 0 <= i < rows.len() && (#[trigger] rows[i]).1.recorded_at < opened_at
}

/// The id of the last entry, or the id before `first` if there is none.
pub open spec fn last_id(rows: EntryRows, first: u64) -> u64 {
    if rows.len() == 0 {
        (first - 1) as u64
    } else {
        rows.last().0
    }
}

/// The chain of seeds: each is the hash of the one before it and of its own
/// number, and the first of the result.
pub open spec fn chain_seed(result: Seq<u8>, place: nat) -> Seq<u8>
    decreases place,
{
    if place == 0 {
        sha256_of(result + be_bytes(0))
    } else {
        sha256_of(chain_seed(result, (place - 1) as nat) + be_bytes(place as u64))
    }
}

/// What the winning number of place `place` is read from: the result itself for
/// the first, its seed in the chain for every other.
pub open spec fn place_seed(result: Seq<u8>, place: nat) -> Seq<u8> {
    if place == 0 {
        result
    } else {
        chain_seed(result, place)
    }
}

/// The ticket that place `place` points at.
pub open spec fn place_start(result: Seq<u8>, place: nat, total: nat) -> nat {
    be_value(place_seed(result, place).take(16)) % total
}

/// One of the chosen tickets belongs to `minter`.
pub open spec fn has_won(pool: EntryRows, chosen: Seq<u64>, minter: Seq<char>) -> bool {
    exists|k: int|
        0 <= k < chosen.len() && pool[(#[trigger] chosen[k]) as int].1.minter == minter
}

/// The first ticket, `hops` or more past `start` and round the pool once, whose
/// minter has not won yet.
pub open spec fn first_free(pool: EntryRows, chosen: Seq<u64>, start: nat, hops: nat) -> Option<u64>
    decreases pool.len() - hops,
{
    if hops >= pool.len() {
        None
    } else {
        let i: nat = (start + hops) % pool.len();
        if has_won(pool, chosen, pool[i as int].1.minter) {
            first_free(pool, chosen, start, hops + 1)
        } else {
            Some(i as u64)
        }
    }
}

/// The winning tickets of the first `places` places. A place for which no
/// minter is left has no winner.
pub open spec fn winning_tickets(pool: EntryRows, result: Seq<u8>, places: nat) -> Seq<u64>
    decreases places,
{
    if places == 0 {
        Seq::empty()
    } else {
        let place: nat = (places - 1) as nat;
        let before: Seq<u64> = winning_tickets(pool, result, place);
        match first_free(pool, before, place_start(result, place, pool.len()), 0) {
            Some(i) => before.push(i),
            None => before,
        }
    }
}

/// How many places are drawn: one per payout share, and no more than there
/// are tickets.
pub open spec fn places_drawn(shares: nat, total: nat) -> nat {
    if shares <= total {
        shares
    } else {
        total
    }
}

pub proof fn lemma_run_end(rows: EntryRows, close_time: u64, limit: int, i: int)
    requires
        0 <= i,
        i <= limit,
        i <= rows.len(),
    ensures
        i <= run_end(rows, close_time, limit, i) <= limit,
        run_end(rows, close_time, limit, i) <= rows.len(),
        forall|j: int|
            i <= j < run_end(rows, close_time, limit, i) ==> (#[trigger] rows[j]).1.recorded_at
                < close_time,
    decreases limit - i,
{
    if !(i >= limit || i >= rows.len() || rows[i].1.recorded_at >= close_time) {
        lemma_run_end(rows, close_time, limit, i + 1);
    }
}

/// No entry has more tickets than a `u32` counts.
pub proof fn lemma_tickets_bound(rows: EntryRows)
    ensures
        tickets(rows).len() <= rows.len() * u32::MAX,
    decreases rows.len(),
{
    if rows.len() > 0 {
        lemma_tickets_bound(rows.drop_last());
        assert(rows.len() * u32::MAX == (rows.len() - 1) * u32::MAX + u32::MAX)
            by (nonlinear_arith)
            requires
                rows.len() > 0,
        ;
    }
}

/// The tickets of the first entries are the first tickets.
pub proof fn lemma_tickets_prefix(rows: EntryRows, n: int)
    requires
        0 <= n <= rows.len(),
    ensures
        tickets(rows.take(n)).len() <= tickets(rows).len(),
        forall|t: int|
            0 <= t < tickets(rows.take(n)).len() ==> #[trigger] tickets(rows)[t] == tickets(
                rows.take(n),
            )[t],
    decreases rows.len(),
{
    if n == rows.len() {
        assert(rows.take(n) =~= rows);
    } else {
        lemma_tickets_prefix(rows.drop_last(), n);
        assert(rows.drop_last().take(n) =~= rows.take(n));
    }
}

/// One more entry adds its tickets at the end.
pub proof fn lemma_tickets_step(rows: EntryRows, n: int)
    requires
        0 <= n < rows.len(),
    ensures
        tickets(rows.take(n + 1)).len() == tickets(rows.take(n)).len() + rows[n].1.entries,
        forall|t: int|
            tickets(rows.take(n)).len() <= t < tickets(rows.take(n + 1)).len()
                ==> #[trigger] tickets(rows.take(n + 1))[t] == rows[n],
{
    assert(rows.take(n + 1).drop_last() =~= rows.take(n));
}

/// Every ticket is an entry of the round.
pub proof fn lemma_ticket_is_entry(rows: EntryRows, t: int)
    requires
        0 <= t < tickets(rows).len(),
    ensures
        rows.contains(tickets(rows)[t]),
    decreases rows.len(),
{
    if t < tickets(rows.drop_last()).len() {
        lemma_ticket_is_entry(rows.drop_last(), t);
        let i: int = choose|i: int|
            0 <= i < rows.drop_last().len() && rows.drop_last()[i] == tickets(rows)[t];
        assert(rows[i] == tickets(rows)[t]);
    } else {
        assert(rows[rows.len() - 1] == tickets(rows)[t]);
    }
}

/// What one walk over a round's entries finds.
pub struct Scan {
    pub first_entry_id: u64,
    pub last_entry_id: u64,
    pub total_entries: u64,
    /// The entries' money, capped at the largest amount there is.
    pub amount: u128,
    pub entropy: Vec<u8>,
    pub has_late_entries: bool,
    /// Where the round's entries stand in the table.
    pub start: usize,
    pub end: usize,
}

impl Scan {
    /// The scan tells of these entries of a round.
    pub open spec fn tells(
        &self,
        rows: EntryRows,
        first: u64,
        round_id: u64,
        seed_hash: Seq<u8>,
        opened_at: u64,
    ) -> bool {
        &&& self.first_entry_id == first
        &&& self.last_entry_id == last_id(rows, first)
        &&& self.total_entries == tickets(rows).len()
        &&& self.amount == capped(money(rows))
        &&& self.entropy@ == entropy_over(entropy_seed(round_id, seed_hash), rows)
        &&& self.has_late_entries == any_before(rows, opened_at)
    }
}

/// Walks the round's entries once: counts tickets, sums the money, folds the
/// entropy.
pub fn scan_round(
    entries: &Table<Entry>,
    first: u64,
    round_id: u64,
    seed_hash: &Vec<u8>,
    opened_at: u64,
    close_time: u64,
) -> (scan: Scan)
    requires
        ascending(entries@),
        first >= 1,
    ensures
        scan.tells(covered(entries@, first, close_time), first, round_id, seed_hash@, opened_at),
        scan.start == position(entries@, first as int),
        scan.start <= scan.end <= entries@.len(),
        entries@.subrange(scan.start as int, scan.end as int) == covered(
            entries@,
            first,
            close_time,
        ),
        scan.total_entries <= MAX_SCAN * u32::MAX,
{
    let start: usize = entries.locate(first);
    let ghost tail: EntryRows = rows_from(entries@, first as int);
    let ghost begin: Seq<u8> = entropy_seed(round_id, seed_hash@);
    let mut last: u64 = first - 1;
    let mut total: u64 = 0;
    let mut amount: u128 = 0;
    let mut entropy: Vec<u8> = sha256(&joined(&to_be_bytes(round_id), seed_hash.as_slice()));
    let mut late: bool = false;
    let mut count: usize = 0;
    proof {
        lemma_position(entries@, first as int);
        assert(tail.take(0) =~= Seq::empty());
    }
    while count < MAX_SCAN && count < entries.rows.len() - start
        && entries.rows[start + count].1.recorded_at < close_time
        invariant
            first >= 1,
            start == position(entries@, first as int),
            start <= entries@.len() == entries.rows@.len(),
            tail == rows_from(entries@, first as int),
            tail.len() == entries@.len() - start,
            count <= MAX_SCAN,
            count <= tail.len(),
            run_end(tail, close_time, MAX_SCAN as int, 0) == run_end(
                tail,
                close_time,
                MAX_SCAN as int,
                count as int,
            ),
            last == last_id(tail.take(count as int), first),
            total == tickets(tail.take(count as int)).len(),
            total <= count * u32::MAX,
            amount == capped(money(tail.take(count as int))),
            entropy@ == entropy_over(begin, tail.take(count as int)),
            late == any_before(tail.take(count as int), opened_at),
        decreases MAX_SCAN - count,
    {
        let ghost seen: EntryRows = tail.take(count as int);
        let ghost more: EntryRows = tail.take(count + 1);
        let (id, entry) = &entries.rows[start + count];
        proof {
            assert(entries@[start + count] == (*id, entry@));
            assert(tail[count as int] == (*id, entry@));
            assert(more.drop_last() =~= seen);
            assert(more.last() == (*id, entry@));
            lemma_tickets_step(tail, count as int);
            assert((count + 1) * u32::MAX == count * u32::MAX + u32::MAX) by (nonlinear_arith);
            assert(count * u32::MAX <= MAX_SCAN * u32::MAX) by (nonlinear_arith)
                requires
                    count <= MAX_SCAN,
            ;
            assert(any_before(more, opened_at) == (any_before(seen, opened_at)
                || entry.recorded_at < opened_at)) by {
                assert(forall|i: int| 0 <= i < seen.len() ==> more[i] == #[trigger] seen[i]);
                if entry.recorded_at < opened_at {
                    assert(more[count as int].1.recorded_at < opened_at);
                }
                if any_before(seen, opened_at) {
                    let i: int = choose|i: int|
                        0 <= i < seen.len() && (#[trigger] seen[i]).1.recorded_at < opened_at;
                    assert(more[i].1.recorded_at < opened_at);
                }
            }
        }
        if entry.recorded_at < opened_at {
            late = true;
        }
        let with_minter: Vec<u8> = joined(&entropy, entry.minter.as_str().as_bytes());
        entropy = sha256(&joined(&with_minter, entry.entropy.as_slice()));
        total = total + entry.entries as u64;
        amount = amount.saturating_add(entry.amount);
        last = *id;
        count = count + 1;
    }
    assert(start + count <= entries.rows.len());
    let end: usize = start + count;
    proof {
        assert(run_end(tail, close_time, MAX_SCAN as int, 0) == count) by {
            if count < MAX_SCAN && count < tail.len() {
                assert(tail[count as int] == entries@[start + count]);
            }
        }
        assert(entries@.subrange(start as int, start + count) =~= tail.take(count as int));
        assert(count * u32::MAX <= MAX_SCAN * u32::MAX) by (nonlinear_arith)
            requires
                count <= MAX_SCAN,
        ;
    }
    Scan {
        first_entry_id: first,
        last_entry_id: last,
        total_entries: total,
        amount,
        entropy,
        has_late_entries: late,
        start,
        end,
    }
}

/// Which entry owns ticket `index`, among the entries in places `start` to
/// `end` of the table.
pub fn entry_at_index(entries: &Table<Entry>, start: usize, end: usize, index: u64) -> (row: Result<
    usize,
    ContractError,
>)
    requires
        start <= end <= entries@.len(),
        tickets(entries@.subrange(start as int, end as int)).len() <= u64::MAX,
    ensures
        row is Ok <==> index < tickets(entries@.subrange(start as int, end as int)).len(),
        row matches Ok(r) ==> start <= r < end && entries@[r as int] == tickets(
            entries@.subrange(start as int, end as int),
        )[index as int],
        row matches Err(e) ==> e@ == ContractErrorView::Std(
            StdErrorView::GenericErr { msg: "ticket index out of range"@ },
        ),
{
    let ghost rows: EntryRows = entries@.subrange(start as int, end as int);
    let mut seen: u64 = 0;
    let mut i: usize = start;
    assert(rows.take(0) =~= Seq::empty());
    while i < end
        invariant
            start <= i <= end <= entries@.len() == entries.rows@.len(),
            rows == entries@.subrange(start as int, end as int),
            tickets(rows).len() <= u64::MAX,
            seen == tickets(rows.take(i - start)).len(),
            seen <= index,
        decreases end - i,
    {
        let weight: u64 = entries.rows[i].1.entries as u64;
        proof {
            let n: int = i - start;
            assert(rows[n] == entries@[i as int]);
            lemma_tickets_step(rows, n);
            lemma_tickets_prefix(rows, n + 1);
        }
        if index < seen + weight {
            return Ok(i);
        }
        seen = seen + weight;
        i = i + 1;
    }
    assert(rows.take(rows.len() as int) =~= rows);
    Err(
        ContractError::Std(
            StdError::GenericErr { msg: "ticket index out of range".to_owned() },
        ),
    )
}

/// A winning ticket and the place of its entry in the table.
pub struct Winner {
    pub index: u64,
    pub row: usize,
}

/// The ticket numbers of a list of winners.
pub open spec fn indexes(winners: Seq<Winner>) -> Seq<u64> {
    winners.map_values(|w: Winner| w.index)
}

/// Each winner's ticket is in the pool and belongs to the entry it names.
pub open spec fn point_into(winners: Seq<Winner>, rows: EntryRows, pool: EntryRows) -> bool {
    forall|k: int|
        0 <= k < winners.len() ==> {
            &&& (#[trigger] winners[k]).index < pool.len()
            &&& winners[k].row < rows.len()
            &&& rows[winners[k].row as int] == pool[winners[k].index as int]
        }
}

/// Whether one of the winners minted as `minter`.
fn already_won(
    entries: &Table<Entry>,
    winners: &Vec<Winner>,
    minter: &String,
    Ghost(pool): Ghost<EntryRows>,
) -> (won: bool)
    requires
        point_into(winners@, entries@, pool),
    ensures
        won == has_won(pool, indexes(winners@), minter@),
{
    let ghost chosen: Seq<u64> = indexes(winners@);
    let mut k: usize = 0;
    while k < winners.len()
        invariant
            k <= winners@.len(),
            chosen == indexes(winners@),
            point_into(winners@, entries@, pool),
            forall|j: int| 0 <= j < k ==> pool[(#[trigger] chosen[j]) as int].1.minter != minter@,
        decreases winners@.len() - k,
    {
        let ghost w: Winner = winners@[k as int];
        assert(w.row < entries@.len());
        assert(entries@[w.row as int] == pool[w.index as int]);
        assert(entries@[w.row as int].1.minter == entries.rows@[w.row as int].1.minter@);
        assert(chosen[k as int] == w.index);
        if entries.rows[winners[k].row].1.minter == *minter {
            assert(pool[chosen[k as int] as int].1.minter == minter@);
            return true;
        }
        k = k + 1;
    }
    false
}

/// The winners of the first `places` places.
pub fn choose_winners(
    entries: &Table<Entry>,
    start: usize,
    end: usize,
    total: u64,
    result: &Vec<u8>,
    places: u64,
) -> (winners: Vec<Winner>)
    requires
        start <= end <= entries@.len(),
        total == tickets(entries@.subrange(start as int, end as int)).len(),
        total < u64::MAX,
        places <= total,
        result@.len() == 32,
    ensures
        indexes(winners@) == winning_tickets(
            tickets(entries@.subrange(start as int, end as int)),
            result@,
            places as nat,
        ),
        winners@.len() <= places,
        point_into(
            winners@,
            entries@,
            tickets(entries@.subrange(start as int, end as int)),
        ),
{
    let ghost pool: EntryRows = tickets(entries@.subrange(start as int, end as int));
    let mut winners: Vec<Winner> = Vec::new();
    let mut seed: Vec<u8> = copied(result);
    let mut place: u64 = 0;
    assert(indexes(winners@) =~= Seq::empty());
    while place < places
        invariant
            start <= end <= entries@.len() == entries.rows@.len(),
            pool == tickets(entries@.subrange(start as int, end as int)),
            total == pool.len(),
            total < u64::MAX,
            place <= places <= total,
            seed@.len() == 32 == result@.len(),
            place == 0 ==> seed@ == result@,
            place > 0 ==> seed@ == chain_seed(result@, (place - 1) as nat),
            indexes(winners@) == winning_tickets(pool, result@, place as nat),
            winners@.len() <= place,
            point_into(winners@, entries@, pool),
        decreases places - place,
    {
        seed = sha256(&joined(&seed, to_be_bytes(place).as_slice()));
        let number: u128 = if place == 0 {
            be_prefix(result)
        } else {
            be_prefix(&seed)
        };
        let ghost begin: nat = place_start(result@, place as nat, pool.len());
        let mut index: u64 = (number % (total as u128)) as u64;
        let mut hops: u64 = 0;
        let ghost before: Seq<u64> = indexes(winners@);
        let ghost found: Option<u64> = first_free(pool, before, begin, 0);
        proof {
            assert(index == begin);
            vstd::arithmetic::div_mod::lemma_small_mod(begin, pool.len());
        }
        let mut searching: bool = true;
        while searching && hops < total
            invariant
                start <= end <= entries@.len() == entries.rows@.len(),
                pool == tickets(entries@.subrange(start as int, end as int)),
                total == pool.len(),
                0 < total < u64::MAX,
                hops <= total,
                place < places <= total,
                index == (begin + hops as nat) % pool.len(),
                found == first_free(pool, before, begin, 0),
                searching ==> {
                    &&& indexes(winners@) == before
                    &&& winners@.len() <= place
                    &&& found == first_free(pool, before, begin, hops as nat)
                },
                !searching ==> {
                    &&& found is Some
                    &&& indexes(winners@) == before.push(found->0)
                    &&& winners@.len() <= place + 1
                },
                point_into(winners@, entries@, pool),
            decreases total - hops, (if searching { 1int } else { 0int }),
        {
            let row: usize = match entry_at_index(entries, start, end, index) {
                Ok(row) => row,
                Err(_) => start,
            };
            assert(entries@[row as int] == pool[index as int]);
            let entry: &Entry = &entries.rows[row].1;
            if !already_won(entries, &winners, &entry.minter, Ghost(pool)) {
                winners.push(Winner { index, row });
                assert(indexes(winners@) =~= before.push(index));
                searching = false;
            } else {
                proof {
                    vstd::arithmetic::div_mod::lemma_add_mod_noop(
                        begin + hops as int,
                        1,
                        total as int,
                    );
                    vstd::arithmetic::div_mod::lemma_add_mod_noop(index as int, 1, total as int);
                    vstd::arithmetic::div_mod::lemma_small_mod(index as nat, total as nat);
                }
                index = (index + 1) % total;
                hops = hops + 1;
            }
        }
        proof {
            if searching {
                assert(found is None);
            }
        }
        place = place + 1;
    }
    winners
}

} // verus!
