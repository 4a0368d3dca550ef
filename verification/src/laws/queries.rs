//! What holds of what the pool tells.

use vstd::prelude::*;
use vstd::utf8::encode_utf8;

use crate::bytes::{be_bytes, be_value};
use crate::contract::has_room;
use crate::digest::sha256_of;
use crate::draw::{
    entropy_over, entropy_seed, lemma_tickets_bound, places_drawn, tickets, winning_tickets,
    EntryRows, MAX_SCAN,
};

use crate::laws::calls::{
    basis_of, goes, key_of, law_calls_keep_the_pool_in_order, law_entries_are_never_changed,
    law_settled_rounds_are_never_changed, lemma_settlement, record_of, settles, Call,
};
use crate::laws::draw::law_first_place_is_the_result;
use crate::laws::rounds::lemma_consumed;
use crate::laws::settled::lemma_fold;
use crate::msg::{ProofResponseView, ResponseView};
use crate::query::{consumed, current_told, first_rows, page, page_size, proof_told, round_told};
use crate::rounds::{first_open, taking_entries};
use crate::rules::{lemma_boundary, lemma_start_of, Basis};
use crate::state::{RoundStatus, RoundView, StateView};
use crate::table::{
    ascending, find, lemma_find_row, lemma_find_some, lemma_position, lemma_position_is, lemma_put, position,
    rows_between, rows_from,
};

verus! {

/// The proof of a round checks out: the entropy is folded over the entries it
/// lists, the result is the hash of the key, the entropy and the round, and the
/// winning tickets are those that the result picks among the entries' tickets.
pub open spec fn checks_out(p: ProofResponseView, key: Seq<u8>, places: nat) -> bool {
    let pool: EntryRows = tickets(p.entries);
    &&& p.total_entries matches Some(total) && total == pool.len()
    &&& p.entropy matches Some(entropy) && entropy == entropy_over(
        entropy_seed(p.round_id, p.seed_hash),
        p.entries,
    )
    &&& p.result matches Some(result) && {
        &&& result == sha256_of(key + p.entropy->0 + be_bytes(p.round_id))
        &&& p.winner_indexes == winning_tickets(pool, result, places_drawn(places, pool.len()))
        &&& pool.len() > 0 && places > 0 ==> p.winner_indexes.len() > 0
            && p.winner_indexes[0] == be_value(result.take(16)) % pool.len()
    }
}

/// The proof of a drawn round checks out: with the secret it lists, which the
/// commitment is the hash of; or, for a round drawn without one, with the
/// commitment itself. Returned is the fold by which its entropy rechecks: the
/// hash of the round's id, in eight bytes, and its commitment; then, with each
/// entry it lists, the hash of what was there, followed by all the bytes of the
/// entry's minter and all the bytes of its entropy, however long.
#[verifier::rlimit(60)]
pub proof fn law_a_drawn_round_can_be_rechecked(
    s: StateView,
    call: Call,
    after: StateView,
    response: ResponseView,
    id: u64,
    round: RoundView,
) -> (acc: Seq<Seq<u8>>)
    requires
        s.wf(),
        has_room(s, call.msg),
        goes(s, call, after, response),
        settles(call.msg) == Some(id),
        find(after.rounds, id) == Some(round),
        round.status == RoundStatus::Drawn,
    ensures
        proof_told(after, id) matches Ok(p) && {
            &&& p.winners == round.winners
            &&& match p.secret {
                Some(secret) => sha256_of(secret) == p.seed_hash && checks_out(
                    p,
                    secret,
                    basis_of(s, call, id).terms.payout_bps.len(),
                ),
                None => checks_out(
                    p,
                    p.seed_hash,
                    basis_of(s, call, id).terms.payout_bps.len(),
                ),
            }
            &&& p.secret is Some <==> call.msg is ExecuteDraw
            &&& acc.len() == p.entries.len() + 1
            &&& acc[0] == sha256_of(be_bytes(id) + p.seed_hash)
            &&& forall|i: int|
                0 <= i < p.entries.len() ==> #[trigger] acc[i + 1] == sha256_of(
                    acc[i] + encode_utf8(p.entries[i].1.minter) + p.entries[i].1.entropy,
                )
            &&& p.entropy == Some(acc[p.entries.len() as int])
            &&& p.result == Some(
                sha256_of(
                    (match p.secret {
                        Some(secret) => secret,
                        None => p.seed_hash,
                    }) + acc[p.entries.len() as int] + be_bytes(id),
                ),
            )
        },
{
    lemma_settlement(s, call, after, response, id);
    lemma_put(s.rounds, id, record_of(s, call, id));
    lemma_start_of(s, id);
    let b: Basis = basis_of(s, call, id);
    lemma_consumed(s, b.first, b.round.close_time);
    lemma_boundary(s.entries, b.first, b.round.close_time);
    lemma_tickets_bound(b.rows);
    assert(b.rows.len() * u32::MAX <= MAX_SCAN * u32::MAX) by (nonlinear_arith)
        requires
            b.rows.len() <= MAX_SCAN,
    ;
    let pool: EntryRows = tickets(b.rows);
    let shares: nat = b.terms.payout_bps.len();
    let key: Seq<u8> = key_of(call.msg, b.round);
    if pool.len() > 0 && shares > 0 {
        law_first_place_is_the_result(
            pool,
            b.result(id, key),
            places_drawn(shares, pool.len()),
        );
    }
    assert(consumed(after, round) == b.rows);
    let told: ProofResponseView = proof_told(after, id)->Ok_0;
    assert(checks_out(told, key, shares));
    lemma_fold(id, b.round.seed_hash, b.rows)
}

/// The proof of a settled round never changes, whatever is called afterwards.
pub proof fn law_the_proof_of_a_settled_round_stays(
    s: StateView,
    call: Call,
    after: StateView,
    response: ResponseView,
    id: u64,
)
    requires
        s.wf(),
        has_room(s, call.msg),
        goes(s, call, after, response),
        id < s.next_unsettled_id,
    ensures
        proof_told(after, id) == proof_told(s, id),
{
    law_settled_rounds_are_never_changed(s, call, after, response, id);
    law_entries_are_never_changed(s, call, after, response);
    law_calls_keep_the_pool_in_order(s, call, after, response);
    if let Some(round) = find(s.rounds, id) {
        let k: int = lemma_find_some(s.rounds, id);
        assert(s.round_ok(s.rounds[k].0, s.rounds[k].1));
        let first: u64 = round.first_entry_id->0;
        let last: u64 = round.last_entry_id->0;
        lemma_same_between(s.entries, after.entries, s.next_entry_id, first, last);
    }
}

/// Entries that come later do not come between.
proof fn lemma_same_between(
    before: EntryRows,
    after: EntryRows,
    next_entry_id: u64,
    first: u64,
    last: u64,
)
    requires
        ascending(before),
        ascending(after),
        before.len() <= after.len(),
        after.take(before.len() as int) == before,
        last < next_entry_id,
        forall|i: int|
            before.len() <= i < after.len() ==> next_entry_id <= (#[trigger] after[i]).0,
    ensures
        rows_between(after, first as int, last as int) == rows_between(
            before,
            first as int,
            last as int,
        ),
{
    if first <= last {
        assert forall|j: int| 0 <= j < before.len() implies #[trigger] after[j] == before[j] by {
            assert(after.take(before.len() as int)[j] == after[j]);
        }
        let p: int = position(before, first as int);
        let q: int = position(before, last + 1);
        lemma_position(before, first as int);
        lemma_position(before, last + 1);
        lemma_position_is(after, first as int, p);
        lemma_position_is(after, last + 1, q);
        assert(after.subrange(p, q) =~= before.subrange(p, q));
    }
}

/// The round that takes entries is the first, from the next to be settled on,
/// that has not closed; every one before it has. If all have, the last is told.
pub proof fn law_the_current_round_is_the_first_open_one(s: StateView, now: u64)
    requires
        s.wf(),
    ensures
        match taking_entries(s, now) {
            Some((id, round)) => {
                &&& find(s.rounds, id) == Some(round)
                &&& s.next_unsettled_id <= id <= s.last_round_id
                &&& now < round.close_time
                &&& forall|other: u64|
                    s.next_unsettled_id <= other < id ==> (#[trigger] find(s.rounds, other) matches
                        Some(r) ==> now >= r.close_time)
                &&& current_told(s, now) == round_told(s, now, id)
            },
            None => {
                &&& forall|other: u64|
                    s.next_unsettled_id <= other ==> (#[trigger] find(s.rounds, other) matches Some(
                        r,
                    ) ==> now >= r.close_time)
                &&& current_told(s, now) == round_told(s, now, s.last_round_id)
            },
        },
{
    let p: int = position(s.rounds, s.next_unsettled_id as int);
    lemma_position(s.rounds, s.next_unsettled_id as int);
    lemma_first_open(s.rounds, now, p);
    match taking_entries(s, now) {
        Some((id, round)) => {
            let k: int = choose|k: int|
                p <= k < s.rounds.len() && s.rounds[k] == (id, round) && closed_between(
                    s.rounds,
                    now,
                    p,
                    k,
                );
            lemma_find_row(s.rounds, k);
            assert(s.round_ok(s.rounds[k].0, s.rounds[k].1));
            assert forall|other: u64| s.next_unsettled_id <= other < id implies (#[trigger] find(
                s.rounds,
                other,
            ) matches Some(r) ==> now >= r.close_time) by {
                if find(s.rounds, other) is Some {
                    let m: int = lemma_find_some(s.rounds, other);
                    if m >= k {
                        if m > k {
                            assert(s.rounds[k].0 < s.rounds[m].0);
                        }
                    } else if m < p {
                        assert(s.rounds[m].0 < s.next_unsettled_id);
                    }
                }
            }
        },
        None => {
            assert forall|other: u64| s.next_unsettled_id <= other implies (#[trigger] find(
                s.rounds,
                other,
            ) matches Some(r) ==> now >= r.close_time) by {
                if find(s.rounds, other) is Some {
                    let m: int = lemma_find_some(s.rounds, other);
                    if m < p {
                        assert(s.rounds[m].0 < s.next_unsettled_id);
                    }
                }
            }
        },
    }
}

/// The rounds in places `from` to `to` have closed.
spec fn closed_between(rounds: Seq<(u64, RoundView)>, now: u64, from: int, to: int) -> bool {
    forall|k: int| from <= k < to ==> now >= (#[trigger] rounds[k]).1.close_time
}

proof fn lemma_first_open(rounds: Seq<(u64, RoundView)>, now: u64, i: int)
    requires
        0 <= i <= rounds.len(),
    ensures
        match first_open(rounds, now, i) {
            Some(row) => now < row.1.close_time && exists|k: int|
                i <= k < rounds.len() && rounds[k] == row && #[trigger] closed_between(
                    rounds,
                    now,
                    i,
                    k,
                ),
            None => closed_between(rounds, now, i, rounds.len() as int),
        },
    decreases rounds.len() - i,
{
    if i < rounds.len() {
        if now < rounds[i].1.close_time {
            assert(closed_between(rounds, now, i, i));
        } else {
            lemma_first_open(rounds, now, i + 1);
            if let Some(row) = first_open(rounds, now, i + 1) {
                let k: int = choose|k: int|
                    i + 1 <= k < rounds.len() && rounds[k] == row && #[trigger] closed_between(
                        rounds,
                        now,
                        i + 1,
                        k,
                    );
                assert(closed_between(rounds, now, i, k));
            }
        }
    }
}

/// Pages come one behind the other: a page and the one that starts after its
/// last row are the rows in order, with none left out and none twice.
pub proof fn law_pages_join<V>(
    rows: Seq<(u64, V)>,
    start_after: Option<u64>,
    limit: Option<u32>,
)
    requires
        ascending(rows),
        page(rows, start_after, limit).len() > 0,
    ensures
        ({
            let one: Seq<(u64, V)> = page(rows, start_after, limit);
            let two: Seq<(u64, V)> = page(rows, Some(one.last().0), limit);
            one + two == first_rows(
                match start_after {
                    Some(id) => rows_from(rows, id + 1),
                    None => rows,
                },
                2 * page_size(limit),
            )
        }),
{
    let one: Seq<(u64, V)> = page(rows, start_after, limit);
    let start: int = match start_after {
        Some(id) => position(rows, id + 1),
        None => 0,
    };
    if let Some(id) = start_after {
        lemma_position(rows, id + 1);
    }
    let end: int = start + one.len();
    assert(one.last() == rows[end - 1]);
    assert forall|j: int| 0 <= j < end implies (#[trigger] rows[j]).0 < rows[end - 1].0 + 1 by {
        if j < end - 1 {
            assert(rows[j].0 < rows[end - 1].0);
        }
    }
    if end < rows.len() {
        assert(rows[end - 1].0 < rows[end].0);
    }
    lemma_position_is(rows, rows[end - 1].0 + 1, end);
    let two: Seq<(u64, V)> = page(rows, Some(one.last().0), limit);
    let tail: Seq<(u64, V)> = rows.skip(start);
    assert(rows.skip(0) =~= rows);
    assert(one + two =~= first_rows(tail, 2 * page_size(limit)));
}

} // verus!
