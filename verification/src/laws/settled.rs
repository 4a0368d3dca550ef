//! What a settlement leaves, sends and says, told from what was recorded.

use vstd::prelude::*;
use vstd::utf8::encode_utf8;

use crate::ask::tokens_in;
use crate::bytes::be_bytes;
use crate::digest::{base64_of, sha256_of};
use crate::draw::{
    covered, entropy_over, entropy_seed, lemma_tickets_bound, money, tickets, winning_tickets,
    EntryRows, MAX_SCAN,
};
use crate::error::ContractErrorView;
use crate::laws::calls::{
    basis_of, goes, lemma_settlement, outcome_of, record_of, settles, winners_of, Call,
};
use crate::laws::rounds::lemma_winners_fit;
use crate::msg::{BankSendView, Env, ExecuteMsgView, ResponseView};
use crate::rules::{
    basis, decimals, lemma_boundary, lemma_draw_sends, lemma_last_id, lemma_share,
    lemma_share_sum_bound, lemma_start_of, lemma_terms_fair, payees, prizes, sent, settleable,
    start_of, Basis,
};
use crate::settle::tokens_of;
use crate::state::{share_sum, RoundStatus, RoundTermsView, RoundView, StateView, WHOLE_BPS};
use crate::table::{find, lemma_find_some, lemma_position_is, lemma_put, rows_from};
use crate::text::{comma_joined, decimal};

verus! {

/// The terms of a round: those it opened with, or the configuration's.
pub open spec fn terms_for(s: StateView, round: RoundView) -> RoundTermsView {
    match round.terms {
        Some(terms) => terms,
        None => RoundTermsView {
            treasury_bps: s.config.treasury_bps,
            payout_bps: s.config.payout_bps,
            caller_bps: s.config.caller_bps,
            min_entries: s.config.min_entries,
            min_pot: s.config.min_pot,
            stale_after_secs: s.config.stale_after_secs,
        },
    }
}

/// The round starts at entry `first`: at entry 1 if it is the first round, else
/// behind the last entry of the round before it.
pub open spec fn starts_at(s: StateView, id: u64, first: int) -> bool {
    if id <= 1 {
        first == 1
    } else {
        find(s.rounds, (id - 1) as u64) matches Some(previous) && previous.last_entry_id matches Some(
            last,
        ) && first == last + 1
    }
}

/// The lesser of two amounts.
pub open spec fn lesser(a: int, b: int) -> int {
    if a <= b {
        a
    } else {
        b
    }
}

/// There are tickets and money enough for the terms. The money is that of the
/// entries and the carry, as far as the balance covers it.
pub open spec fn is_enough(
    terms: RoundTermsView,
    rows: EntryRows,
    carry: u128,
    balance: u128,
) -> bool {
    &&& tickets(rows).len() >= terms.min_entries
    &&& lesser(money(rows) + carry, balance as int) >= terms.min_pot
}

/// Where a round starts that is about to be settled.
proof fn lemma_starts(s: StateView, id: u64, first: int)
    requires
        s.wf(),
        starts_at(s, id, first),
    ensures
        start_of(s, id) == Ok::<_, ContractErrorView>(first as u64),
        1 <= first <= s.next_entry_id,
{
    if id > 1 {
        let k: int = lemma_find_some(s.rounds, (id - 1) as u64);
        assert(s.round_ok(s.rounds[k].0, s.rounds[k].1));
    }
}

/// A settled round is drawn if and only if it has the tickets and the money its
/// terms ask for. Otherwise a call that draws skips it; and only then can it be
/// rolled over.
pub proof fn law_a_round_is_drawn_if_there_is_enough(
    s: StateView,
    call: Call,
    after: StateView,
    response: ResponseView,
    id: u64,
    round: RoundView,
    first: int,
)
    requires
        s.wf(),
        goes(s, call, after, response),
        settles(call.msg) == Some(id),
        find(s.rounds, id) == Some(round),
        starts_at(s, id, first),
    ensures
        ({
            let rows: EntryRows = covered(s.entries, first as u64, round.close_time);
            let enough: bool = is_enough(
                terms_for(s, round),
                rows,
                s.carry,
                call.env.balance,
            );
            &&& find(after.rounds, id) is Some
            &&& find(after.rounds, id)->0.status == if enough {
                RoundStatus::Drawn
            } else if call.msg is RolloverRound {
                RoundStatus::RolledOver
            } else {
                RoundStatus::Skipped
            }
            &&& call.msg is RolloverRound ==> !enough
        }),
{
    lemma_starts(s, id, first);
    lemma_settlement(s, call, after, response, id);
    lemma_put(s.rounds, id, record_of(s, call, id));
}

/// The entropy, entry by entry: the hash of the round's id and commitment first,
/// and with each entry the hash of what was there, of all of its minter's bytes
/// and of all the bytes of its entropy.
pub open spec fn folds(acc: Seq<Seq<u8>>, id: u64, seed_hash: Seq<u8>, rows: EntryRows) -> bool {
    &&& acc.len() == rows.len() + 1
    &&& acc[0] == sha256_of(be_bytes(id) + seed_hash)
    &&& forall|i: int|
        0 <= i < rows.len() ==> #[trigger] acc[i + 1] == sha256_of(
            acc[i] + encode_utf8(rows[i].1.minter) + rows[i].1.entropy,
        )
}

/// The entropy of a round is the end of such a fold.
pub proof fn lemma_fold(id: u64, seed_hash: Seq<u8>, rows: EntryRows) -> (acc: Seq<Seq<u8>>)
    ensures
        folds(acc, id, seed_hash, rows),
        acc.last() == entropy_over(entropy_seed(id, seed_hash), rows),
    decreases rows.len(),
{
    if rows.len() == 0 {
        seq![entropy_seed(id, seed_hash)]
    } else {
        let shorter: Seq<Seq<u8>> = lemma_fold(id, seed_hash, rows.drop_last());
        let acc: Seq<Seq<u8>> = shorter.push(
            entropy_over(entropy_seed(id, seed_hash), rows),
        );
        assert forall|i: int| 0 <= i < rows.len() implies #[trigger] acc[i + 1] == sha256_of(
            acc[i] + encode_utf8(rows[i].1.minter) + rows[i].1.entropy,
        ) by {
            assert(acc[i] == shorter[i]);
            if i < rows.len() - 1 {
                assert(acc[i + 1] == shorter[i + 1]);
                assert(rows.drop_last()[i] == rows[i]);
            }
        }
        acc
    }
}

/// Whether some of the entries are older than a time.
pub open spec fn some_older(rows: EntryRows, time: u64) -> bool {
    exists|i: int| 0 <= i < rows.len() && (#[trigger] rows[i]).1.recorded_at < time
}

/// The record of a drawn round, whole. What was known of the round stays; its
/// entropy is folded over its entries, its result is the hash of the key, the
/// entropy and its id, and its winners are those the result picks for as many
/// places as there are shares, or tickets if there are fewer. Returned is the
/// fold.
#[verifier::rlimit(60)]
pub proof fn law_the_record_of_a_draw(
    s: StateView,
    call: Call,
    after: StateView,
    response: ResponseView,
    id: u64,
    round: RoundView,
    first: int,
) -> (acc: Seq<Seq<u8>>)
    requires
        s.wf(),
        goes(s, call, after, response),
        settles(call.msg) == Some(id),
        find(s.rounds, id) == Some(round),
        starts_at(s, id, first),
        find(after.rounds, id) matches Some(r) && r.status == RoundStatus::Drawn,
    ensures
        ({
            let rows: EntryRows = covered(s.entries, first as u64, round.close_time);
            let r: RoundView = find(after.rounds, id)->0;
            let key: Seq<u8> = match call.msg {
                ExecuteMsgView::ExecuteDraw { round_id, secret } => secret,
                _ => round.seed_hash,
            };
            let total: int = tickets(rows).len() as int;
            let places: int = lesser(terms_for(s, round).payout_bps.len() as int, total);
            let result: Seq<u8> = sha256_of(key + acc.last() + be_bytes(id));
            &&& folds(acc, id, round.seed_hash, rows)
            &&& r.seed_hash == round.seed_hash
            &&& r.opened_at == round.opened_at
            &&& r.close_time == round.close_time
            &&& r.terms == round.terms
            &&& r.first_entry_id == Some(first as u64)
            &&& r.last_entry_id == Some(
                if rows.len() > 0 {
                    rows.last().0
                } else {
                    (first - 1) as u64
                },
            )
            &&& r.secret == match call.msg {
                ExecuteMsgView::ExecuteDraw { round_id, secret } => Some(secret),
                _ => None,
            }
            &&& r.entropy == Some(acc.last())
            &&& r.result == Some(result)
            &&& r.total_entries is Some
            &&& r.total_entries->0 == total
            &&& r.winner_indexes == winning_tickets(tickets(rows), result, places as nat)
            &&& payees(tickets(rows), r.winner_indexes, call.owners) is Ok
            &&& r.winners == payees(tickets(rows), r.winner_indexes, call.owners)->Ok_0
            &&& r.pot is Some
            &&& r.pot->0 == lesser(money(rows) + s.carry, call.env.balance as int)
            &&& r.settled_at == Some(call.env.time)
            &&& r.has_late_entries == some_older(rows, round.opened_at)
        }),
{
    lemma_starts(s, id, first);
    lemma_settlement(s, call, after, response, id);
    lemma_put(s.rounds, id, record_of(s, call, id));
    let rows: EntryRows = covered(s.entries, first as u64, round.close_time);
    lemma_total(s, first as u64, round.close_time);
    lemma_fold(id, round.seed_hash, rows)
}

/// The tickets of a round can be counted.
proof fn lemma_total(s: StateView, first: u64, close_time: u64)
    requires
        s.wf(),
        first >= 1,
    ensures
        tickets(covered(s.entries, first, close_time)).len() <= u64::MAX,
{
    let rows: EntryRows = covered(s.entries, first, close_time);
    lemma_boundary(s.entries, first, close_time);
    lemma_tickets_bound(rows);
    assert(rows.len() * u32::MAX <= MAX_SCAN * u32::MAX) by (nonlinear_arith)
        requires
            rows.len() <= MAX_SCAN,
    ;
}

/// The record of a round that is not drawn, whole. It ends before it starts. A
/// skipped one still says what its entries came to; of one that is rolled over
/// nothing was looked at. Returned is the fold.
#[verifier::rlimit(60)]
pub proof fn law_the_record_of_a_skip(
    s: StateView,
    call: Call,
    after: StateView,
    response: ResponseView,
    id: u64,
    round: RoundView,
    first: int,
) -> (acc: Seq<Seq<u8>>)
    requires
        s.wf(),
        goes(s, call, after, response),
        settles(call.msg) == Some(id),
        find(s.rounds, id) == Some(round),
        starts_at(s, id, first),
        find(after.rounds, id) matches Some(r) && r.status != RoundStatus::Drawn,
    ensures
        ({
            let rows: EntryRows = covered(s.entries, first as u64, round.close_time);
            let r: RoundView = find(after.rounds, id)->0;
            let looked: bool = !(call.msg is RolloverRound);
            &&& folds(acc, id, round.seed_hash, rows)
            &&& r.seed_hash == round.seed_hash
            &&& r.opened_at == round.opened_at
            &&& r.close_time == round.close_time
            &&& r.terms == round.terms
            &&& r.first_entry_id == Some(first as u64)
            &&& r.last_entry_id == Some((first - 1) as u64)
            &&& r.secret == match call.msg {
                ExecuteMsgView::ExecuteDraw { round_id, secret } => Some(secret),
                _ => None,
            }
            &&& looked ==> {
                &&& r.entropy == Some(acc.last())
                &&& r.total_entries is Some
                &&& r.total_entries->0 == tickets(rows).len()
                &&& r.has_late_entries == some_older(rows, round.opened_at)
            }
            &&& !looked ==> r.entropy is None && r.total_entries is None && !r.has_late_entries
            &&& r.result is None
            &&& r.winner_indexes.len() == 0
            &&& r.winners.len() == 0
            &&& r.pot is None
            &&& r.settled_at == Some(call.env.time)
        }),
{
    lemma_starts(s, id, first);
    lemma_settlement(s, call, after, response, id);
    lemma_put(s.rounds, id, record_of(s, call, id));
    let k: int = lemma_find_some(s.rounds, id);
    assert(s.round_ok(s.rounds[k].0, s.rounds[k].1));
    let rows: EntryRows = covered(s.entries, first as u64, round.close_time);
    lemma_total(s, first as u64, round.close_time);
    lemma_fold(id, round.seed_hash, rows)
}

/// A settlement leaves all else as it was: it moves on by one round, and the
/// carry becomes what the pool holds beyond what was sent and what the entries
/// brought that the round did not consume.
#[verifier::rlimit(60)]
pub proof fn law_what_a_settlement_leaves(
    s: StateView,
    call: Call,
    after: StateView,
    response: ResponseView,
    id: u64,
    round: RoundView,
)
    requires
        s.wf(),
        goes(s, call, after, response),
        settles(call.msg) == Some(id),
        id < u64::MAX,
        find(after.rounds, id) == Some(round),
    ensures
        id == s.next_unsettled_id,
        after.next_unsettled_id == id + 1,
        after.config == s.config,
        after.entries == s.entries,
        after.next_entry_id == s.next_entry_id,
        after.last_round_id == s.last_round_id,
        after.rounds.len() == s.rounds.len(),
        forall|other: u64|
            other != id ==> #[trigger] find(after.rounds, other) == find(s.rounds, other),
        round.last_entry_id is Some,
        ({
            let waiting: nat = money(rows_from(s.entries, round.last_entry_id->0 + 1));
            let left: int = call.env.balance - sent(response.messages);
            &&& left >= 0
            &&& after.carry == if left >= waiting {
                left - waiting
            } else {
                0
            }
        }),
{
    lemma_settlement(s, call, after, response, id);
    lemma_put(s.rounds, id, record_of(s, call, id));
    let k: int = lemma_find_some(s.rounds, id);
    lemma_position_is(s.rounds, id as int, k);
    lemma_start_of(s, id);
    lemma_winners_fit(s, call, id);
    lemma_terms_fair(s, id);
    let b: Basis = basis_of(s, call, id);
    lemma_last_id(s, b.first, b.round.close_time);
    if b.runs() {
        lemma_draw_sends(s.config, b.terms, b.pot, winners_of(s, call, id)->Ok_0, call.sender);
    }
}

/// What a place pays: its ten-thousandths of the pot, rounded down.
pub open spec fn due(pot: u128, bps: u64) -> int {
    (pot as int) * (bps as int) / 10_000
}

/// How many of the first `n` places are paid something.
pub open spec fn paid_places(pot: u128, shares: Seq<u64>, n: nat) -> nat
    decreases n,
{
    if n == 0 {
        0
    } else {
        paid_places(pot, shares, (n - 1) as nat) + if due(pot, shares[n - 1]) > 0 {
            1nat
        } else {
            0nat
        }
    }
}

proof fn lemma_prize_places(to: Seq<Seq<char>>, shares: Seq<u64>, pot: u128, denom: Seq<char>)
    requires
        to.len() <= shares.len(),
        share_sum(shares) <= WHOLE_BPS,
    ensures
        prizes(to, shares, pot, denom).len() == paid_places(pot, shares, to.len()),
        forall|i: int|
            0 <= i < to.len() && due(pot, shares[i]) > 0 ==> {
                &&& paid_places(pot, shares, i as nat) < prizes(to, shares, pot, denom).len()
                &&& prizes(to, shares, pot, denom)[paid_places(pot, shares, i as nat) as int] == (
                BankSendView {
                    to_address: #[trigger] to[i],
                    amount: due(pot, shares[i]) as u128,
                    denom,
                })
            },
    decreases to.len(),
{
    if to.len() > 0 {
        let n: int = to.len() - 1;
        let shorter: Seq<Seq<char>> = to.drop_last();
        let before: Seq<BankSendView> = prizes(shorter, shares, pot, denom);
        let all: Seq<BankSendView> = prizes(to, shares, pot, denom);
        lemma_prize_places(shorter, shares, pot, denom);
        lemma_share_sum_bound(shares, n);
        lemma_share(pot, shares[n]);
        assert forall|i: int| 0 <= i < to.len() && due(pot, shares[i]) > 0 implies {
            &&& paid_places(pot, shares, i as nat) < all.len()
            &&& all[paid_places(pot, shares, i as nat) as int] == (BankSendView {
                to_address: #[trigger] to[i],
                amount: due(pot, shares[i]) as u128,
                denom,
            })
        } by {
            if i < n {
                assert(shorter[i] == to[i]);
            }
        }
    }
}

/// All that a draw sends, message by message. The winner of each place whose
/// share is something is sent that share, in the order of the places; then
/// the treasury and the caller are sent theirs. A share that is nothing is not
/// sent.
#[verifier::rlimit(60)]
pub proof fn law_what_a_draw_sends(
    s: StateView,
    call: Call,
    after: StateView,
    response: ResponseView,
    id: u64,
    round: RoundView,
)
    requires
        s.wf(),
        goes(s, call, after, response),
        settles(call.msg) == Some(id),
        find(after.rounds, id) == Some(round),
        round.status == RoundStatus::Drawn,
    ensures
        round.pot is Some,
        round.winners.len() <= terms_for(s, round).payout_bps.len(),
        ({
            let terms: RoundTermsView = terms_for(s, round);
            let pot: u128 = round.pot->0;
            let w: Seq<Seq<char>> = round.winners;
            let messages: Seq<BankSendView> = response.messages;
            let prizes: int = paid_places(pot, terms.payout_bps, w.len()) as int;
            let to_treasury: int = due(pot, terms.treasury_bps);
            let to_caller: int = due(pot, terms.caller_bps);
            let then: int = prizes + if to_treasury > 0 {
                1int
            } else {
                0int
            };
            &&& forall|i: int|
                0 <= i < w.len() && due(pot, terms.payout_bps[i]) > 0 ==> messages[paid_places(
                    pot,
                    terms.payout_bps,
                    i as nat,
                ) as int] == (BankSendView {
                    to_address: #[trigger] w[i],
                    amount: due(pot, terms.payout_bps[i]) as u128,
                    denom: s.config.denom,
                })
            &&& to_treasury > 0 ==> messages[prizes] == (BankSendView {
                to_address: s.config.treasury,
                amount: to_treasury as u128,
                denom: s.config.denom,
            })
            &&& to_caller > 0 ==> messages[then] == (BankSendView {
                to_address: call.sender,
                amount: to_caller as u128,
                denom: s.config.denom,
            })
            &&& messages.len() == then + if to_caller > 0 {
                1int
            } else {
                0int
            }
        }),
{
    lemma_settlement(s, call, after, response, id);
    lemma_put(s.rounds, id, record_of(s, call, id));
    lemma_winners_fit(s, call, id);
    lemma_terms_fair(s, id);
    let b: Basis = basis_of(s, call, id);
    let w: Seq<Seq<char>> = winners_of(s, call, id)->Ok_0;
    lemma_prize_places(w, b.terms.payout_bps, b.pot, s.config.denom);
    lemma_share(b.pot, b.terms.treasury_bps);
    lemma_share(b.pot, b.terms.caller_bps);
    let list: Seq<BankSendView> = prizes(w, b.terms.payout_bps, b.pot, s.config.denom);
    assert forall|i: int|
        0 <= i < w.len() && due(b.pot, b.terms.payout_bps[i]) > 0 implies response.messages[paid_places(
        b.pot,
        b.terms.payout_bps,
        i as nat,
    ) as int] == (BankSendView {
        to_address: #[trigger] w[i],
        amount: due(b.pot, b.terms.payout_bps[i]) as u128,
        denom: s.config.denom,
    }) by {
        let k: int = paid_places(b.pot, b.terms.payout_bps, i as nat) as int;
        assert(response.messages[k] == list[k]);
    }
}

proof fn lemma_all_paid(pot: u128, shares: Seq<u64>, n: nat)
    requires
        n <= shares.len(),
        forall|i: int| 0 <= i < n ==> due(pot, #[trigger] shares[i]) > 0,
    ensures
        paid_places(pot, shares, n) == n,
    decreases n,
{
    if n > 0 {
        lemma_all_paid(pot, shares, (n - 1) as nat);
    }
}

/// Where every share is something, message `i` pays the winner of place `i` the
/// share of place `i`; the treasury's share follows, and the caller's is last.
#[verifier::rlimit(60)]
pub proof fn law_each_place_is_paid_its_share(
    s: StateView,
    call: Call,
    after: StateView,
    response: ResponseView,
    id: u64,
    round: RoundView,
)
    requires
        s.wf(),
        goes(s, call, after, response),
        settles(call.msg) == Some(id),
        find(after.rounds, id) == Some(round),
        round.status == RoundStatus::Drawn,
        round.pot matches Some(pot) && {
            &&& forall|i: int|
                0 <= i < round.winners.len() ==> due(
                    pot,
                    #[trigger] terms_for(s, round).payout_bps[i],
                ) > 0
            &&& due(pot, terms_for(s, round).treasury_bps) > 0
            &&& due(pot, terms_for(s, round).caller_bps) > 0
        },
    ensures
        ({
            let terms: RoundTermsView = terms_for(s, round);
            let pot: int = round.pot->0 as int;
            let n: int = round.winners.len() as int;
            let messages: Seq<BankSendView> = response.messages;
            &&& messages.len() == n + 2
            &&& forall|i: int|
                0 <= i < n ==> {
                    &&& (#[trigger] messages[i]).to_address == round.winners[i]
                    &&& messages[i].amount == pot * terms.payout_bps[i] / 10_000
                    &&& messages[i].denom == s.config.denom
                }
            &&& messages[n].to_address == s.config.treasury
            &&& messages[n].amount == pot * terms.treasury_bps / 10_000
            &&& messages[n].denom == s.config.denom
            &&& messages[n + 1].to_address == call.sender
            &&& messages[n + 1].amount == pot * terms.caller_bps / 10_000
            &&& messages[n + 1].denom == s.config.denom
        }),
{
    law_what_a_draw_sends(s, call, after, response, id, round);
    let terms: RoundTermsView = terms_for(s, round);
    let pot: u128 = round.pot->0;
    let w: Seq<Seq<char>> = round.winners;
    lemma_settlement(s, call, after, response, id);
    lemma_put(s.rounds, id, record_of(s, call, id));
    lemma_terms_fair(s, id);
    lemma_all_paid(pot, terms.payout_bps, w.len());
    lemma_share(pot, terms.treasury_bps);
    lemma_share(pot, terms.caller_bps);
    assert forall|i: int| 0 <= i < w.len() implies {
        &&& (#[trigger] response.messages[i]).to_address == round.winners[i]
        &&& response.messages[i].amount == (pot as int) * terms.payout_bps[i] / 10_000
        &&& response.messages[i].denom == s.config.denom
    } by {
        assert(terms.payout_bps[i] == terms.payout_bps[i]);
        lemma_all_paid(pot, terms.payout_bps, i as nat);
        lemma_share_sum_bound(terms.payout_bps, i);
        lemma_share(pot, terms.payout_bps[i]);
        assert(w[i] == round.winners[i]);
    }
}

/// A round that is not next, is not there or has not closed is not settled, and
/// the refusal says which of these it is.
pub proof fn law_when_it_is_too_early_or_too_late_to_settle(s: StateView, call: Call, id: u64)
    requires
        settles(call.msg) == Some(id),
    ensures
        id < s.next_unsettled_id ==> outcome_of(s, call) == Err::<(StateView, ResponseView), _>(
            ContractErrorView::AlreadySettled { round_id: id },
        ),
        id > s.next_unsettled_id ==> outcome_of(s, call) == Err::<(StateView, ResponseView), _>(
            ContractErrorView::OutOfOrder { expected: s.next_unsettled_id },
        ),
        id == s.next_unsettled_id && find(s.rounds, id) is None ==> outcome_of(s, call) == Err::<
            (StateView, ResponseView),
            _,
        >(ContractErrorView::RoundNotFound { round_id: id }),
        id == s.next_unsettled_id && (find(s.rounds, id) matches Some(round) && call.env.time
            < round.close_time) ==> outcome_of(s, call) == Err::<(StateView, ResponseView), _>(
            ContractErrorView::NotClosed { round_id: id },
        ),
{
}

/// Whether the next round, once closed, is settled. The secret must hash to the
/// commitment, or its reveal must be overdue by the terms; the round before it
/// must be there; what can be drawn is not rolled over; and what is drawn needs
/// owners for the tokens that win. Nothing else stands in the way. Returned is
/// the fold of the entropy.
#[verifier::rlimit(60)]
pub proof fn law_when_a_closed_round_is_settled(
    s: StateView,
    call: Call,
    id: u64,
    round: RoundView,
    first: int,
) -> (acc: Seq<Seq<u8>>)
    requires
        s.wf(),
        settles(call.msg) == Some(id),
        id == s.next_unsettled_id,
        find(s.rounds, id) == Some(round),
        call.env.time >= round.close_time,
        starts_at(s, id, first),
    ensures
        ({
            let terms: RoundTermsView = terms_for(s, round);
            let rows: EntryRows = covered(s.entries, first as u64, round.close_time);
            let enough: bool = is_enough(terms, rows, s.carry, call.env.balance);
            let total: int = tickets(rows).len() as int;
            let places: nat = lesser(terms.payout_bps.len() as int, total) as nat;
            let overdue: bool = call.env.time >= round.close_time + terms.stale_after_secs
                * 1_000_000_000;
            let late: Result<(StateView, ResponseView), ContractErrorView> = Err(
                ContractErrorView::NotStale { round_id: id, secs: terms.stale_after_secs },
            );
            let key: Seq<u8> = match call.msg {
                ExecuteMsgView::ExecuteDraw { round_id, secret } => secret,
                _ => round.seed_hash,
            };
            let chosen: Seq<u64> = winning_tickets(
                tickets(rows),
                sha256_of(key + acc.last() + be_bytes(id)),
                places,
            );
            &&& folds(acc, id, round.seed_hash, rows)
            &&& match call.msg {
                ExecuteMsgView::ExecuteDraw { round_id, secret } => if sha256_of(secret)
                    != round.seed_hash {
                    outcome_of(s, call) == Err::<(StateView, ResponseView), _>(
                        ContractErrorView::SecretMismatch,
                    )
                } else if !enough {
                    outcome_of(s, call) is Ok
                } else {
                    match payees(tickets(rows), chosen, call.owners) {
                        Ok(list) => outcome_of(s, call) is Ok,
                        Err(e) => outcome_of(s, call) == Err::<(StateView, ResponseView), _>(
                            ContractErrorView::Std(e),
                        ),
                    }
                },
                ExecuteMsgView::RolloverRound { round_id } => if !overdue {
                    outcome_of(s, call) == late
                } else if enough {
                    outcome_of(s, call) == Err::<(StateView, ResponseView), _>(
                        ContractErrorView::RoundIsDrawable { round_id: id },
                    )
                } else {
                    outcome_of(s, call) is Ok
                },
                _ => if !overdue {
                    outcome_of(s, call) == late
                } else if !enough {
                    outcome_of(s, call) is Ok
                } else {
                    match payees(tickets(rows), chosen, call.owners) {
                        Ok(list) => outcome_of(s, call) is Ok,
                        Err(e) => outcome_of(s, call) == Err::<(StateView, ResponseView), _>(
                            ContractErrorView::Std(e),
                        ),
                    }
                },
            }
        }),
{
    lemma_starts(s, id, first);
    let rows: EntryRows = covered(s.entries, first as u64, round.close_time);
    let acc: Seq<Seq<u8>> = lemma_fold(id, round.seed_hash, rows);
    let b: Basis = basis(s, call.env.balance, id, round, first as u64);
    assert(b.entropy == acc.last());
    assert(settleable(s, call.env.time, id) == Ok::<_, ContractErrorView>(round));
    assert(b.terms == terms_for(s, round));
    assert(b.runs() == is_enough(b.terms, rows, s.carry, call.env.balance));
    acc
}

/// What a settlement says. A draw tells its round, tickets, pot, payout, result,
/// winning tickets and winners; a skip its round, tickets and pot; a rollover
/// its round.
#[verifier::rlimit(60)]
pub proof fn law_what_a_settlement_says(
    s: StateView,
    call: Call,
    after: StateView,
    response: ResponseView,
    id: u64,
    round: RoundView,
    first: int,
)
    requires
        s.wf(),
        goes(s, call, after, response),
        settles(call.msg) == Some(id),
        find(after.rounds, id) == Some(round),
        starts_at(s, id, first),
    ensures
        ({
            let rows: EntryRows = covered(s.entries, first as u64, round.close_time);
            let pot: int = lesser(money(rows) + s.carry, call.env.balance as int);
            &&& round.status == RoundStatus::Drawn ==> response.attributes == seq![
                (
                    "action"@,
                    if call.msg is ExecuteDraw {
                        "execute_draw"@
                    } else {
                        "settle_stale"@
                    },
                ),
                ("round_id"@, decimal(id as nat)),
                ("entries"@, decimal(tickets(rows).len())),
                ("pot"@, decimal(pot as nat)),
                ("paid"@, decimal(sent(response.messages))),
                ("result"@, base64_of(round.result->0)),
                (
                    "winner_indexes"@,
                    comma_joined(
                        Seq::new(
                            round.winner_indexes.len(),
                            |k: int| decimal(round.winner_indexes[k] as nat),
                        ),
                    ),
                ),
                ("winners"@, comma_joined(round.winners)),
            ]
            &&& round.status == RoundStatus::Skipped ==> response.attributes == seq![
                ("action"@, "skip_round"@),
                ("round_id"@, decimal(id as nat)),
                ("entries"@, decimal(tickets(rows).len())),
                ("pot"@, decimal(pot as nat)),
            ]
            &&& round.status == RoundStatus::RolledOver ==> response.attributes == seq![
                ("action"@, "rollover_round"@),
                ("round_id"@, decimal(id as nat)),
            ]
            &&& round.status != RoundStatus::Drawn ==> response.messages.len() == 0
        }),
{
    lemma_starts(s, id, first);
    lemma_settlement(s, call, after, response, id);
    lemma_put(s.rounds, id, record_of(s, call, id));
    assert(decimals(round.winner_indexes) =~= Seq::new(
        round.winner_indexes.len(),
        |k: int| decimal(round.winner_indexes[k] as nat),
    ));
}

/// A round whose predecessor is not there cannot be told where to start, and is
/// refused with that.
pub proof fn law_a_round_needs_the_one_before(s: StateView, call: Call, id: u64, round: RoundView)
    requires
        settles(call.msg) == Some(id),
        id == s.next_unsettled_id,
        id > 1,
        find(s.rounds, (id - 1) as u64) is None,
        find(s.rounds, id) == Some(round),
        call.env.time >= round.close_time,
        match call.msg {
            ExecuteMsgView::ExecuteDraw { round_id, secret } => sha256_of(secret)
                == round.seed_hash,
            _ => call.env.time >= round.close_time + terms_for(s, round).stale_after_secs
                * 1_000_000_000,
        },
    ensures
        outcome_of(s, call) == Err::<(StateView, ResponseView), _>(
            ContractErrorView::RoundNotFound { round_id: (id - 1) as u64 },
        ),
{
}

/// Which owners are asked for before a settlement: those of the tokens that the
/// draw would pay, in order; and none if the call would be refused first, or
/// the round skipped. Returned is the fold of the entropy.
#[verifier::rlimit(60)]
pub proof fn law_which_owners_are_asked_for(
    s: StateView,
    env: Env,
    msg: ExecuteMsgView,
    id: u64,
    round: RoundView,
    first: int,
) -> (acc: Seq<Seq<u8>>)
    requires
        s.wf(),
        settles(msg) == Some(id),
        !(msg is RolloverRound),
        id == s.next_unsettled_id,
        find(s.rounds, id) == Some(round),
        env.time >= round.close_time,
        starts_at(s, id, first),
    ensures
        ({
            let terms: RoundTermsView = terms_for(s, round);
            let rows: EntryRows = covered(s.entries, first as u64, round.close_time);
            let total: int = tickets(rows).len() as int;
            let key: Seq<u8> = match msg {
                ExecuteMsgView::ExecuteDraw { round_id, secret } => secret,
                _ => round.seed_hash,
            };
            let goes_on: bool = match msg {
                ExecuteMsgView::ExecuteDraw { round_id, secret } => sha256_of(secret)
                    == round.seed_hash,
                _ => env.time >= round.close_time + terms.stale_after_secs * 1_000_000_000,
            };
            &&& folds(acc, id, round.seed_hash, rows)
            &&& tokens_in(s, env, msg) == if goes_on && is_enough(
                terms,
                rows,
                s.carry,
                env.balance,
            ) {
                tokens_of(
                    tickets(rows),
                    winning_tickets(
                        tickets(rows),
                        sha256_of(key + acc.last() + be_bytes(id)),
                        lesser(terms.payout_bps.len() as int, total) as nat,
                    ),
                )
            } else {
                Seq::empty()
            }
        }),
{
    lemma_starts(s, id, first);
    let rows: EntryRows = covered(s.entries, first as u64, round.close_time);
    let acc: Seq<Seq<u8>> = lemma_fold(id, round.seed_hash, rows);
    let b: Basis = basis(s, env.balance, id, round, first as u64);
    assert(b.entropy == acc.last());
    assert(settleable(s, env.time, id) == Ok::<_, ContractErrorView>(round));
    assert(b.terms == terms_for(s, round));
    assert(b.runs() == is_enough(b.terms, rows, s.carry, env.balance));
    acc
}

/// No owner is asked for before a round out of turn, not there or not closed is
/// refused.
pub proof fn law_no_owner_is_asked_for_in_vain(s: StateView, env: Env, msg: ExecuteMsgView, id: u64)
    requires
        settles(msg) == Some(id),
        id != s.next_unsettled_id || (find(s.rounds, id) matches Some(round) ==> env.time
            < round.close_time),
    ensures
        tokens_in(s, env, msg).len() == 0,
{
}

} // verus!
