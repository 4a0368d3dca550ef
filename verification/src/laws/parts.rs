//! What holds of the parts that the rules are put together from: numbers as
//! bytes and text, rows under ids, tickets, money, shares and answers. Each is
//! fixed by how it takes a whole apart.

use vstd::arithmetic::power::{lemma_pow0, pow};
use vstd::prelude::*;

use crate::bytes::{be_bytes, be_value};
use crate::draw::{capped, money, tickets, EntryRows};
use crate::error::StdErrorView;
use crate::msg::{answer_from, answer_to, AnswerView, BankSendView};
use crate::rules::{payees, sent, share};
use crate::settle::tokens_of;
use crate::state::{share_sum, EntryView};
use crate::table::{
    ascending, find, lemma_find_row, lemma_find_some, lemma_position, lemma_position_monotone,
    position, rows_between, rows_from,
};
use crate::text::{comma_joined, decimal};

verus! {

/// A number is its eight bytes, the most significant first.
pub proof fn law_eight_bytes_make_the_number(n: u64)
    ensures
        be_bytes(n).len() == 8,
        n == be_bytes(n)[0] * 0x100_0000_0000_0000 + be_bytes(n)[1] * 0x1_0000_0000_0000
            + be_bytes(n)[2] * 0x100_0000_0000 + be_bytes(n)[3] * 0x1_0000_0000 + be_bytes(n)[4]
            * 0x100_0000 + be_bytes(n)[5] * 0x1_0000 + be_bytes(n)[6] * 0x100 + be_bytes(n)[7],
{
    lemma_last_byte(n as int, 1);
    lemma_last_byte(n as int, 0x100);
    lemma_last_byte(n as int, 0x1_0000);
    lemma_last_byte(n as int, 0x100_0000);
    lemma_last_byte(n as int, 0x1_0000_0000);
    lemma_last_byte(n as int, 0x100_0000_0000);
    lemma_last_byte(n as int, 0x1_0000_0000_0000);
    assert(n as int / 0x100_0000_0000_0000 < 256);
}

/// A quotient is its last byte and 256 times the next quotient.
proof fn lemma_last_byte(n: int, by: int)
    requires
        0 <= n,
        0 < by,
    ensures
        n / by == 256 * (n / (by * 256)) + (n / by) % 256,
        0 <= (n / by) % 256 < 256,
{
    vstd::arithmetic::div_mod::lemma_div_denominator(n, by, 256);
    vstd::arithmetic::div_mod::lemma_fundamental_div_mod(n / by, 256);
}

/// The value of bytes: a byte is itself, and what stands in front counts 256
/// times as much for each byte behind it.
pub proof fn law_bytes_in_front_count_for_more(front: Seq<u8>, behind: Seq<u8>, byte: u8)
    ensures
        be_value(Seq::<u8>::empty()) == 0,
        be_value(seq![byte]) == byte,
        be_value(front + behind) == be_value(front) * pow(256, behind.len()) + be_value(behind),
    decreases behind.len(),
{
    assert(seq![byte].drop_last() =~= Seq::<u8>::empty());
    reveal_with_fuel(be_value, 2);
    if behind.len() == 0 {
        assert(front + behind =~= front);
        lemma_pow0(256);
    } else {
        let shorter: Seq<u8> = behind.drop_last();
        law_bytes_in_front_count_for_more(front, shorter, byte);
        assert((front + behind).drop_last() =~= front + shorter);
        let p: int = pow(256, shorter.len());
        let v: int = be_value(front) as int;
        reveal(pow);
        assert(pow(256, behind.len()) == 256 * p);
        assert((v * p + be_value(shorter)) * 256 == v * (256 * p) + be_value(shorter) * 256)
            by (nonlinear_arith);
    }
}

/// A number below ten is one digit; any other is the number without its last
/// digit, followed by that digit.
pub proof fn law_decimal_goes_digit_by_digit(n: nat, d: nat)
    requires
        d < 10,
    ensures
        decimal(d) == seq![(48 + d) as char],
        n > 0 ==> decimal(10 * n + d) == decimal(n) + seq![(48 + d) as char],
{
    if n > 0 {
        assert((10 * n + d) / 10 == n && (10 * n + d) % 10 == d);
        assert(decimal(10 * n + d) =~= decimal(n) + seq![(48 + d) as char]);
    }
}

/// One part is itself; two lists of parts are joined by a comma.
pub proof fn law_lists_are_joined_by_a_comma(
    front: Seq<Seq<char>>,
    behind: Seq<Seq<char>>,
    part: Seq<char>,
)
    ensures
        comma_joined(Seq::<Seq<char>>::empty()) == Seq::<char>::empty(),
        comma_joined(seq![part]) == part,
        front.len() > 0 && behind.len() > 0 ==> comma_joined(front + behind) == comma_joined(front)
            + seq![','] + comma_joined(behind),
    decreases behind.len(),
{
    if front.len() > 0 && behind.len() > 0 {
        let whole: Seq<Seq<char>> = front + behind;
        let shorter: Seq<Seq<char>> = behind.drop_last();
        assert(whole.drop_last() =~= front + shorter);
        assert(whole.last() == behind.last());
        if behind.len() == 1 {
            assert(front + shorter =~= front);
        } else {
            law_lists_are_joined_by_a_comma(front, shorter, part);
            assert(comma_joined(whole) =~= comma_joined(front) + seq![','] + comma_joined(behind));
        }
    }
}

/// An entry has as many tickets as it says, all its own; the tickets of more
/// entries stand behind.
pub proof fn law_tickets_stand_entry_by_entry(front: EntryRows, behind: EntryRows, row: (u64, EntryView))
    ensures
        tickets(seq![row]).len() == row.1.entries,
        forall|t: int| 0 <= t < row.1.entries ==> #[trigger] tickets(seq![row])[t] == row,
        tickets(front + behind) == tickets(front) + tickets(behind),
    decreases behind.len(),
{
    assert(seq![row].drop_last() =~= Seq::<(u64, EntryView)>::empty());
    reveal_with_fuel(tickets, 2);
    if behind.len() == 0 {
        assert(front + behind =~= front);
        assert(tickets(front) + tickets(behind) =~= tickets(front));
    } else {
        law_tickets_stand_entry_by_entry(front, behind.drop_last(), row);
        assert((front + behind).drop_last() =~= front + behind.drop_last());
        assert((front + behind).last() == behind.last());
        let last: (u64, EntryView) = behind.last();
        let own: EntryRows = Seq::new(last.1.entries as nat, |k: int| last);
        assert(tickets(front) + tickets(behind) =~= (tickets(front) + tickets(behind.drop_last()))
            + own);
    }
}

/// An entry brings its amount; more entries bring theirs on top.
pub proof fn law_money_adds_up(front: EntryRows, behind: EntryRows, row: (u64, EntryView))
    ensures
        money(Seq::<(u64, EntryView)>::empty()) == 0,
        money(seq![row]) == row.1.amount,
        money(front + behind) == money(front) + money(behind),
    decreases behind.len(),
{
    assert(seq![row].drop_last() =~= Seq::<(u64, EntryView)>::empty());
    reveal_with_fuel(money, 2);
    if behind.len() == 0 {
        assert(front + behind =~= front);
    } else {
        law_money_adds_up(front, behind.drop_last(), row);
        assert((front + behind).drop_last() =~= front + behind.drop_last());
    }
}

/// Money that is no amount is told as the largest there is.
pub proof fn law_money_is_capped(n: nat)
    ensures
        n <= 340_282_366_920_938_463_463_374_607_431_768_211_455 ==> capped(n) == n,
        n > 340_282_366_920_938_463_463_374_607_431_768_211_455 ==> capped(n) == u128::MAX,
{
}

/// What messages send adds up.
pub proof fn law_sends_add_up(
    front: Seq<BankSendView>,
    behind: Seq<BankSendView>,
    message: BankSendView,
)
    ensures
        sent(Seq::<BankSendView>::empty()) == 0,
        sent(seq![message]) == message.amount,
        sent(front + behind) == sent(front) + sent(behind),
    decreases behind.len(),
{
    assert(seq![message].drop_last() =~= Seq::<BankSendView>::empty());
    reveal_with_fuel(sent, 2);
    if behind.len() == 0 {
        assert(front + behind =~= front);
    } else {
        law_sends_add_up(front, behind.drop_last(), message);
        assert((front + behind).drop_last() =~= front + behind.drop_last());
    }
}

/// Shares add up.
pub proof fn law_shares_add_up(front: Seq<u64>, behind: Seq<u64>, one: u64)
    ensures
        share_sum(Seq::<u64>::empty()) == 0,
        share_sum(seq![one]) == one,
        share_sum(front + behind) == share_sum(front) + share_sum(behind),
    decreases behind.len(),
{
    assert(seq![one].drop_last() =~= Seq::<u64>::empty());
    reveal_with_fuel(share_sum, 2);
    if behind.len() == 0 {
        assert(front + behind =~= front);
    } else {
        law_shares_add_up(front, behind.drop_last(), one);
        assert((front + behind).drop_last() =~= front + behind.drop_last());
    }
}

/// A share of the pot is its ten-thousandths, rounded down.
pub proof fn law_a_share_is_rounded_down(pot: u128, bps: u64)
    ensures
        share(pot, bps) * 10_000 <= pot * bps,
        pot * bps < (share(pot, bps) + 1) * 10_000,
{
    let product: int = (pot as int) * (bps as int);
    assert(0 <= product) by (nonlinear_arith)
        requires
            product == (pot as int) * (bps as int),
    ;
}

/// A value is found under an id if and only if it is kept there.
pub proof fn law_what_is_kept_is_found<V>(rows: Seq<(u64, V)>, id: u64, value: V)
    requires
        ascending(rows),
    ensures
        find(rows, id) == Some(value) <==> rows.contains((id, value)),
        find(rows, id) is None <==> forall|i: int| 0 <= i < rows.len() ==> (#[trigger] rows[i]).0 != id,
{
    if rows.contains((id, value)) {
        let i: int = choose|i: int| 0 <= i < rows.len() && rows[i] == (id, value);
        lemma_find_row(rows, i);
    }
    if find(rows, id) is Some {
        let i: int = lemma_find_some(rows, id);
        assert(rows[i].0 == id);
    } else {
        assert forall|i: int| 0 <= i < rows.len() implies (#[trigger] rows[i]).0 != id by {
            if rows[i].0 == id {
                lemma_find_row(rows, i);
            }
        }
    }
}

/// The rows from an id on: all behind the last that is smaller, in order.
pub proof fn law_rows_from_an_id<V>(rows: Seq<(u64, V)>, lo: int) -> (p: int)
    requires
        ascending(rows),
    ensures
        0 <= p <= rows.len(),
        rows_from(rows, lo) == rows.subrange(p, rows.len() as int),
        forall|j: int| 0 <= j < p ==> (#[trigger] rows[j]).0 < lo,
        forall|j: int| p <= j < rows.len() ==> (#[trigger] rows[j]).0 >= lo,
{
    lemma_position(rows, lo);
    assert(rows_from(rows, lo) =~= rows.subrange(position(rows, lo), rows.len() as int));
    position(rows, lo)
}

/// The rows between two ids, both included, in order.
pub proof fn law_rows_between_ids<V>(rows: Seq<(u64, V)>, first: u64, last: u64) -> (r: (int, int))
    requires
        ascending(rows),
    ensures
        0 <= r.0 <= r.1 <= rows.len(),
        rows_between(rows, first as int, last as int) == rows.subrange(r.0, r.1),
        forall|j: int|
            0 <= j < rows.len() ==> (r.0 <= j < r.1 <==> first <= (#[trigger] rows[j]).0 <= last),
{
    if first <= last {
        lemma_position(rows, first as int);
        lemma_position(rows, last + 1);
        lemma_position_monotone(rows, first as int, last + 1);
        (position(rows, first as int), position(rows, last + 1))
    } else {
        assert(rows_between(rows, first as int, last as int) =~= rows.subrange(0, 0));
        (0, 0)
    }
}

/// The answer is the first that speaks of what is asked.
pub proof fn law_the_first_answer_counts(answers: Seq<AnswerView>, about: Seq<char>, i: int)
    requires
        0 <= i < answers.len(),
        answers[i].about == about,
        forall|j: int| 0 <= j < i ==> (#[trigger] answers[j]).about != about,
    ensures
        answer_to(answers, about) == answers[i].outcome,
{
    lemma_answer(answers, about, 0, i);
}

proof fn lemma_answer(answers: Seq<AnswerView>, about: Seq<char>, k: int, i: int)
    requires
        0 <= k <= i < answers.len(),
        answers[i].about == about,
        forall|j: int| 0 <= j < i ==> (#[trigger] answers[j]).about != about,
    ensures
        answer_from(answers, about, k) == answers[i].outcome,
    decreases i - k,
{
    if k < i {
        assert(answers[k].about != about);
        lemma_answer(answers, about, k + 1, i);
    }
}

/// What no answer speaks of is not found.
pub proof fn law_no_answer_is_not_found(answers: Seq<AnswerView>, about: Seq<char>)
    requires
        forall|j: int| 0 <= j < answers.len() ==> (#[trigger] answers[j]).about != about,
    ensures
        answer_to(answers, about) == Err::<Seq<char>, _>(StdErrorView::NotFound { kind: about }),
{
    lemma_no_answer(answers, about, 0);
}

proof fn lemma_no_answer(answers: Seq<AnswerView>, about: Seq<char>, k: int)
    requires
        0 <= k <= answers.len(),
        forall|j: int| 0 <= j < answers.len() ==> (#[trigger] answers[j]).about != about,
    ensures
        answer_from(answers, about, k) == Err::<Seq<char>, _>(
            StdErrorView::NotFound { kind: about },
        ),
    decreases answers.len() - k,
{
    if k < answers.len() {
        assert(answers[k].about != about);
        lemma_no_answer(answers, about, k + 1);
    }
}

/// The winners cannot be told only for want of an owner of a winning token, and
/// the first of these says why.
pub proof fn law_the_first_unknown_owner_stops_a_draw(
    pool: EntryRows,
    chosen: Seq<u64>,
    owners: Seq<AnswerView>,
    k: int,
)
    requires
        0 <= k < chosen.len(),
        !pool[chosen[k] as int].1.free,
        answer_to(owners, pool[chosen[k] as int].1.token_id) is Err,
        forall|j: int|
            0 <= j < k ==> pool[(#[trigger] chosen[j]) as int].1.free || answer_to(
                owners,
                pool[chosen[j] as int].1.token_id,
            ) is Ok,
    ensures
        payees(pool, chosen, owners) == Err::<Seq<Seq<char>>, _>(
            answer_to(owners, pool[chosen[k] as int].1.token_id)->Err_0,
        ),
    decreases chosen.len(),
{
    let shorter: Seq<u64> = chosen.drop_last();
    if k < shorter.len() {
        assert(shorter[k] == chosen[k]);
        assert forall|j: int| 0 <= j < k implies pool[(#[trigger] shorter[j]) as int].1.free
            || answer_to(owners, pool[shorter[j] as int].1.token_id) is Ok by {
            assert(shorter[j] == chosen[j]);
        }
        law_the_first_unknown_owner_stops_a_draw(pool, shorter, owners, k);
    } else {
        assert forall|j: int| 0 <= j < shorter.len() implies pool[(
        #[trigger] shorter[j]) as int].1.free || answer_to(
            owners,
            pool[shorter[j] as int].1.token_id,
        ) is Ok by {
            assert(shorter[j] == chosen[j]);
        }
        law_known_owners_do_not_stop_a_draw(pool, shorter, owners);
    }
}

/// With every owner known, or no token to ask for, the winners can be told.
pub proof fn law_known_owners_do_not_stop_a_draw(
    pool: EntryRows,
    chosen: Seq<u64>,
    owners: Seq<AnswerView>,
)
    requires
        forall|j: int|
            0 <= j < chosen.len() ==> pool[(#[trigger] chosen[j]) as int].1.free || answer_to(
                owners,
                pool[chosen[j] as int].1.token_id,
            ) is Ok,
    ensures
        payees(pool, chosen, owners) is Ok,
    decreases chosen.len(),
{
    if chosen.len() > 0 {
        let shorter: Seq<u64> = chosen.drop_last();
        assert forall|j: int| 0 <= j < shorter.len() implies pool[(
        #[trigger] shorter[j]) as int].1.free || answer_to(
            owners,
            pool[shorter[j] as int].1.token_id,
        ) is Ok by {
            assert(shorter[j] == chosen[j]);
        }
        law_known_owners_do_not_stop_a_draw(pool, shorter, owners);
        assert(chosen[chosen.len() - 1] == chosen.last());
    }
}

/// The owners to ask for are those of the winning tokens, in order; a free
/// ticket has none.
pub proof fn law_owners_are_asked_ticket_by_ticket(
    pool: EntryRows,
    front: Seq<u64>,
    behind: Seq<u64>,
    ticket: u64,
)
    ensures
        tokens_of(pool, seq![ticket]) == (if pool[ticket as int].1.free {
            Seq::<Seq<char>>::empty()
        } else {
            seq![pool[ticket as int].1.token_id]
        }),
        tokens_of(pool, front + behind) == tokens_of(pool, front) + tokens_of(pool, behind),
    decreases behind.len(),
{
    assert(seq![ticket].drop_last() =~= Seq::<u64>::empty());
    reveal_with_fuel(tokens_of, 2);
    assert(tokens_of(pool, Seq::<u64>::empty()) =~= Seq::<Seq<char>>::empty());
    assert(Seq::<Seq<char>>::empty().push(pool[ticket as int].1.token_id) =~= seq![
        pool[ticket as int].1.token_id,
    ]);
    if behind.len() == 0 {
        assert(front + behind =~= front);
        assert(tokens_of(pool, front) + tokens_of(pool, behind) =~= tokens_of(pool, front));
    } else {
        law_owners_are_asked_ticket_by_ticket(pool, front, behind.drop_last(), ticket);
        assert((front + behind).drop_last() =~= front + behind.drop_last());
        assert((front + behind).last() == behind.last());
        assert(tokens_of(pool, front + behind) =~= tokens_of(pool, front) + tokens_of(
            pool,
            behind,
        ));
    }
}

} // verus!
