//! What holds of rounds: where they start and end, what fixes their outcome,
//! and that they can always move on.

use vstd::prelude::*;

use crate::config::lemma_config_wf;
use crate::contract::has_room;
use crate::digest::sha256_of;
use crate::draw::{
    any_before, covered, last_id, money, places_drawn, run_end, tickets, winning_tickets,
    EntryRows, MAX_SCAN,
};
use crate::entries::{free_batch_outcome, with_entries};
use crate::error::ContractErrorView;
use crate::laws::calls::{
    basis_of, goes, key_of, law_calls_keep_the_pool_in_order, law_entries_are_never_changed,
    lemma_rounds_put, lemma_settlement, outcome_of, record_of, settles, winners_of, Call,
};
use crate::laws::draw::law_a_round_covers_what_came_in_time;
use crate::laws::money::law_only_settlement_moves_the_carry;
use crate::msg::{answer_to, AnswerView, Env, ExecuteMsgView, ResponseView};
use crate::outcome::Outcome;
use crate::query::{consumed, status_at};
use crate::rules::{
    basis, is_stale, lemma_boundary, lemma_draw_sends, lemma_last_id, lemma_start_of,
    lemma_terms_fair, payees, sent, settleable, settled, start_of, Basis,
};
use crate::settle::{tokens_of, tokens_to_ask};
use crate::state::{ConfigView, EntryView, RoundStatus, RoundView, StateView, NANOS};
use crate::table::{
    ascending, find, lemma_find_some, lemma_position, lemma_position_is, lemma_position_monotone,
    lemma_put, position, rows_between, rows_from,
};

verus! {

/// The round is there, and starts right behind the one before it.
pub open spec fn linked(s: StateView, id: u64) -> bool {
    find(s.rounds, id) matches Some(round) && round.first_entry_id matches Some(first) && start_of(
        s,
        id,
    ) == Ok::<_, ContractErrorView>(first)
}

/// Every settled round is there, and starts right behind the one before it.
pub open spec fn chained(s: StateView) -> bool {
    forall|id: u64| 1 <= id < s.next_unsettled_id ==> #[trigger] linked(s, id)
}

/// Rounds stay one behind the other, without a gap and without an overlap,
/// whatever is called.
#[verifier::rlimit(40)]
pub proof fn law_boundaries_stay_chained(
    s: StateView,
    call: Call,
    after: StateView,
    response: ResponseView,
)
    requires
        s.wf(),
        has_room(s, call.msg),
        chained(s),
        goes(s, call, after, response),
    ensures
        chained(after),
{
    lemma_rounds_put(s, call, after, response);
    if let Some(now) = settles(call.msg) {
        lemma_settlement(s, call, after, response, now);
        lemma_put(s.rounds, now, record_of(s, call, now));
    }
    assert forall|id: u64| 1 <= id < after.next_unsettled_id implies #[trigger] linked(
        after,
        id,
    ) by {
        if id < s.next_unsettled_id {
            assert(linked(s, id));
            assert(find(after.rounds, id) == find(s.rounds, id));
        }
        if id > 1 {
            let previous: u64 = (id - 1) as u64;
            assert(find(after.rounds, previous) == find(s.rounds, previous));
        }
        assert(start_of(after, id) == start_of(s, id));
    }
}

/// No entry is consumed by two rounds: all that a settled round consumed lies
/// before all that a later one did.
pub proof fn law_no_entry_is_consumed_twice(
    s: StateView,
    i: u64,
    earlier: RoundView,
    j: u64,
    later: RoundView,
)
    requires
        s.wf(),
        chained(s),
        1 <= i < j < s.next_unsettled_id,
        find(s.rounds, i) == Some(earlier),
        find(s.rounds, j) == Some(later),
    ensures
        forall|a: int, b: int|
            0 <= a < consumed(s, earlier).len() && 0 <= b < consumed(s, later).len() ==> (
            #[trigger] consumed(s, earlier)[a]).0 < (#[trigger] consumed(s, later)[b]).0,
{
    lemma_chain(s, i, j);
    lemma_between(s.entries, earlier.first_entry_id->0, earlier.last_entry_id->0);
    lemma_between(s.entries, later.first_entry_id->0, later.last_entry_id->0);
}

/// The rows between two ids have ids between the two.
proof fn lemma_between(rows: EntryRows, first: u64, last: u64)
    requires
        ascending(rows),
    ensures
        forall|k: int|
            0 <= k < rows_between(rows, first as int, last as int).len() ==> first <= (
            #[trigger] rows_between(rows, first as int, last as int)[k]).0 <= last,
{
    if first <= last {
        lemma_position_monotone(rows, first as int, last + 1);
        lemma_position(rows, first as int);
        lemma_position(rows, last + 1);
        let between: EntryRows = rows_between(rows, first as int, last as int);
        assert forall|k: int| 0 <= k < between.len() implies first <= (#[trigger] between[k]).0
            <= last by {
            assert(between[k] == rows[position(rows, first as int) + k]);
        }
    }
}

proof fn lemma_chain(s: StateView, i: u64, j: u64)
    requires
        s.wf(),
        chained(s),
        1 <= i < j < s.next_unsettled_id,
    ensures
        find(s.rounds, i) is Some,
        find(s.rounds, j) is Some,
        ({
            let earlier: RoundView = find(s.rounds, i)->0;
            let later: RoundView = find(s.rounds, j)->0;
            &&& earlier.first_entry_id is Some
            &&& earlier.last_entry_id is Some
            &&& later.first_entry_id is Some
            &&& later.last_entry_id is Some
            &&& earlier.last_entry_id->0 < later.first_entry_id->0
        }),
    decreases j,
{
    let previous: u64 = (j - 1) as u64;
    assert(linked(s, i));
    assert(linked(s, j));
    assert(linked(s, previous));
    lemma_settled_round(s, i);
    lemma_settled_round(s, j);
    lemma_settled_round(s, previous);
    if i < previous {
        lemma_chain(s, i, previous);
    }
}

/// A settled round says where it starts and ends.
proof fn lemma_settled_round(s: StateView, id: u64)
    requires
        s.wf(),
        id < s.next_unsettled_id,
    ensures
        find(s.rounds, id) matches Some(round) ==> round.is_settled(s.next_entry_id),
{
    if find(s.rounds, id) is Some {
        let k: int = lemma_find_some(s.rounds, id);
        assert(s.round_ok(s.rounds[k].0, s.rounds[k].1));
    }
}

/// A round that is skipped or rolled over consumes nothing: the next round
/// starts where it did, with every entry still there.
pub proof fn law_a_skip_consumes_nothing(
    s: StateView,
    call: Call,
    after: StateView,
    response: ResponseView,
    id: u64,
)
    requires
        s.wf(),
        has_room(s, call.msg),
        goes(s, call, after, response),
        settles(call.msg) == Some(id),
        find(after.rounds, id) matches Some(round) && round.status != RoundStatus::Drawn,
    ensures
        start_of(after, (id + 1) as u64) == start_of(s, id),
        after.entries == s.entries,
        find(after.rounds, id) matches Some(round) && consumed(after, round).len() == 0,
{
    lemma_settlement(s, call, after, response, id);
    lemma_rounds_put(s, call, after, response);
    lemma_put(s.rounds, id, record_of(s, call, id));
    lemma_start_of(s, id);
}

/// A round that is drawn consumes the entries it covers, and the next round
/// starts right behind them.
#[verifier::rlimit(40)]
pub proof fn law_a_draw_consumes_what_it_covers(
    s: StateView,
    call: Call,
    after: StateView,
    response: ResponseView,
    id: u64,
    round: RoundView,
)
    requires
        s.wf(),
        has_room(s, call.msg),
        goes(s, call, after, response),
        settles(call.msg) == Some(id),
        find(after.rounds, id) == Some(round),
        round.status == RoundStatus::Drawn,
    ensures
        start_of(s, id) matches Ok(first) && round.first_entry_id == Some(first) && consumed(
            after,
            round,
        ) == covered(s.entries, first, round.close_time),
        start_of(after, (id + 1) as u64) == Ok::<_, ContractErrorView>(
            (round.last_entry_id->0 + 1) as u64,
        ),
{
    lemma_settlement(s, call, after, response, id);
    lemma_rounds_put(s, call, after, response);
    lemma_put(s.rounds, id, record_of(s, call, id));
    lemma_start_of(s, id);
    let b: Basis = basis_of(s, call, id);
    lemma_consumed(s, b.first, round.close_time);
}

/// What a round covers is what lies between its first and its last entry.
pub proof fn lemma_consumed(s: StateView, first: u64, close_time: u64)
    requires
        s.wf(),
        1 <= first <= s.next_entry_id,
    ensures
        ({
            let rows: EntryRows = covered(s.entries, first, close_time);
            rows_between(s.entries, first as int, last_id(rows, first) as int) == rows
        }),
{
    let rows: EntryRows = covered(s.entries, first, close_time);
    lemma_boundary(s.entries, first, close_time);
    lemma_last_id(s, first, close_time);
    if rows.len() > 0 {
        let start: int = position(s.entries, first as int);
        lemma_position(s.entries, first as int);
        assert(rows.last() == s.entries[start + rows.len() - 1]);
    } else {
        assert(rows =~= Seq::empty());
    }
}

/// Once a round has closed, nothing but its settlement changes what it is
/// settled on. No entry, free or paid, no new round and no change of the
/// configuration moves its entries, its entropy, its terms or its pot; so its
/// result is fixed, and so are its winning tickets, whatever the secret. The
/// configuration still has a say over a round that was opened before terms
/// were fixed.
#[verifier::rlimit(40)]
pub proof fn law_the_outcome_is_fixed_at_close(
    s: StateView,
    call: Call,
    after: StateView,
    response: ResponseView,
    id: u64,
    round: RoundView,
    first: u64,
)
    requires
        s.wf(),
        has_room(s, call.msg),
        goes(s, call, after, response),
        settles(call.msg) is None,
        id == s.next_unsettled_id,
        find(s.rounds, id) == Some(round),
        round.terms is Some || !(call.msg is UpdateConfig),
        call.env.time >= round.close_time,
        start_of(s, id) == Ok::<_, ContractErrorView>(first),
    ensures
        after.next_unsettled_id == id,
        find(after.rounds, id) == Some(round),
        start_of(after, id) == start_of(s, id),
        forall|balance: u128| #[trigger]
            basis(after, balance, id, round, first) == basis(s, balance, id, round, first),
        stand_alike(s, after, id, round, first),
{
    lemma_rounds_put(s, call, after, response);
    law_entries_are_never_changed(s, call, after, response);
    law_calls_keep_the_pool_in_order(s, call, after, response);
    let k: int = lemma_find_some(s.rounds, id);
    assert(s.round_ok(s.rounds[k].0, s.rounds[k].1));
    lemma_start_of(s, id);
    if id > 1 {
        let previous: u64 = (id - 1) as u64;
        assert(find(after.rounds, previous) == find(s.rounds, previous));
    }
    lemma_same_cover(s.entries, after.entries, s.next_entry_id, first, round.close_time);
    law_only_settlement_moves_the_carry(s, call, after, response);
    if !(call.msg is UpdateConfig) {
        law_only_an_update_moves_the_configuration(s, call, after, response);
    }
    assert(round.terms_under(after.config) == round.terms_under(s.config));
}

/// Nothing but an update moves the configuration.
pub proof fn law_only_an_update_moves_the_configuration(
    s: StateView,
    call: Call,
    after: StateView,
    response: ResponseView,
)
    requires
        goes(s, call, after, response),
        !(call.msg is UpdateConfig),
    ensures
        after.config == s.config,
{
    if let Some(id) = settles(call.msg) {
        lemma_settlement(s, call, after, response, id);
    }
    if let ExecuteMsgView::RecordFreeEntries { entries } = call.msg {
        lemma_entries_only(
            s,
            free_batch_outcome(entries, call.env.time, call.addresses)->Ok_0,
            s.config,
        );
    }
}

/// Adding entries changes nothing but the entries and their counter, under any
/// configuration.
pub proof fn lemma_entries_only(s: StateView, list: Seq<EntryView>, config: ConfigView)
    ensures
        with_entries(StateView { config, ..s }, list) == (StateView {
            config,
            ..with_entries(s, list)
        }),
        with_entries(s, list).config == s.config,
        with_entries(s, list).carry == s.carry,
        with_entries(s, list).rounds == s.rounds,
    decreases list.len(),
{
    if list.len() > 0 {
        lemma_entries_only(s, list.drop_last(), config);
    }
}

/// Entries that come too late are not covered.
proof fn lemma_same_cover(
    before: EntryRows,
    after: EntryRows,
    next_entry_id: u64,
    first: u64,
    close_time: u64,
)
    requires
        ascending(before),
        ascending(after),
        before.len() <= after.len(),
        after.take(before.len() as int) == before,
        first <= next_entry_id,
        forall|i: int|
            before.len() <= i < after.len() ==> {
                &&& next_entry_id <= (#[trigger] after[i]).0
                &&& close_time <= after[i].1.recorded_at
            },
    ensures
        covered(after, first, close_time) == covered(before, first, close_time),
{
    let p: int = position(before, first as int);
    lemma_position(before, first as int);
    assert forall|j: int| 0 <= j < before.len() implies #[trigger] after[j] == before[j] by {
        assert(after.take(before.len() as int)[j] == after[j]);
    }
    lemma_position_is(after, first as int, p);
    let short: EntryRows = rows_from(before, first as int);
    let long: EntryRows = rows_from(after, first as int);
    assert forall|i: int| 0 <= i < short.len() implies #[trigger] long[i] == short[i] by {
        assert(long[i] == after[p + i]);
    }
    assert forall|i: int| short.len() <= i < long.len() implies (
    #[trigger] long[i]).1.recorded_at >= close_time by {
        assert(long[i] == after[p + i]);
    }
    lemma_same_run(short, long, close_time, MAX_SCAN as int, 0);
    let end: int = run_end(short, close_time, MAX_SCAN as int, 0);
    assert(long.take(end) =~= short.take(end));
}

proof fn lemma_same_run(short: EntryRows, long: EntryRows, close_time: u64, limit: int, i: int)
    requires
        0 <= i <= limit,
        i <= short.len() <= long.len(),
        forall|j: int| 0 <= j < short.len() ==> #[trigger] long[j] == short[j],
        forall|j: int|
            short.len() <= j < long.len() ==> (#[trigger] long[j]).1.recorded_at >= close_time,
    ensures
        run_end(long, close_time, limit, i) == run_end(short, close_time, limit, i),
        i <= run_end(short, close_time, limit, i) <= short.len(),
    decreases limit - i,
{
    if i < limit && i < short.len() && short[i].1.recorded_at < close_time {
        assert(long[i] == short[i]);
        lemma_same_run(short, long, close_time, limit, i + 1);
    } else if i < short.len() {
        assert(long[i] == short[i]);
    }
}

/// The pool once these calls were made, in order. One that is refused leaves it
/// as it was.
pub open spec fn pool_after(s: StateView, calls: Seq<Call>) -> StateView
    decreases calls.len(),
{
    if calls.len() == 0 {
        s
    } else {
        let before: StateView = pool_after(s, calls.drop_last());
        match outcome_of(before, calls.last()) {
            Ok((after, response)) => after,
            Err(e) => before,
        }
    }
}

/// At each of these calls, made in order, ids are left.
pub open spec fn leave_room(s: StateView, calls: Seq<Call>) -> bool
    decreases calls.len(),
{
    calls.len() == 0 || (leave_room(s, calls.drop_last()) && has_room(
        pool_after(s, calls.drop_last()),
        calls.last().msg,
    ))
}

/// Round `id` is next in both pools, and is settled on the same in both.
pub open spec fn stand_alike(
    s: StateView,
    t: StateView,
    id: u64,
    round: RoundView,
    first: u64,
) -> bool {
    &&& t.next_unsettled_id == s.next_unsettled_id == id
    &&& find(s.rounds, id) == Some(round)
    &&& find(t.rounds, id) == Some(round)
    &&& start_of(s, id) == Ok::<_, ContractErrorView>(first)
    &&& start_of(t, id) == Ok::<_, ContractErrorView>(first)
    &&& forall|balance: u128| #[trigger]
        basis(t, balance, id, round, first) == basis(s, balance, id, round, first)
}

/// These calls settle nothing, come after the round has closed, and leave its
/// terms alone.
pub open spec fn wait_for(round: RoundView, calls: Seq<Call>) -> bool {
    forall|i: int|
        0 <= i < calls.len() ==> {
            &&& settles((#[trigger] calls[i]).msg) is None
            &&& calls[i].env.time >= round.close_time
            &&& round.terms is Some || !(calls[i].msg is UpdateConfig)
        }
}

/// However many calls are made between its close and its settlement, a round is
/// settled on the same.
pub proof fn law_waiting_changes_nothing(
    s: StateView,
    calls: Seq<Call>,
    id: u64,
    round: RoundView,
    first: u64,
)
    requires
        s.wf(),
        leave_room(s, calls),
        id == s.next_unsettled_id,
        find(s.rounds, id) == Some(round),
        start_of(s, id) == Ok::<_, ContractErrorView>(first),
        wait_for(round, calls),
    ensures
        pool_after(s, calls).wf(),
        stand_alike(s, pool_after(s, calls), id, round, first),
    decreases calls.len(),
{
    if calls.len() > 0 {
        let earlier: Seq<Call> = calls.drop_last();
        let before: StateView = pool_after(s, earlier);
        assert forall|i: int| 0 <= i < earlier.len() implies {
            &&& settles((#[trigger] earlier[i]).msg) is None
            &&& earlier[i].env.time >= round.close_time
            &&& round.terms is Some || !(earlier[i].msg is UpdateConfig)
        } by {
            assert(earlier[i] == calls[i]);
        }
        law_waiting_changes_nothing(s, earlier, id, round, first);
        let call: Call = calls.last();
        assert(calls[calls.len() - 1] == call);
        if let Ok((after, response)) = outcome_of(before, call) {
            law_calls_keep_the_pool_in_order(before, call, after, response);
            law_the_outcome_is_fixed_at_close(before, call, after, response, id, round, first);
            assert forall|balance: u128| #[trigger]
                basis(after, balance, id, round, first) == basis(s, balance, id, round, first) by {
                assert(basis(before, balance, id, round, first) == basis(
                    s,
                    balance,
                    id,
                    round,
                    first,
                ));
            }
        }
    }
}

/// The two balances give a round with these entries the same pot: they are the
/// same, or each covers the entries' money and the carry.
pub open spec fn fund_alike(one: u128, two: u128, carry: u128, rows: EntryRows) -> bool {
    one == two || (one >= money(rows) + carry && two >= money(rows) + carry)
}

/// When a round is settled, and by whom, has no say in its outcome. One call
/// settles it in the pool `s`, which is past its close; the other after any
/// number of calls that do not, made from `s` on. Where both find the money
/// alike they leave the same record, skipped, rolled over or drawn, but for the
/// time and for who owned the winning tokens. Where they do not, a draw still
/// comes to the same result and the same winning tickets.
#[verifier::rlimit(40)]
pub proof fn law_the_moment_of_settlement_does_not_matter(
    s: StateView,
    one: Call,
    one_after: StateView,
    one_response: ResponseView,
    between: Seq<Call>,
    two: Call,
    two_after: StateView,
    two_response: ResponseView,
    id: u64,
    round: RoundView,
)
    requires
        s.wf(),
        leave_room(s, between),
        find(s.rounds, id) == Some(round),
        wait_for(round, between),
        goes(s, one, one_after, one_response),
        goes(pool_after(s, between), two, two_after, two_response),
        one.msg == two.msg,
        settles(one.msg) == Some(id),
    ensures
        find(one_after.rounds, id) is Some,
        find(two_after.rounds, id) is Some,
        ({
            let a: RoundView = find(one_after.rounds, id)->0;
            let b: RoundView = find(two_after.rounds, id)->0;
            &&& fund_alike(
                one.env.balance,
                two.env.balance,
                s.carry,
                basis_of(s, one, id).rows,
            ) ==> {
                &&& a == (RoundView { winners: a.winners, settled_at: a.settled_at, ..b })
                &&& one.owners == two.owners ==> a.winners == b.winners
            }
            &&& a.status == RoundStatus::Drawn && b.status == RoundStatus::Drawn ==> {
                a == (RoundView {
                    winners: a.winners,
                    settled_at: a.settled_at,
                    pot: a.pot,
                    ..b
                })
            }
        }),
{
    let t: StateView = pool_after(s, between);
    lemma_settlement(s, one, one_after, one_response, id);
    let first: u64 = start_of(s, id)->Ok_0;
    law_waiting_changes_nothing(s, between, id, round, first);
    lemma_settlement(t, two, two_after, two_response, id);
    lemma_put(s.rounds, id, record_of(s, one, id));
    lemma_put(t.rounds, id, record_of(t, two, id));
    assert(basis(t, two.env.balance, id, round, first) == basis(
        s,
        two.env.balance,
        id,
        round,
        first,
    ));
}

/// The pool under another configuration.
pub open spec fn under(s: StateView, config: ConfigView) -> StateView {
    StateView { config, ..s }
}

/// The same end, under another configuration.
pub open spec fn outcome_under(outcome: Outcome, config: ConfigView) -> Outcome {
    match outcome {
        Ok((after, response)) => Ok((under(after, config), response)),
        Err(e) => Err(e),
    }
}

/// A round is settled on the terms it opened with. The configuration of the day
/// says where the treasury is and what the money is called, and nothing else.
#[verifier::rlimit(40)]
pub proof fn law_terms_are_frozen(
    s: StateView,
    call: Call,
    id: u64,
    round: RoundView,
    config: ConfigView,
)
    requires
        settles(call.msg) == Some(id),
        find(s.rounds, id) == Some(round),
        round.terms is Some,
        config.treasury == s.config.treasury,
        config.denom == s.config.denom,
    ensures
        outcome_of(under(s, config), call) == outcome_under(outcome_of(s, call), config),
{
    if let Ok(first) = start_of(s, id) {
        assert(basis(under(s, config), call.env.balance, id, round, first) == basis(
            s,
            call.env.balance,
            id,
            round,
            first,
        ));
    }
}

/// A pause stops paid entries and nothing else: every other call can be made,
/// and ends as it would without it.
#[verifier::rlimit(40)]
pub proof fn law_a_pause_stops_only_paid_entries(s: StateView, call: Call, paused: bool)
    requires
        !(call.msg is RecordEntry),
        !(call.msg is UpdateConfig),
    ensures
        ({
            let config: ConfigView = ConfigView { paused, ..s.config };
            &&& outcome_of(under(s, config), call) == outcome_under(outcome_of(s, call), config)
            &&& has_room(under(s, config), call.msg) == has_room(s, call.msg)
            &&& s.wf() ==> under(s, config).wf()
        }),
{
    let config: ConfigView = ConfigView { paused, ..s.config };
    assert(config.terms() == s.config.terms());
    if s.wf() {
        lemma_config_wf(s, config);
    }
    match call.msg {
        ExecuteMsgView::RecordFreeEntries { entries } => {
            if let Ok(list) = free_batch_outcome(entries, call.env.time, call.addresses) {
                lemma_entries_only(s, list, config);
            }
        },
        _ => {},
    }
    if let Some(id) = settles(call.msg) {
        if let Ok(round) = settleable(s, call.env.time, id) {
            if let Ok(first) = start_of(s, id) {
                assert(basis(under(s, config), call.env.balance, id, round, first) == basis(
                    s,
                    call.env.balance,
                    id,
                    round,
                    first,
                ));
            }
        }
    }
}

/// There are no more winning tickets than places.
pub proof fn lemma_winning_tickets_len(pool: EntryRows, result: Seq<u8>, places: nat)
    ensures
        winning_tickets(pool, result, places).len() <= places,
    decreases places,
{
    if places > 0 {
        lemma_winning_tickets_len(pool, result, (places - 1) as nat);
    }
}

/// There is one payee for each winning ticket.
pub proof fn lemma_payees_len(pool: EntryRows, chosen: Seq<u64>, owners: Seq<AnswerView>)
    ensures
        payees(pool, chosen, owners) matches Ok(list) ==> list.len() == chosen.len(),
    decreases chosen.len(),
{
    if chosen.len() > 0 {
        lemma_payees_len(pool, chosen.drop_last(), owners);
    }
}

/// A draw pays no more places than its terms have shares.
pub proof fn lemma_winners_fit(s: StateView, call: Call, id: u64)
    ensures
        winners_of(s, call, id) matches Ok(list) ==> list.len() <= basis_of(
            s,
            call,
            id,
        ).terms.payout_bps.len(),
{
    let b: Basis = basis_of(s, call, id);
    let key: Seq<u8> = key_of(call.msg, b.round);
    lemma_winning_tickets_len(
        tickets(b.rows),
        b.result(id, key),
        places_drawn(b.terms.payout_bps.len(), tickets(b.rows).len()),
    );
    lemma_payees_len(tickets(b.rows), b.chosen(id, key), call.owners);
}

/// Anyone may settle, and it makes no difference who does: the call is refused
/// for all or for none, the pool comes out the same and reports the same. Only
/// the address of the caller's share differs.
#[verifier::rlimit(40)]
pub proof fn law_anyone_may_settle(s: StateView, call: Call, other: Seq<char>, id: u64)
    requires
        s.wf(),
        settles(call.msg) == Some(id),
    ensures
        match (outcome_of(s, call), outcome_of(s, Call { sender: other, ..call })) {
            (Ok((after, response)), Ok((other_after, other_response))) => {
                &&& other_after == after
                &&& other_response.attributes == response.attributes
                &&& other_response.messages.len() == response.messages.len()
                &&& sent(other_response.messages) == sent(response.messages)
            },
            (Err(e), Err(other_e)) => other_e == e,
            _ => false,
        },
{
    let also: Call = Call { sender: other, ..call };
    assert(basis_of(s, also, id) == basis_of(s, call, id));
    assert(winners_of(s, also, id) == winners_of(s, call, id));
    lemma_winners_fit(s, call, id);
    lemma_terms_fair(s, id);
    if let Ok((after, response)) = outcome_of(s, call) {
        lemma_settlement(s, call, after, response, id);
        let b: Basis = basis_of(s, call, id);
        if b.runs() {
            let winners: Seq<Seq<char>> = winners_of(s, call, id)->Ok_0;
            lemma_draw_sends(s.config, b.terms, b.pot, winners, call.sender);
            lemma_draw_sends(s.config, b.terms, b.pot, winners, other);
        }
    }
}

/// A draw needs the secret that the round committed to, and the round closed. A
/// wrong secret is refused as such.
pub proof fn law_a_draw_needs_the_secret(s: StateView, call: Call, id: u64, secret: Seq<u8>)
    requires
        call.msg == (ExecuteMsgView::ExecuteDraw { round_id: id, secret }),
    ensures
        outcome_of(s, call) is Ok ==> (find(s.rounds, id) matches Some(round) && sha256_of(secret)
            == round.seed_hash && call.env.time >= round.close_time),
        settleable(s, call.env.time, id) matches Ok(round) && sha256_of(secret) != round.seed_hash
            ==> outcome_of(s, call) == Err::<(StateView, ResponseView), _>(
            ContractErrorView::SecretMismatch,
        ),
{
}

/// Without the secret a round is settled only when its reveal is overdue by the
/// round's own terms, and it is rolled over only if there is too little to
/// draw.
pub proof fn law_going_without_the_secret_takes_patience(
    s: StateView,
    call: Call,
    after: StateView,
    response: ResponseView,
    id: u64,
)
    requires
        goes(s, call, after, response),
        settles(call.msg) == Some(id),
        !(call.msg is ExecuteDraw),
    ensures
        ({
            let b: Basis = basis_of(s, call, id);
            &&& call.env.time >= b.round.close_time + b.terms.stale_after_secs * NANOS
            &&& call.msg is RolloverRound ==> !b.runs()
        }),
{
    lemma_settlement(s, call, after, response, id);
}

/// Funds are never trapped: once the reveal of the next round is overdue,
/// anyone can settle it, as long as the tokens that win have owners; and with
/// too little to draw, anyone can roll it over, and no owner is needed.
#[verifier::rlimit(40)]
pub proof fn law_a_stale_round_can_move_on(
    s: StateView,
    env: Env,
    sender: Seq<char>,
    addresses: Seq<AnswerView>,
    owners: Seq<AnswerView>,
    id: u64,
    round: RoundView,
)
    requires
        s.wf(),
        chained(s),
        id == s.next_unsettled_id,
        find(s.rounds, id) == Some(round),
        is_stale(round, round.terms_under(s.config), env.time),
        forall|i: int|
            0 <= i < tokens_to_ask(s, env, id, None).len() ==> answer_to(
                owners,
                #[trigger] tokens_to_ask(s, env, id, None)[i],
            ) is Ok,
    ensures
        ({
            let settle: Call = Call {
                env,
                sender,
                msg: ExecuteMsgView::SettleStale { round_id: id },
                addresses,
                owners,
            };
            let roll: Call = Call {
                env,
                sender,
                msg: ExecuteMsgView::RolloverRound { round_id: id },
                addresses,
                owners,
            };
            &&& outcome_of(s, settle) is Ok
            &&& outcome_of(s, roll) is Ok <==> !basis_of(s, roll, id).runs()
        }),
{
    if id > 1 {
        assert(linked(s, (id - 1) as u64));
    }
    let first: u64 = start_of(s, id)->Ok_0;
    assert(start_of(s, id) == Ok::<_, ContractErrorView>(first));
    let secs: u64 = round.terms_under(s.config).stale_after_secs;
    assert(secs * NANOS >= 0) by (nonlinear_arith)
        requires
            secs >= 0,
            NANOS >= 0,
    ;
    assert(settleable(s, env.time, id) == Ok::<_, ContractErrorView>(round));
    let b: Basis = basis(s, env.balance, id, round, first);
    if b.runs() {
        assert(tokens_to_ask(s, env, id, None) == tokens_of(
            tickets(b.rows),
            b.chosen(id, round.seed_hash),
        ));
        lemma_payees_known(tickets(b.rows), b.chosen(id, round.seed_hash), owners);
    }
    assert(settled(
        s,
        env,
        sender,
        "settle_stale"@,
        id,
        b,
        round.seed_hash,
        None,
        owners,
    ) is Ok);
}

/// A reveal is never too late: from its close on, the next round can be settled
/// with its secret by anyone, as long as the tokens that win have owners.
#[verifier::rlimit(40)]
pub proof fn law_a_reveal_is_never_too_late(
    s: StateView,
    env: Env,
    sender: Seq<char>,
    addresses: Seq<AnswerView>,
    owners: Seq<AnswerView>,
    id: u64,
    round: RoundView,
    secret: Seq<u8>,
)
    requires
        s.wf(),
        chained(s),
        id == s.next_unsettled_id,
        find(s.rounds, id) == Some(round),
        env.time >= round.close_time,
        sha256_of(secret) == round.seed_hash,
        forall|i: int|
            0 <= i < tokens_to_ask(s, env, id, Some(secret)).len() ==> answer_to(
                owners,
                #[trigger] tokens_to_ask(s, env, id, Some(secret))[i],
            ) is Ok,
    ensures
        outcome_of(
            s,
            Call {
                env,
                sender,
                msg: ExecuteMsgView::ExecuteDraw { round_id: id, secret },
                addresses,
                owners,
            },
        ) is Ok,
{
    if id > 1 {
        assert(linked(s, (id - 1) as u64));
    }
    let first: u64 = start_of(s, id)->Ok_0;
    assert(start_of(s, id) == Ok::<_, ContractErrorView>(first));
    assert(settleable(s, env.time, id) == Ok::<_, ContractErrorView>(round));
    let b: Basis = basis(s, env.balance, id, round, first);
    if b.runs() {
        assert(tokens_to_ask(s, env, id, Some(secret)) == tokens_of(
            tickets(b.rows),
            b.chosen(id, secret),
        ));
        lemma_payees_known(tickets(b.rows), b.chosen(id, secret), owners);
    }
    assert(settled(
        s,
        env,
        sender,
        "execute_draw"@,
        id,
        b,
        secret,
        Some(secret),
        owners,
    ) is Ok);
}

/// Everyone is paid if every token that is asked for has an owner.
proof fn lemma_payees_known(pool: EntryRows, chosen: Seq<u64>, owners: Seq<AnswerView>)
    requires
        forall|i: int|
            0 <= i < tokens_of(pool, chosen).len() ==> answer_to(
                owners,
                #[trigger] tokens_of(pool, chosen)[i],
            ) is Ok,
    ensures
        payees(pool, chosen, owners) is Ok,
    decreases chosen.len(),
{
    if chosen.len() > 0 {
        let entry: EntryView = pool[chosen.last() as int].1;
        let before: Seq<Seq<char>> = tokens_of(pool, chosen.drop_last());
        let all: Seq<Seq<char>> = tokens_of(pool, chosen);
        assert forall|i: int| 0 <= i < before.len() implies answer_to(
            owners,
            #[trigger] before[i],
        ) is Ok by {
            assert(all[i] == before[i]);
        }
        lemma_payees_known(pool, chosen.drop_last(), owners);
        if !entry.free {
            assert(all[before.len() as int] == entry.token_id);
        }
    }
}

/// That a round is closed is told and never kept: an open round is told to be
/// closed from its close on, and every other status as it is kept.
pub proof fn law_closed_is_never_kept(s: StateView, id: u64, round: RoundView, now: u64)
    requires
        s.wf(),
        find(s.rounds, id) == Some(round),
    ensures
        round.status != RoundStatus::Closed,
        status_at(round, now) == RoundStatus::Closed <==> id >= s.next_unsettled_id && now
            >= round.close_time,
        id < s.next_unsettled_id ==> status_at(round, now) == round.status,
{
    let i: int = lemma_find_some(s.rounds, id);
    assert(s.round_ok(s.rounds[i].0, s.rounds[i].1));
}

/// Rounds close one after the other, in the order of their ids.
pub proof fn law_close_times_grow(
    s: StateView,
    i: u64,
    earlier: RoundView,
    j: u64,
    later: RoundView,
)
    requires
        s.wf(),
        i < j,
        find(s.rounds, i) == Some(earlier),
        find(s.rounds, j) == Some(later),
    ensures
        earlier.close_time < later.close_time,
{
    let a: int = lemma_find_some(s.rounds, i);
    let b: int = lemma_find_some(s.rounds, j);
    if b < a {
        assert(s.rounds[b].0 < s.rounds[a].0);
    }
    assert(s.rounds[a].1.close_time < s.rounds[b].1.close_time);
}

/// A settled round says whether some entry it looked at is older than its
/// commitment.
pub proof fn law_late_entries_are_flagged(
    s: StateView,
    call: Call,
    after: StateView,
    response: ResponseView,
    id: u64,
    round: RoundView,
)
    requires
        s.wf(),
        goes(s, call, after, response),
        settles(call.msg) == Some(id),
        find(after.rounds, id) == Some(round),
        round.status != RoundStatus::RolledOver,
    ensures
        round.has_late_entries == any_before(basis_of(s, call, id).rows, round.opened_at),
{
    lemma_settlement(s, call, after, response, id);
    lemma_put(s.rounds, id, record_of(s, call, id));
}

/// Entries stand in the order of their times.
pub open spec fn in_time_order(rows: EntryRows) -> bool {
    forall|i: int, j: int|
        0 <= i < j < rows.len() ==> (#[trigger] rows[i]).1.recorded_at <= (
        #[trigger] rows[j]).1.recorded_at
}

/// As long as time does not run backwards, entries stay in the order of their
/// times.
pub proof fn law_entries_stay_in_time_order(
    s: StateView,
    call: Call,
    after: StateView,
    response: ResponseView,
)
    requires
        s.wf(),
        has_room(s, call.msg),
        goes(s, call, after, response),
        in_time_order(s.entries),
        forall|i: int|
            0 <= i < s.entries.len() ==> (#[trigger] s.entries[i]).1.recorded_at <= call.env.time,
    ensures
        in_time_order(after.entries),
        forall|i: int|
            0 <= i < after.entries.len() ==> (#[trigger] after.entries[i]).1.recorded_at
                <= call.env.time,
{
    law_entries_are_never_changed(s, call, after, response);
    assert forall|i: int| 0 <= i < s.entries.len() implies #[trigger] after.entries[i]
        == s.entries[i] by {
        assert(after.entries.take(s.entries.len() as int)[i] == after.entries[i]);
    }
}

/// A round that is opened before the one before it closes is never flagged, if
/// that one is drawn: everything behind it came after it closed, and so after
/// the next was opened. `later` is what is recorded by the time the next round
/// is looked at.
#[verifier::rlimit(40)]
pub proof fn law_a_round_opened_in_time_is_not_flagged(
    s: StateView,
    call: Call,
    after: StateView,
    response: ResponseView,
    id: u64,
    round: RoundView,
    later: EntryRows,
    opened_at: u64,
    close_time: u64,
)
    requires
        s.wf(),
        has_room(s, call.msg),
        goes(s, call, after, response),
        settles(call.msg) == Some(id),
        find(after.rounds, id) == Some(round),
        round.status == RoundStatus::Drawn,
        basis_of(s, call, id).rows.len() < MAX_SCAN,
        ascending(later),
        in_time_order(later),
        s.entries.len() <= later.len(),
        later.take(s.entries.len() as int) == s.entries,
        forall|i: int|
            s.entries.len() <= i < later.len() ==> {
                &&& s.next_entry_id <= (#[trigger] later[i]).0
                &&& call.env.time <= later[i].1.recorded_at
            },
        opened_at <= round.close_time,
    ensures
        start_of(after, (id + 1) as u64) matches Ok(first) && !any_before(
            covered(later, first, close_time),
            opened_at,
        ),
{
    law_a_draw_consumes_what_it_covers(s, call, after, response, id, round);
    lemma_settlement(s, call, after, response, id);
    lemma_put(s.rounds, id, record_of(s, call, id));
    lemma_start_of(s, id);
    let b: Basis = basis_of(s, call, id);
    lemma_last_id(s, b.first, b.round.close_time);
    law_a_round_covers_what_came_in_time(s.entries, b.first, b.round.close_time);
    let next: u64 = (last_id(b.rows, b.first) + 1) as u64;
    let p: int = position(s.entries, next as int);
    lemma_position(s.entries, next as int);
    assert forall|j: int| 0 <= j < s.entries.len() implies #[trigger] later[j] == s.entries[j] by {
        assert(later.take(s.entries.len() as int)[j] == later[j]);
    }
    lemma_position_is(later, next as int, p);
    let rows: EntryRows = covered(later, next, close_time);
    lemma_boundary(later, next, close_time);
    assert forall|i: int| 0 <= i < rows.len() implies (#[trigger] rows[i]).1.recorded_at
        >= opened_at by {
        assert(rows[i] == later[p + i]);
        if p < s.entries.len() {
            assert(rows_from(s.entries, next as int)[0] == s.entries[p]);
            assert(later[p] == s.entries[p]);
            if i > 0 {
                assert(later[p].1.recorded_at <= later[p + i].1.recorded_at);
            }
        }
    }
}

} // verus!
