//! Settling a closed round: drawing it, skipping it or rolling it over.

use vstd::prelude::*;

use crate::bytes::{copied, joined, same_bytes, to_be_bytes};
use crate::digest::{base64, base64_of, multiply_ratio, sha256, sha256_of};
use crate::draw::{
    capped, choose_winners, indexes, last_id, money, point_into, scan_round, tickets, EntryRows,
    Scan, Winner, MAX_SCAN,
};
use crate::error::{viewed, ContractError, ContractErrorView, StdError, StdErrorView};
use crate::msg::{
    answer_views, find_answer, report, send_views, Answer, AnswerView, BankSend, BankSendView, Env,
    Response, ResponseView,
};
use crate::outcome::accords;
use crate::rules::{
    after_settlement, and_send, basis, can_move_on, decimals, draw_sends, drawn_round,
    execute_draw_outcome, is_stale, lemma_and_send, lemma_boundary, lemma_draw_sends,
    lemma_payees_error, lemma_prizes, lemma_settled_wf, lemma_settlement_wf, lemma_share,
    lemma_share_is, lemma_share_sum_bound, lemma_share_sum_take, lemma_start_of,
    lemma_terms_fair, lemma_within_pot, payees, prizes, rolled_round, rollover_outcome, sent,
    settle_stale_outcome, settleable, settled, share, skip_report, skipped_round, start_of, Basis,
};
use crate::state::{
    opt_bytes, share_sum, Entry, EntryView, Round, RoundStatus, RoundTerms, RoundView, State,
    StateView, NANOS, WHOLE_BPS,
};
use crate::table::{find, lemma_find_some, position, Table};
use crate::text::{comma_joined, decimal, decimal_text, join_with_commas, texts};

verus! {

/// The part of `amount` that `rate` basis points are, rounded down.
pub fn bps(amount: u128, rate: u64) -> (part: u128)
    requires
        share(amount, rate) <= u128::MAX,
    ensures
        part == share(amount, rate),
{
    proof {
        lemma_share_is(amount, rate);
    }
    multiply_ratio(amount, rate as u128, WHOLE_BPS as u128)
}

/// The round under an id.
pub fn load_round(rounds: &Table<Round>, round_id: u64) -> (round: Result<Round, ContractError>)
    ensures
        viewed(round) == (match find(rounds@, round_id) {
            Some(r) => Ok(r),
            None => Err(ContractErrorView::RoundNotFound { round_id }),
        }),
{
    match rounds.get(round_id) {
        Some(round) => Ok(round.clone()),
        None => Err(ContractError::RoundNotFound { round_id }),
    }
}

/// The first entry id of a round.
pub fn first_entry_of(state: &State, round_id: u64) -> (first: Result<u64, ContractError>)
    requires
        state@.wf(),
    ensures
        viewed(first) == start_of(state@, round_id),
        first matches Ok(id) ==> 1 <= id <= state.next_entry_id,
{
    if round_id <= 1 {
        return Ok(1);
    }
    proof {
        if find(state@.rounds, (round_id - 1) as u64) is Some {
            let i: int = lemma_find_some(state@.rounds, (round_id - 1) as u64);
            assert(state@.round_ok(state@.rounds[i].0, state@.rounds[i].1));
        }
    }
    match load_round(&state.rounds, round_id - 1) {
        Ok(previous) => match previous.last_entry_id {
            Some(last) => Ok(last + 1),
            None => Ok(1),
        },
        Err(e) => Err(e),
    }
}

/// The round, if it is next in order and has closed.
pub fn check_settleable(state: &State, now: u64, round_id: u64) -> (round: Result<
    Round,
    ContractError,
>)
    ensures
        viewed(round) == settleable(state@, now, round_id),
{
    let next: u64 = state.next_unsettled_id;
    if round_id < next {
        return Err(ContractError::AlreadySettled { round_id });
    }
    if round_id > next {
        return Err(ContractError::OutOfOrder { expected: next });
    }
    match load_round(&state.rounds, round_id) {
        Ok(round) => {
            if now < round.close_time {
                Err(ContractError::NotClosed { round_id })
            } else {
                Ok(round)
            }
        },
        Err(e) => Err(e),
    }
}

/// The terms a round is settled on.
fn terms_of(state: &State, round: &Round) -> (terms: RoundTerms)
    ensures
        terms@ == round@.terms_under(state@.config),
{
    match &round.terms {
        Some(terms) => terms.clone(),
        None => state.config.terms(),
    }
}

/// Whether the round has waited for its secret as long as its terms say.
fn overdue(close_time: u64, stale_after_secs: u64, now: u64) -> (stale: bool)
    ensures
        stale == (now >= close_time + stale_after_secs * NANOS),
{
    proof {
        assert(stale_after_secs * NANOS <= u64::MAX * NANOS) by (nonlinear_arith)
            requires
                stale_after_secs <= u64::MAX,
        ;
    }
    now as u128 >= close_time as u128 + stale_after_secs as u128 * NANOS as u128
}

/// The money of the entries from a place in the table on, capped at the
/// largest amount there is.
fn money_from(entries: &Table<Entry>, start: usize) -> (amount: u128)
    requires
        start <= entries@.len(),
    ensures
        amount == capped(money(entries@.skip(start as int))),
{
    let ghost tail: EntryRows = entries@.skip(start as int);
    let mut amount: u128 = 0;
    let mut i: usize = start;
    assert(tail.take(0) =~= Seq::empty());
    while i < entries.rows.len()
        invariant
            start <= i <= entries@.len() == entries.rows@.len(),
            tail == entries@.skip(start as int),
            amount == capped(money(tail.take(i - start))),
        decreases entries.rows@.len() - i,
    {
        assert(tail.take(i - start + 1).drop_last() =~= tail.take(i - start));
        assert(tail[i - start] == entries@[i as int]);
        amount = amount.saturating_add(entries.rows[i].1.amount);
        i = i + 1;
    }
    assert(tail.take(i - start) =~= tail);
    amount
}

/// A round that is about to be settled, and what its entries add up to.
struct Plan {
    round: Round,
    terms: RoundTerms,
    scan: Scan,
    pot: u128,
}

impl Plan {
    /// The plan tells what the round is settled on.
    closed spec fn tells(&self, entries: EntryRows, round_id: u64, b: Basis) -> bool {
        &&& self.round@ == b.round
        &&& self.terms@ == b.terms
        &&& self.scan.tells(b.rows, b.first, round_id, b.round.seed_hash, b.round.opened_at)
        &&& self.scan.entropy@ == b.entropy
        &&& self.pot == b.pot
        &&& self.scan.total_entries <= MAX_SCAN * u32::MAX
        &&& self.scan.start <= self.scan.end <= entries.len()
        &&& entries.subrange(self.scan.start as int, self.scan.end as int) == b.rows
        &&& self.scan.start == position(entries, b.first as int)
        &&& b.first >= 1
    }
}

/// What a round is settled on, if it can be told where it starts.
fn plan_round(state: &State, balance: u128, round_id: u64, round: Round) -> (plan: Result<
    Plan,
    ContractError,
>)
    requires
        state@.wf(),
    ensures
        match start_of(state@, round_id) {
            Ok(first) => plan matches Ok(p) && p.tells(
                state@.entries,
                round_id,
                basis(state@, balance, round_id, round@, first),
            ),
            Err(error) => plan matches Err(e) && e@ == error,
        },
{
    let first: u64 = match first_entry_of(state, round_id) {
        Ok(first) => first,
        Err(e) => return Err(e),
    };
    let scan: Scan = scan_round(
        &state.entries,
        first,
        round_id,
        &round.seed_hash,
        round.opened_at,
        round.close_time,
    );
    let sum: u128 = scan.amount.saturating_add(state.carry);
    let pot: u128 = if sum <= balance {
        sum
    } else {
        balance
    };
    let terms: RoundTerms = terms_of(state, &round);
    Ok(Plan { round, terms, scan, pot })
}

/// What is paid to whom for the winners, or why the first of them cannot be
/// told.
fn find_payees(
    entries: &Table<Entry>,
    winners: &Vec<Winner>,
    owners: &Vec<Answer>,
    Ghost(pool): Ghost<EntryRows>,
) -> (to: Result<Vec<String>, StdError>)
    requires
        point_into(winners@, entries@, pool),
    ensures
        match payees(pool, indexes(winners@), answer_views(owners@)) {
            Ok(list) => to matches Ok(t) && texts(t@) == list && list.len() == winners@.len(),
            Err(error) => to matches Err(e) && e@ == error,
        },
{
    let ghost chosen: Seq<u64> = indexes(winners@);
    let ghost views: Seq<AnswerView> = answer_views(owners@);
    let mut to: Vec<String> = Vec::new();
    let mut k: usize = 0;
    assert(chosen.take(0) =~= Seq::empty());
    assert(texts(to@) =~= Seq::empty());
    while k < winners.len()
        invariant
            k <= winners@.len(),
            chosen == indexes(winners@),
            views == answer_views(owners@),
            point_into(winners@, entries@, pool),
            payees(pool, chosen.take(k as int), views) == Ok::<_, StdErrorView>(texts(to@)),
            to@.len() == k,
        decreases winners@.len() - k,
    {
        let ghost w: Winner = winners@[k as int];
        assert(w.row < entries@.len());
        let entry: &Entry = &entries.rows[winners[k].row].1;
        proof {
            assert(chosen.take(k + 1).drop_last() =~= chosen.take(k as int));
            assert(chosen.take(k + 1).last() == w.index);
            assert(entries@[w.row as int] == pool[w.index as int]);
            assert(entries@[w.row as int].1 == entry@);
        }
        let address: String = if entry.free {
            entry.minter.clone()
        } else {
            match find_answer(owners, &entry.token_id) {
                Ok(address) => address,
                Err(e) => {
                    proof {
                        lemma_payees_error(pool, chosen, k + 1, views);
                    }
                    return Err(e);
                },
            }
        };
        let ghost earlier: Seq<Seq<char>> = texts(to@);
        to.push(address);
        assert(texts(to@) =~= earlier.push(address@));
        k = k + 1;
    }
    assert(chosen.take(k as int) =~= chosen);
    Ok(to)
}

/// Adds a message, unless it would send nothing.
fn push_send(messages: &mut Vec<BankSend>, to_address: &String, amount: u128, denom: &String)
    ensures
        send_views(final(messages)@) == and_send(
            send_views(old(messages)@),
            to_address@,
            amount as nat,
            denom@,
        ),
{
    let ghost before: Seq<BankSendView> = send_views(messages@);
    if amount > 0 {
        messages.push(
            BankSend { to_address: to_address.clone(), amount, denom: denom.clone() },
        );
        assert(send_views(messages@) =~= before.push(
            BankSendView { to_address: to_address@, amount, denom: denom@ },
        ));
    }
}

/// All that a draw sends once the winners are known, and how much that is.
pub fn build_sends(
    state: &State,
    terms: &RoundTerms,
    pot: u128,
    to: &Vec<String>,
    caller: &String,
) -> (sends: (Vec<BankSend>, u128))
    requires
        terms@.fair(),
        to@.len() <= terms@.payout_bps.len(),
    ensures
        send_views(sends.0@) == draw_sends(state@.config, terms@, pot, texts(to@), caller@),
        sends.1 == sent(send_views(sends.0@)),
        sends.1 <= pot,
{
    let ghost list: Seq<Seq<char>> = texts(to@);
    let ghost shares: Seq<u64> = terms@.payout_bps;
    let ghost denom: Seq<char> = state.config.denom@;
    let mut messages: Vec<BankSend> = Vec::new();
    let mut paid: u128 = 0;
    let mut i: usize = 0;
    assert(list.take(0) =~= Seq::empty());
    assert(send_views(messages@) =~= Seq::empty());
    proof {
        lemma_draw_sends(state@.config, terms@, pot, list, caller@);
    }
    while i < to.len()
        invariant
            i <= to@.len() <= shares.len(),
            list == texts(to@),
            shares == terms@.payout_bps,
            denom == state.config.denom@,
            terms@.fair(),
            send_views(messages@) == prizes(list.take(i as int), shares, pot, denom),
            paid == sent(send_views(messages@)),
        decreases to@.len() - i,
    {
        let ghost before: Seq<BankSendView> = send_views(messages@);
        let rate: u64 = terms.payout_bps[i];
        proof {
            assert(list.take(i + 1).drop_last() =~= list.take(i as int));
            assert(list.take(i + 1).last() == to@[i as int]@);
            lemma_share_sum_bound(shares, i as int);
            lemma_share(pot, rate);
            lemma_and_send(before, to@[i as int]@, share(pot, rate), denom);
            lemma_prizes(list.take(i + 1), shares, pot, denom);
            lemma_share_sum_take(shares, i + 1);
            lemma_within_pot(
                sent(prizes(list.take(i + 1), shares, pot, denom)),
                pot,
                share_sum(shares.take(i + 1)),
            );
        }
        let amount: u128 = bps(pot, rate);
        push_send(&mut messages, &to[i], amount, &state.config.denom);
        paid = paid + amount;
        i = i + 1;
    }
    assert(list.take(i as int) =~= list);
    proof {
        lemma_share(pot, terms.treasury_bps);
        lemma_share(pot, terms.caller_bps);
    }
    let to_treasury: u128 = bps(pot, terms.treasury_bps);
    let to_caller: u128 = bps(pot, terms.caller_bps);
    proof {
        lemma_and_send(send_views(messages@), state.config.treasury@, to_treasury as nat, denom);
    }
    push_send(&mut messages, &state.config.treasury, to_treasury, &state.config.denom);
    proof {
        lemma_and_send(send_views(messages@), caller@, to_caller as nat, denom);
    }
    push_send(&mut messages, caller, to_caller, &state.config.denom);
    (messages, paid + to_treasury + to_caller)
}

/// The numbers of the winning tickets.
fn winner_indexes(winners: &Vec<Winner>) -> (numbers: Vec<u64>)
    ensures
        numbers@ == indexes(winners@),
{
    let mut numbers: Vec<u64> = Vec::new();
    let mut i: usize = 0;
    while i < winners.len()
        invariant
            i <= winners@.len(),
            numbers@ == indexes(winners@).take(i as int),
        decreases winners@.len() - i,
    {
        numbers.push(winners[i].index);
        assert(numbers@ =~= indexes(winners@).take(i + 1));
        i = i + 1;
    }
    assert(numbers@ =~= indexes(winners@));
    numbers
}

/// The numbers in decimal.
fn decimal_texts(numbers: &Vec<u64>) -> (list: Vec<String>)
    ensures
        texts(list@) == decimals(numbers@),
{
    let mut list: Vec<String> = Vec::new();
    let mut i: usize = 0;
    while i < numbers.len()
        invariant
            i <= numbers@.len(),
            texts(list@) == decimals(numbers@).take(i as int),
        decreases numbers@.len() - i,
    {
        let ghost before: Seq<Seq<char>> = texts(list@);
        list.push(decimal_text(numbers[i] as u128));
        assert(texts(list@) =~= before.push(decimal(numbers@[i as int] as nat)));
        assert(texts(list@) =~= decimals(numbers@).take(i + 1));
        i = i + 1;
    }
    assert(texts(list@) =~= decimals(numbers@));
    list
}

/// Draws a round: its result, and the winners of its places.
fn draw(
    state: &State,
    plan: &Plan,
    round_id: u64,
    key: &Vec<u8>,
    Ghost(b): Ghost<Basis>,
) -> (drawn: (Vec<u8>, Vec<Winner>))
    requires
        plan.tells(state@.entries, round_id, b),
    ensures
        drawn.0@ == b.result(round_id, key@),
        drawn.0@.len() == 32,
        indexes(drawn.1@) == b.chosen(round_id, key@),
        drawn.1@.len() <= b.terms.payout_bps.len(),
        point_into(drawn.1@, state@.entries, tickets(b.rows)),
{
    let with_entropy: Vec<u8> = joined(key, plan.scan.entropy.as_slice());
    let result: Vec<u8> = sha256(&joined(&with_entropy, to_be_bytes(round_id).as_slice()));
    let shares: u64 = plan.terms.payout_bps.len() as u64;
    let places: u64 = if shares <= plan.scan.total_entries {
        shares
    } else {
        plan.scan.total_entries
    };
    let winners: Vec<Winner> = choose_winners(
        &state.entries,
        plan.scan.start,
        plan.scan.end,
        plan.scan.total_entries,
        &result,
        places,
    );
    (result, winners)
}

/// What a skip reports.
fn skip_response(round_id: u64, total: u64, pot: u128) -> (response: Response)
    ensures
        response@ == report(
            seq![
                ("action"@, "skip_round"@),
                ("round_id"@, decimal(round_id as nat)),
                ("entries"@, decimal(total as nat)),
                ("pot"@, decimal(pot as nat)),
            ],
        ),
{
    Response::new().add_attribute("action", "skip_round".to_owned()).add_attribute(
        "round_id",
        decimal_text(round_id as u128),
    ).add_attribute("entries", decimal_text(total as u128)).add_attribute("pot", decimal_text(pot))
}

/// What a draw sends and reports.
fn draw_response(
    action: &str,
    round_id: u64,
    total: u64,
    pot: u128,
    paid: u128,
    result: &Vec<u8>,
    numbers: &Vec<u64>,
    to: &Vec<String>,
    messages: Vec<BankSend>,
) -> (response: Response)
    requires
        result@.len() == 32,
    ensures
        response@ == (ResponseView {
            messages: send_views(messages@),
            attributes: seq![
                ("action"@, action@),
                ("round_id"@, decimal(round_id as nat)),
                ("entries"@, decimal(total as nat)),
                ("pot"@, decimal(pot as nat)),
                ("paid"@, decimal(paid as nat)),
                ("result"@, base64_of(result@)),
                ("winner_indexes"@, comma_joined(decimals(numbers@))),
                ("winners"@, comma_joined(texts(to@))),
            ],
        }),
{
    Response::new().with_messages(messages).add_attribute(
        "action",
        action.to_owned(),
    ).add_attribute("round_id", decimal_text(round_id as u128)).add_attribute(
        "entries",
        decimal_text(total as u128),
    ).add_attribute("pot", decimal_text(pot)).add_attribute("paid", decimal_text(paid)).add_attribute(
        "result",
        base64(result),
    ).add_attribute("winner_indexes", join_with_commas(&decimal_texts(numbers))).add_attribute(
        "winners",
        join_with_commas(to),
    )
}

/// Writes a settled round down and moves on to the next.
fn close_round(
    state: &mut State,
    balance: u128,
    round_id: u64,
    round: Round,
    paid: u128,
    place: usize,
    Ghost(boundary): Ghost<int>,
)
    requires
        round_id < u64::MAX,
        place == position(old(state)@.entries, boundary),
        place <= old(state)@.entries.len(),
        paid <= balance,
    ensures
        final(state)@ == after_settlement(
            old(state)@,
            balance,
            round_id,
            round@,
            paid as nat,
            boundary,
        ),
{
    let pending: u128 = money_from(&state.entries, place);
    state.rounds.put(round_id, round);
    state.next_unsettled_id = round_id + 1;
    state.carry = (balance - paid).saturating_sub(pending);
}

/// Skips a round that there is too little to run.
fn skip_round(
    state: &mut State,
    env: &Env,
    round_id: u64,
    plan: Plan,
    secret: Option<Vec<u8>>,
    Ghost(b): Ghost<Basis>,
) -> (response: Response)
    requires
        plan.tells(old(state)@.entries, round_id, b),
        round_id < u64::MAX,
    ensures
        response@ == skip_report(round_id, b),
        final(state)@ == after_settlement(
            old(state)@,
            env.balance,
            round_id,
            skipped_round(b, opt_bytes(secret), env.time),
            0,
            b.first as int,
        ),
{
    let response: Response = skip_response(round_id, plan.scan.total_entries, plan.pot);
    let place: usize = plan.scan.start;
    let first: u64 = plan.scan.first_entry_id;
    let round: Round = Round {
        status: RoundStatus::Skipped,
        first_entry_id: Some(first),
        last_entry_id: Some(first - 1),
        secret,
        entropy: Some(plan.scan.entropy),
        total_entries: Some(plan.scan.total_entries),
        settled_at: Some(env.time),
        has_late_entries: plan.scan.has_late_entries,
        ..plan.round
    };
    assert(round@ == skipped_round(b, opt_bytes(secret), env.time));
    close_round(state, env.balance, round_id, round, 0, place, Ghost(first as int));
    response
}

/// Draws a round and pays it.
fn pay_round(
    state: &mut State,
    env: &Env,
    caller: &String,
    action: &str,
    round_id: u64,
    plan: Plan,
    key: &Vec<u8>,
    secret: Option<Vec<u8>>,
    owners: &Vec<Answer>,
    Ghost(b): Ghost<Basis>,
) -> (result: Result<Response, ContractError>)
    requires
        plan.tells(old(state)@.entries, round_id, b),
        round_id < u64::MAX,
        b.runs(),
        b.terms.fair(),
        b.pot <= env.balance,
        position(old(state)@.entries, last_id(b.rows, b.first) + 1) == plan.scan.end,
    ensures
        accords(
            result,
            old(state)@,
            final(state)@,
            settled(
                old(state)@,
                *env,
                caller@,
                action@,
                round_id,
                b,
                key@,
                opt_bytes(secret),
                answer_views(owners@),
            ),
        ),
{
    let (drawn, winners) = draw(state, &plan, round_id, key, Ghost(b));
    let to: Vec<String> = match find_payees(
        &state.entries,
        &winners,
        owners,
        Ghost(tickets(b.rows)),
    ) {
        Ok(to) => to,
        Err(e) => return Err(ContractError::Std(e)),
    };
    let (messages, paid) = build_sends(state, &plan.terms, plan.pot, &to, caller);
    let numbers: Vec<u64> = winner_indexes(&winners);
    let response: Response = draw_response(
        action,
        round_id,
        plan.scan.total_entries,
        plan.pot,
        paid,
        &drawn,
        &numbers,
        &to,
        messages,
    );
    let ghost list: Seq<Seq<char>> = texts(to@);
    let place: usize = plan.scan.end;
    let round: Round = Round {
        status: RoundStatus::Drawn,
        first_entry_id: Some(plan.scan.first_entry_id),
        last_entry_id: Some(plan.scan.last_entry_id),
        secret,
        entropy: Some(plan.scan.entropy),
        result: Some(drawn),
        total_entries: Some(plan.scan.total_entries),
        winner_indexes: numbers,
        winners: to,
        pot: Some(plan.pot),
        settled_at: Some(env.time),
        has_late_entries: plan.scan.has_late_entries,
        ..plan.round
    };
    assert(round@ == drawn_round(b, round_id, key@, opt_bytes(secret), list, env.time));
    close_round(
        state,
        env.balance,
        round_id,
        round,
        paid,
        place,
        Ghost(last_id(b.rows, b.first) + 1),
    );
    Ok(response)
}

/// Settles a closed round: skips it if there is too little to run it, draws it
/// otherwise.
fn settle(
    state: &mut State,
    env: &Env,
    caller: &String,
    action: &str,
    round_id: u64,
    round: Round,
    key: &Vec<u8>,
    secret: Option<Vec<u8>>,
    owners: &Vec<Answer>,
) -> (result: Result<Response, ContractError>)
    requires
        old(state)@.wf(),
        can_move_on(old(state)@),
        settleable(old(state)@, env.time, round_id) == Ok::<_, ContractErrorView>(round@),
    ensures
        accords(
            result,
            old(state)@,
            final(state)@,
            match start_of(old(state)@, round_id) {
                Ok(first) => settled(
                    old(state)@,
                    *env,
                    caller@,
                    action@,
                    round_id,
                    basis(old(state)@, env.balance, round_id, round@, first),
                    key@,
                    opt_bytes(secret),
                    answer_views(owners@),
                ),
                Err(e) => Err(e),
            },
        ),
        final(state)@.wf(),
{
    let ghost s: StateView = state@;
    proof {
        lemma_settled_wf(
            s,
            *env,
            caller@,
            action@,
            round_id,
            round@,
            key@,
            opt_bytes(secret),
            answer_views(owners@),
        );
        lemma_terms_fair(s, round_id);
        lemma_start_of(s, round_id);
        let i: int = lemma_find_some(s.rounds, round_id);
        assert(s.round_ok(s.rounds[i].0, s.rounds[i].1));
    }
    let plan: Plan = match plan_round(state, env.balance, round_id, round) {
        Ok(plan) => plan,
        Err(e) => return Err(e),
    };
    let ghost first: u64 = start_of(s, round_id)->Ok_0;
    let ghost b: Basis = basis(s, env.balance, round_id, round@, first);
    proof {
        lemma_boundary(s.entries, first, round@.close_time);
    }
    if plan.scan.total_entries < plan.terms.min_entries || plan.pot < plan.terms.min_pot {
        Ok(skip_round(state, env, round_id, plan, secret, Ghost(b)))
    } else {
        pay_round(state, env, caller, action, round_id, plan, key, secret, owners, Ghost(b))
    }
}

/// Settles a round with its secret. Anyone may.
pub fn execute_draw(
    state: &mut State,
    env: &Env,
    caller: &String,
    round_id: u64,
    secret: Vec<u8>,
    owners: &Vec<Answer>,
) -> (result: Result<Response, ContractError>)
    requires
        old(state)@.wf(),
        can_move_on(old(state)@),
    ensures
        accords(
            result,
            old(state)@,
            final(state)@,
            execute_draw_outcome(
                old(state)@,
                *env,
                caller@,
                round_id,
                secret@,
                answer_views(owners@),
            ),
        ),
        final(state)@.wf(),
{
    let round: Round = match check_settleable(state, env.time, round_id) {
        Ok(round) => round,
        Err(e) => return Err(e),
    };
    if !same_bytes(&sha256(&secret), &round.seed_hash) {
        return Err(ContractError::SecretMismatch {  });
    }
    let key: Vec<u8> = copied(&secret);
    settle(state, env, caller, "execute_draw", round_id, round, &key, Some(secret), owners)
}

/// Settles a round whose secret is overdue. Anyone may.
pub fn settle_stale(
    state: &mut State,
    env: &Env,
    caller: &String,
    round_id: u64,
    owners: &Vec<Answer>,
) -> (result: Result<Response, ContractError>)
    requires
        old(state)@.wf(),
        can_move_on(old(state)@),
    ensures
        accords(
            result,
            old(state)@,
            final(state)@,
            settle_stale_outcome(old(state)@, *env, caller@, round_id, answer_views(owners@)),
        ),
        final(state)@.wf(),
{
    let round: Round = match check_settleable(state, env.time, round_id) {
        Ok(round) => round,
        Err(e) => return Err(e),
    };
    let secs: u64 = terms_of(state, &round).stale_after_secs;
    if !overdue(round.close_time, secs, env.time) {
        return Err(ContractError::NotStale { round_id, secs });
    }
    let key: Vec<u8> = copied(&round.seed_hash);
    settle(state, env, caller, "settle_stale", round_id, round, &key, None, owners)
}

/// Rolls over a round whose secret is overdue and that there is too little to
/// run. Anyone may.
pub fn rollover_round(state: &mut State, env: &Env, round_id: u64) -> (result: Result<
    Response,
    ContractError,
>)
    requires
        old(state)@.wf(),
        can_move_on(old(state)@),
    ensures
        accords(
            result,
            old(state)@,
            final(state)@,
            rollover_outcome(old(state)@, *env, round_id),
        ),
        final(state)@.wf(),
{
    let ghost s: StateView = state@;
    let round: Round = match check_settleable(state, env.time, round_id) {
        Ok(round) => round,
        Err(e) => return Err(e),
    };
    proof {
        let i: int = lemma_find_some(s.rounds, round_id);
        assert(s.round_ok(s.rounds[i].0, s.rounds[i].1));
        lemma_start_of(s, round_id);
    }
    let secs: u64 = terms_of(state, &round).stale_after_secs;
    if !overdue(round.close_time, secs, env.time) {
        return Err(ContractError::NotStale { round_id, secs });
    }
    let plan: Plan = match plan_round(state, env.balance, round_id, round) {
        Ok(plan) => plan,
        Err(e) => return Err(e),
    };
    if plan.scan.total_entries >= plan.terms.min_entries && plan.pot >= plan.terms.min_pot {
        return Err(ContractError::RoundIsDrawable { round_id });
    }
    let first: u64 = plan.scan.first_entry_id;
    let place: usize = plan.scan.start;
    let rolled: Round = Round {
        status: RoundStatus::RolledOver,
        first_entry_id: Some(first),
        last_entry_id: Some(first - 1),
        settled_at: Some(env.time),
        ..plan.round
    };
    proof {
        assert(rolled@ == rolled_round(round@, first, env.time));
        lemma_settlement_wf(s, env.balance, round_id, rolled@, 0, first as int);
    }
    close_round(state, env.balance, round_id, rolled, 0, place, Ghost(first as int));
    let response: Response = Response::new().add_attribute(
        "action",
        "rollover_round".to_owned(),
    ).add_attribute("round_id", decimal_text(round_id as u128));
    assert(response@ == report(
        seq![("action"@, "rollover_round"@), ("round_id"@, decimal(round_id as nat))],
    ));
    assert(!basis(s, env.balance, round_id, round@, first).runs());
    Ok(response)
}

/// The tokens, among the chosen tickets, whose owner is to be asked for.
pub open spec fn tokens_of(pool: EntryRows, chosen: Seq<u64>) -> Seq<Seq<char>>
    decreases chosen.len(),
{
    if chosen.len() == 0 {
        Seq::empty()
    } else {
        let entry: EntryView = pool[chosen.last() as int].1;
        let before: Seq<Seq<char>> = tokens_of(pool, chosen.drop_last());
        if entry.free {
            before
        } else {
            before.push(entry.token_id)
        }
    }
}

/// The tokens whose owner is paid if the round is settled now, with `key` for
/// its secret.
pub open spec fn tokens_paid(
    s: StateView,
    balance: u128,
    round_id: u64,
    round: RoundView,
    key: Seq<u8>,
) -> Seq<Seq<char>> {
    match start_of(s, round_id) {
        Err(e) => Seq::empty(),
        Ok(first) => {
            let b: Basis = basis(s, balance, round_id, round, first);
            if b.runs() {
                tokens_of(tickets(b.rows), b.chosen(round_id, key))
            } else {
                Seq::empty()
            }
        },
    }
}

fn list_tokens(entries: &Table<Entry>, winners: &Vec<Winner>, Ghost(pool): Ghost<EntryRows>) -> (tokens:
    Vec<String>)
    requires
        point_into(winners@, entries@, pool),
    ensures
        texts(tokens@) == tokens_of(pool, indexes(winners@)),
{
    let ghost chosen: Seq<u64> = indexes(winners@);
    let mut tokens: Vec<String> = Vec::new();
    let mut k: usize = 0;
    assert(chosen.take(0) =~= Seq::empty());
    assert(texts(tokens@) =~= Seq::empty());
    while k < winners.len()
        invariant
            k <= winners@.len(),
            chosen == indexes(winners@),
            point_into(winners@, entries@, pool),
            texts(tokens@) == tokens_of(pool, chosen.take(k as int)),
        decreases winners@.len() - k,
    {
        let ghost w: Winner = winners@[k as int];
        assert(w.row < entries@.len());
        let entry: &Entry = &entries.rows[winners[k].row].1;
        proof {
            assert(chosen.take(k + 1).drop_last() =~= chosen.take(k as int));
            assert(chosen.take(k + 1).last() == w.index);
            assert(entries@[w.row as int] == pool[w.index as int]);
            assert(entries@[w.row as int].1 == entry@);
        }
        if !entry.free {
            let ghost before: Seq<Seq<char>> = texts(tokens@);
            tokens.push(entry.token_id.clone());
            assert(texts(tokens@) =~= before.push(entry.token_id@));
        }
        k = k + 1;
    }
    assert(chosen.take(k as int) =~= chosen);
    tokens
}

fn tokens_if_settled(state: &State, balance: u128, round_id: u64, round: Round, key: &Vec<u8>) -> (tokens:
    Vec<String>)
    requires
        state@.wf(),
    ensures
        texts(tokens@) == tokens_paid(state@, balance, round_id, round@, key@),
{
    let none: Vec<String> = Vec::new();
    assert(texts(none@) =~= Seq::empty());
    let plan: Plan = match plan_round(state, balance, round_id, round) {
        Ok(plan) => plan,
        Err(_) => return none,
    };
    let ghost first: u64 = start_of(state@, round_id)->Ok_0;
    let ghost b: Basis = basis(state@, balance, round_id, round@, first);
    if plan.scan.total_entries < plan.terms.min_entries || plan.pot < plan.terms.min_pot {
        return none;
    }
    let (_, winners) = draw(state, &plan, round_id, key, Ghost(b));
    list_tokens(&state.entries, &winners, Ghost(tickets(b.rows)))
}

/// The tokens whose owner has to be known before round `round_id` is settled:
/// with its secret, or without it.
pub open spec fn tokens_to_ask(s: StateView, env: Env, round_id: u64, secret: Option<Seq<u8>>) -> Seq<
    Seq<char>,
> {
    match settleable(s, env.time, round_id) {
        Err(e) => Seq::empty(),
        Ok(round) => match secret {
            Some(secret) => if sha256_of(secret) == round.seed_hash {
                tokens_paid(s, env.balance, round_id, round, secret)
            } else {
                Seq::empty()
            },
            None => if is_stale(round, round.terms_under(s.config), env.time) {
                tokens_paid(s, env.balance, round_id, round, round.seed_hash)
            } else {
                Seq::empty()
            },
        },
    }
}

/// The tokens whose owner has to be asked for before a round is settled, with
/// its secret or without it.
pub fn owners_to_ask(state: &State, env: &Env, round_id: u64, secret: Option<&Vec<u8>>) -> (tokens:
    Vec<String>)
    requires
        state@.wf(),
    ensures
        texts(tokens@) == tokens_to_ask(
            state@,
            *env,
            round_id,
            match secret {
                Some(secret) => Some(secret@),
                None => None,
            },
        ),
{
    let none: Vec<String> = Vec::new();
    assert(texts(none@) =~= Seq::empty());
    let round: Round = match check_settleable(state, env.time, round_id) {
        Ok(round) => round,
        Err(_) => return none,
    };
    match secret {
        Some(secret) => {
            if same_bytes(&sha256(secret), &round.seed_hash) {
                tokens_if_settled(state, env.balance, round_id, round, secret)
            } else {
                none
            }
        },
        None => {
            let secs: u64 = terms_of(state, &round).stale_after_secs;
            let key: Vec<u8> = copied(&round.seed_hash);
            if overdue(round.close_time, secs, env.time) {
                tokens_if_settled(state, env.balance, round_id, round, &key)
            } else {
                none
            }
        },
    }
}

} // verus!