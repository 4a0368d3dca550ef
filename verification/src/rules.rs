//! The rules a closed round is settled by: what it covers, what it pays, and
//! what it leaves.

use vstd::prelude::*;

use crate::bytes::be_bytes;
use crate::digest::{base64_of, sha256_of};
use crate::draw::{
    any_before, covered, entropy_over, entropy_seed, last_id, lemma_run_end, money, places_drawn,
    tickets, winning_tickets, EntryRows, MAX_SCAN,
};
use crate::error::{ContractErrorView, StdErrorView};
use crate::msg::{answer_to, report, AnswerView, BankSendView, Env, ResponseView};
use crate::outcome::Outcome;
use crate::state::{
    share_sum, ConfigView, EntryView, RoundStatus, RoundTermsView, RoundView, StateView, NANOS,
    WHOLE_BPS,
};
use crate::table::{
    ascending, find, lemma_find_some, lemma_position, lemma_position_is, lemma_put, position, put,
    rows_from,
};
use crate::text::{comma_joined, decimal};

verus! {

/// The first entry id of a round: right behind the round before it, so that a
/// round that consumes nothing leaves its entries to the next.
pub open spec fn start_of(s: StateView, round_id: u64) -> Result<u64, ContractErrorView> {
    if round_id <= 1 {
        Ok(1)
    } else {
        let previous: u64 = (round_id - 1) as u64;
        match find(s.rounds, previous) {
            Some(round) => Ok(
                match round.last_entry_id {
                    Some(last) => (last + 1) as u64,
                    None => 1,
                },
            ),
            None => Err(ContractErrorView::RoundNotFound { round_id: previous }),
        }
    }
}

/// The round, if it is next in order and has closed.
pub open spec fn settleable(s: StateView, now: u64, round_id: u64) -> Result<
    RoundView,
    ContractErrorView,
> {
    if round_id < s.next_unsettled_id {
        Err(ContractErrorView::AlreadySettled { round_id })
    } else if round_id > s.next_unsettled_id {
        Err(ContractErrorView::OutOfOrder { expected: s.next_unsettled_id })
    } else {
        match find(s.rounds, round_id) {
            None => Err(ContractErrorView::RoundNotFound { round_id }),
            Some(round) => if now < round.close_time {
                Err(ContractErrorView::NotClosed { round_id })
            } else {
                Ok(round)
            },
        }
    }
}

/// There is an id to move on to once the next round is settled.
pub open spec fn can_move_on(s: StateView) -> bool {
    s.next_unsettled_id < u64::MAX || s.last_round_id < u64::MAX
}

/// The round has waited for its secret as long as its terms say.
pub open spec fn is_stale(round: RoundView, terms: RoundTermsView, now: u64) -> bool {
    now >= round.close_time + terms.stale_after_secs * NANOS
}

/// The pot of a round with these entries: their money and the carry, but never
/// more than the pool holds.
pub open spec fn pot_of(carry: u128, balance: u128, rows: EntryRows) -> u128 {
    if money(rows) + carry <= balance {
        (money(rows) + carry) as u128
    } else {
        balance
    }
}

/// Enough tickets and enough money to run the round.
pub open spec fn drawable(terms: RoundTermsView, rows: EntryRows, pot: u128) -> bool {
    &&& tickets(rows).len() >= terms.min_entries
    &&& pot >= terms.min_pot
}

/// The part of `pot` that `bps` basis points are, rounded down.
pub open spec fn share(pot: u128, bps: u64) -> nat {
    ((pot as int) * (bps as int) / (WHOLE_BPS as int)) as nat
}

/// What a round is settled on.
pub struct Basis {
    pub round: RoundView,
    pub terms: RoundTermsView,
    pub first: u64,
    pub rows: EntryRows,
    pub entropy: Seq<u8>,
    pub pot: u128,
}

/// What round `round_id` is settled on, when it starts at entry `first`.
pub open spec fn basis(s: StateView, balance: u128, round_id: u64, round: RoundView, first: u64) -> Basis {
    let rows: EntryRows = covered(s.entries, first, round.close_time);
    Basis {
        round,
        terms: round.terms_under(s.config),
        first,
        rows,
        entropy: entropy_over(entropy_seed(round_id, round.seed_hash), rows),
        pot: pot_of(s.carry, balance, rows),
    }
}

impl Basis {
    /// Whether the round runs.
    pub open spec fn runs(self) -> bool {
        drawable(self.terms, self.rows, self.pot)
    }

    /// The result of the round, from the secret or from what stands in for it.
    pub open spec fn result(self, round_id: u64, key: Seq<u8>) -> Seq<u8> {
        sha256_of(key + self.entropy + be_bytes(round_id))
    }

    /// The winning tickets.
    pub open spec fn chosen(self, round_id: u64, key: Seq<u8>) -> Seq<u64> {
        winning_tickets(
            tickets(self.rows),
            self.result(round_id, key),
            places_drawn(self.terms.payout_bps.len(), tickets(self.rows).len()),
        )
    }
}

/// Who is paid for a ticket of this entry: the wallet that earned a free one,
/// and the token's owner of the day otherwise.
pub open spec fn payee(entry: EntryView, owners: Seq<AnswerView>) -> Result<
    Seq<char>,
    StdErrorView,
> {
    if entry.free {
        Ok(entry.minter)
    } else {
        answer_to(owners, entry.token_id)
    }
}

/// Who is paid for the chosen tickets, in order, or why the first of them
/// cannot be told.
pub open spec fn payees(pool: EntryRows, chosen: Seq<u64>, owners: Seq<AnswerView>) -> Result<
    Seq<Seq<char>>,
    StdErrorView,
>
    decreases chosen.len(),
{
    if chosen.len() == 0 {
        Ok(Seq::empty())
    } else {
        match payees(pool, chosen.drop_last(), owners) {
            Err(e) => Err(e),
            Ok(list) => match payee(pool[chosen.last() as int].1, owners) {
                Err(e) => Err(e),
                Ok(address) => Ok(list.push(address)),
            },
        }
    }
}

/// The messages with one more, unless it would send nothing.
pub open spec fn and_send(
    messages: Seq<BankSendView>,
    to_address: Seq<char>,
    amount: nat,
    denom: Seq<char>,
) -> Seq<BankSendView> {
    if amount > 0 {
        messages.push(BankSendView { to_address, amount: amount as u128, denom })
    } else {
        messages
    }
}

/// The prizes: the winner in place `i` gets the share of place `i`.
pub open spec fn prizes(to: Seq<Seq<char>>, shares: Seq<u64>, pot: u128, denom: Seq<char>) -> Seq<
    BankSendView,
>
    decreases to.len(),
{
    if to.len() == 0 {
        Seq::empty()
    } else {
        and_send(
            prizes(to.drop_last(), shares, pot, denom),
            to.last(),
            share(pot, shares[to.len() - 1]),
            denom,
        )
    }
}

/// All that a draw sends: the prizes, the treasury's share, the caller's share.
pub open spec fn draw_sends(
    config: ConfigView,
    terms: RoundTermsView,
    pot: u128,
    to: Seq<Seq<char>>,
    caller: Seq<char>,
) -> Seq<BankSendView> {
    and_send(
        and_send(
            prizes(to, terms.payout_bps, pot, config.denom),
            config.treasury,
            share(pot, terms.treasury_bps),
            config.denom,
        ),
        caller,
        share(pot, terms.caller_bps),
        config.denom,
    )
}

/// What the messages send in all.
pub open spec fn sent(messages: Seq<BankSendView>) -> nat
    decreases messages.len(),
{
    if messages.len() == 0 {
        0
    } else {
        sent(messages.drop_last()) + messages.last().amount as nat
    }
}

/// The money that belongs to no entry waiting from id `boundary` on, once
/// `paid` has left the pool.
pub open spec fn leftover(entries: EntryRows, balance: u128, paid: nat, boundary: int) -> u128 {
    let pending: nat = money(rows_from(entries, boundary));
    if balance >= paid + pending {
        (balance - paid - pending) as u128
    } else {
        0
    }
}

/// The pool once round `round_id` is settled as `round`, with `paid` sent and
/// the entries from `boundary` on left to the next round.
pub open spec fn after_settlement(
    s: StateView,
    balance: u128,
    round_id: u64,
    round: RoundView,
    paid: nat,
    boundary: int,
) -> StateView {
    StateView {
        rounds: put(s.rounds, round_id, round),
        next_unsettled_id: (round_id + 1) as u64,
        carry: leftover(s.entries, balance, paid, boundary),
        ..s
    }
}

/// What a walk over the round's entries leaves in its record.
pub open spec fn scanned(b: Basis, secret: Option<Seq<u8>>, now: u64) -> RoundView {
    RoundView {
        first_entry_id: Some(b.first),
        entropy: Some(b.entropy),
        total_entries: Some(tickets(b.rows).len() as u64),
        has_late_entries: any_before(b.rows, b.round.opened_at),
        secret,
        settled_at: Some(now),
        ..b.round
    }
}

/// The record of a skipped round.
pub open spec fn skipped_round(b: Basis, secret: Option<Seq<u8>>, now: u64) -> RoundView {
    RoundView {
        status: RoundStatus::Skipped,
        last_entry_id: Some((b.first - 1) as u64),
        ..scanned(b, secret, now)
    }
}

/// The record of a drawn round.
pub open spec fn drawn_round(
    b: Basis,
    round_id: u64,
    key: Seq<u8>,
    secret: Option<Seq<u8>>,
    winners: Seq<Seq<char>>,
    now: u64,
) -> RoundView {
    RoundView {
        status: RoundStatus::Drawn,
        last_entry_id: Some(last_id(b.rows, b.first)),
        result: Some(b.result(round_id, key)),
        winner_indexes: b.chosen(round_id, key),
        winners,
        pot: Some(b.pot),
        ..scanned(b, secret, now)
    }
}

/// The record of a round that is rolled over.
pub open spec fn rolled_round(round: RoundView, first: u64, now: u64) -> RoundView {
    RoundView {
        status: RoundStatus::RolledOver,
        first_entry_id: Some(first),
        last_entry_id: Some((first - 1) as u64),
        settled_at: Some(now),
        ..round
    }
}

/// What a skip reports.
pub open spec fn skip_report(round_id: u64, b: Basis) -> ResponseView {
    report(
        seq![
            ("action"@, "skip_round"@),
            ("round_id"@, decimal(round_id as nat)),
            ("entries"@, decimal(tickets(b.rows).len())),
            ("pot"@, decimal(b.pot as nat)),
        ],
    )
}

/// The numbers in decimal.
pub open spec fn decimals(numbers: Seq<u64>) -> Seq<Seq<char>> {
    numbers.map_values(|n: u64| decimal(n as nat))
}

/// What a draw sends and reports.
pub open spec fn draw_report(
    action: Seq<char>,
    round_id: u64,
    b: Basis,
    key: Seq<u8>,
    winners: Seq<Seq<char>>,
    messages: Seq<BankSendView>,
) -> ResponseView {
    ResponseView {
        messages,
        attributes: seq![
            ("action"@, action),
            ("round_id"@, decimal(round_id as nat)),
            ("entries"@, decimal(tickets(b.rows).len())),
            ("pot"@, decimal(b.pot as nat)),
            ("paid"@, decimal(sent(messages))),
            ("result"@, base64_of(b.result(round_id, key))),
            ("winner_indexes"@, comma_joined(decimals(b.chosen(round_id, key)))),
            ("winners"@, comma_joined(winners)),
        ],
    }
}

/// Settling a closed round: it is skipped if there is too little to run it,
/// and drawn otherwise.
pub open spec fn settled(
    s: StateView,
    env: Env,
    caller: Seq<char>,
    action: Seq<char>,
    round_id: u64,
    b: Basis,
    key: Seq<u8>,
    secret: Option<Seq<u8>>,
    owners: Seq<AnswerView>,
) -> Outcome {
    if !b.runs() {
        let round: RoundView = skipped_round(b, secret, env.time);
        Ok(
            (
                after_settlement(s, env.balance, round_id, round, 0, b.first as int),
                skip_report(round_id, b),
            ),
        )
    } else {
        match payees(tickets(b.rows), b.chosen(round_id, key), owners) {
            Err(e) => Err(ContractErrorView::Std(e)),
            Ok(winners) => {
                let round: RoundView = drawn_round(b, round_id, key, secret, winners, env.time);
                let messages: Seq<BankSendView> = draw_sends(
                    s.config,
                    b.terms,
                    b.pot,
                    winners,
                    caller,
                );
                Ok(
                    (
                        after_settlement(
                            s,
                            env.balance,
                            round_id,
                            round,
                            sent(messages),
                            last_id(b.rows, b.first) + 1,
                        ),
                        draw_report(action, round_id, b, key, winners, messages),
                    ),
                )
            },
        }
    }
}

/// Settling a round with its secret.
pub open spec fn execute_draw_outcome(
    s: StateView,
    env: Env,
    caller: Seq<char>,
    round_id: u64,
    secret: Seq<u8>,
    owners: Seq<AnswerView>,
) -> Outcome {
    match settleable(s, env.time, round_id) {
        Err(e) => Err(e),
        Ok(round) => if sha256_of(secret) != round.seed_hash {
            Err(ContractErrorView::SecretMismatch)
        } else {
            match start_of(s, round_id) {
                Err(e) => Err(e),
                Ok(first) => settled(
                    s,
                    env,
                    caller,
                    "execute_draw"@,
                    round_id,
                    basis(s, env.balance, round_id, round, first),
                    secret,
                    Some(secret),
                    owners,
                ),
            }
        },
    }
}

/// Settling a round whose secret is overdue. The commitment stands in for the
/// secret, so the result was fixed when the round closed.
pub open spec fn settle_stale_outcome(
    s: StateView,
    env: Env,
    caller: Seq<char>,
    round_id: u64,
    owners: Seq<AnswerView>,
) -> Outcome {
    match settleable(s, env.time, round_id) {
        Err(e) => Err(e),
        Ok(round) => {
            let terms: RoundTermsView = round.terms_under(s.config);
            if !is_stale(round, terms, env.time) {
                Err(ContractErrorView::NotStale { round_id, secs: terms.stale_after_secs })
            } else {
                match start_of(s, round_id) {
                    Err(e) => Err(e),
                    Ok(first) => settled(
                        s,
                        env,
                        caller,
                        "settle_stale"@,
                        round_id,
                        basis(s, env.balance, round_id, round, first),
                        round.seed_hash,
                        None,
                        owners,
                    ),
                }
            }
        },
    }
}

/// Rolling over a round whose secret is overdue and that there is too little
/// to run.
pub open spec fn rollover_outcome(s: StateView, env: Env, round_id: u64) -> Outcome {
    match settleable(s, env.time, round_id) {
        Err(e) => Err(e),
        Ok(round) => {
            let terms: RoundTermsView = round.terms_under(s.config);
            if !is_stale(round, terms, env.time) {
                Err(ContractErrorView::NotStale { round_id, secs: terms.stale_after_secs })
            } else {
                match start_of(s, round_id) {
                    Err(e) => Err(e),
                    Ok(first) => if basis(s, env.balance, round_id, round, first).runs() {
                        Err(ContractErrorView::RoundIsDrawable { round_id })
                    } else {
                        Ok(
                            (
                                after_settlement(
                                    s,
                                    env.balance,
                                    round_id,
                                    rolled_round(round, first, env.time),
                                    0,
                                    first as int,
                                ),
                                report(
                                    seq![
                                        ("action"@, "rollover_round"@),
                                        ("round_id"@, decimal(round_id as nat)),
                                    ],
                                ),
                            ),
                        )
                    },
                }
            }
        },
    }
}

/// A share is the quotient itself.
pub proof fn lemma_share_is(pot: u128, bps: u64)
    ensures
        (pot as int) * (bps as int) / (WHOLE_BPS as int) == share(pot, bps),
{
    let product: int = (pot as int) * (bps as int);
    assert(0 <= product) by (nonlinear_arith)
        requires
            product == (pot as int) * (bps as int),
    ;
}

pub proof fn lemma_share(pot: u128, bps: u64)
    requires
        bps <= WHOLE_BPS,
    ensures
        share(pot, bps) * WHOLE_BPS <= pot * bps,
        share(pot, bps) <= pot,
        (pot as int) * (bps as int) / (WHOLE_BPS as int) == share(pot, bps),
{
    let product: int = (pot as int) * (bps as int);
    assert(0 <= product <= pot * WHOLE_BPS) by (nonlinear_arith)
        requires
            product == (pot as int) * (bps as int),
            bps <= WHOLE_BPS,
    ;
    vstd::arithmetic::div_mod::lemma_fundamental_div_mod(product, WHOLE_BPS as int);
}

pub proof fn lemma_share_sum_bound(shares: Seq<u64>, i: int)
    requires
        0 <= i < shares.len(),
    ensures
        shares[i] <= share_sum(shares),
    decreases shares.len(),
{
    if i < shares.len() - 1 {
        lemma_share_sum_bound(shares.drop_last(), i);
    }
}

pub proof fn lemma_share_sum_take(shares: Seq<u64>, n: int)
    requires
        0 <= n <= shares.len(),
    ensures
        share_sum(shares.take(n)) <= share_sum(shares),
    decreases shares.len(),
{
    if n == shares.len() {
        assert(shares.take(n) =~= shares);
    } else {
        lemma_share_sum_take(shares.drop_last(), n);
        assert(shares.drop_last().take(n) =~= shares.take(n));
    }
}

pub proof fn lemma_and_send(
    messages: Seq<BankSendView>,
    to_address: Seq<char>,
    amount: nat,
    denom: Seq<char>,
)
    requires
        amount <= u128::MAX,
    ensures
        sent(and_send(messages, to_address, amount, denom)) == sent(messages) + amount,
{
    if amount > 0 {
        let more: Seq<BankSendView> = and_send(messages, to_address, amount, denom);
        assert(more.drop_last() =~= messages);
    }
}

pub proof fn lemma_prizes(to: Seq<Seq<char>>, shares: Seq<u64>, pot: u128, denom: Seq<char>)
    requires
        to.len() <= shares.len(),
        share_sum(shares) <= WHOLE_BPS,
    ensures
        sent(prizes(to, shares, pot, denom)) * WHOLE_BPS <= pot * share_sum(
            shares.take(to.len() as int),
        ),
    decreases to.len(),
{
    if to.len() > 0 {
        let n: int = to.len() - 1;
        let before: Seq<BankSendView> = prizes(to.drop_last(), shares, pot, denom);
        lemma_prizes(to.drop_last(), shares, pot, denom);
        lemma_share_sum_bound(shares, n);
        lemma_share(pot, shares[n]);
        lemma_and_send(before, to.last(), share(pot, shares[n]), denom);
        assert(shares.take(n + 1).drop_last() =~= shares.take(n));
        let sum: nat = share_sum(shares.take(n));
        assert(pot * (sum + shares[n]) == pot * sum + pot * shares[n]) by (nonlinear_arith);
    } else {
        assert(shares.take(0) =~= Seq::empty());
        assert(pot * 0 == 0) by (nonlinear_arith);
    }
}

/// A draw sends no more than the pot.
pub proof fn lemma_draw_sends(
    config: ConfigView,
    terms: RoundTermsView,
    pot: u128,
    to: Seq<Seq<char>>,
    caller: Seq<char>,
)
    requires
        terms.fair(),
        to.len() <= terms.payout_bps.len(),
    ensures
        sent(draw_sends(config, terms, pot, to, caller)) <= pot,
        sent(draw_sends(config, terms, pot, to, caller)) == sent(
            prizes(to, terms.payout_bps, pot, config.denom),
        ) + share(pot, terms.treasury_bps) + share(pot, terms.caller_bps),
{
    let list: Seq<BankSendView> = prizes(to, terms.payout_bps, pot, config.denom);
    let sum: nat = share_sum(terms.payout_bps.take(to.len() as int));
    lemma_prizes(to, terms.payout_bps, pot, config.denom);
    lemma_share_sum_take(terms.payout_bps, to.len() as int);
    lemma_share(pot, terms.treasury_bps);
    lemma_share(pot, terms.caller_bps);
    let to_treasury: nat = share(pot, terms.treasury_bps);
    let to_caller: nat = share(pot, terms.caller_bps);
    lemma_and_send(list, config.treasury, to_treasury, config.denom);
    lemma_and_send(
        and_send(list, config.treasury, to_treasury, config.denom),
        caller,
        to_caller,
        config.denom,
    );
    assert(pot * sum + pot * terms.treasury_bps + pot * terms.caller_bps <= pot * WHOLE_BPS)
        by (nonlinear_arith)
        requires
            sum + terms.treasury_bps + terms.caller_bps <= WHOLE_BPS,
    ;
}

/// The entries behind a round's last start right behind its rows.
pub proof fn lemma_boundary(entries: EntryRows, first: u64, close_time: u64)
    requires
        ascending(entries),
        first >= 1,
    ensures
        ({
            let rows: EntryRows = covered(entries, first, close_time);
            let start: int = position(entries, first as int);
            &&& 0 <= start
            &&& start + rows.len() <= entries.len()
            &&& entries.subrange(start, start + rows.len()) == rows
            &&& position(entries, last_id(rows, first) + 1) == start + rows.len()
            &&& first <= last_id(rows, first) + 1
            &&& rows.len() <= MAX_SCAN
            &&& forall|i: int|
                0 <= i < rows.len() ==> (#[trigger] rows[i]).1.recorded_at < close_time
        }),
{
    let start: int = position(entries, first as int);
    lemma_position(entries, first as int);
    let tail: EntryRows = rows_from(entries, first as int);
    lemma_run_end(tail, close_time, MAX_SCAN as int, 0);
    let rows: EntryRows = covered(entries, first, close_time);
    let end: int = start + rows.len();
    assert(entries.subrange(start, end) =~= rows);
    assert(forall|i: int| 0 <= i < rows.len() ==> #[trigger] rows[i] == tail[i]);
    let last: u64 = last_id(rows, first);
    if rows.len() > 0 {
        assert(rows.last() == entries[end - 1]);
        assert forall|j: int| 0 <= j < end implies (#[trigger] entries[j]).0 < last + 1 by {
            if j < end - 1 {
                assert(entries[j].0 < entries[end - 1].0);
            }
        }
        if end < entries.len() {
            assert(entries[end - 1].0 < entries[end].0);
        }
    }
    lemma_position_is(entries, last + 1, end);
}
pub proof fn lemma_within_pot(amount: nat, pot: u128, rate: nat)
    requires
        amount * WHOLE_BPS <= pot * rate,
        rate <= WHOLE_BPS,
    ensures
        amount <= pot,
{
    assert(pot * rate <= pot * WHOLE_BPS) by (nonlinear_arith)
        requires
            rate <= WHOLE_BPS,
    ;
}

/// An address that cannot be told stops the list there.
pub proof fn lemma_payees_error(pool: EntryRows, chosen: Seq<u64>, n: int, owners: Seq<AnswerView>)
    requires
        0 <= n <= chosen.len(),
        payees(pool, chosen.take(n), owners) is Err,
    ensures
        payees(pool, chosen, owners) == payees(pool, chosen.take(n), owners),
    decreases chosen.len(),
{
    if n == chosen.len() {
        assert(chosen.take(n) =~= chosen);
    } else {
        assert(chosen.drop_last().take(n) =~= chosen.take(n));
        lemma_payees_error(pool, chosen.drop_last(), n, owners);
    }
}

/// Settling the next round keeps the pool in order.
pub proof fn lemma_settlement_wf(
    s: StateView,
    balance: u128,
    round_id: u64,
    round: RoundView,
    paid: nat,
    boundary: int,
)
    requires
        s.wf(),
        can_move_on(s),
        round_id == s.next_unsettled_id,
        find(s.rounds, round_id) matches Some(open) && {
            &&& round.seed_hash == open.seed_hash
            &&& round.close_time == open.close_time
            &&& round.terms == open.terms
        },
        round.is_settled(s.next_entry_id),
    ensures
        after_settlement(s, balance, round_id, round, paid, boundary).wf(),
        after_settlement(s, balance, round_id, round, paid, boundary).rounds.len()
            == s.rounds.len(),
{
    let after: StateView = after_settlement(s, balance, round_id, round, paid, boundary);
    let p: int = position(s.rounds, round_id as int);
    let i: int = lemma_find_some(s.rounds, round_id);
    lemma_position_is(s.rounds, round_id as int, i);
    assert(after.rounds =~= s.rounds.update(p, (round_id, round)));
    lemma_put(s.rounds, round_id, round);
    assert(s.round_ok(s.rounds[p].0, s.rounds[p].1));
    assert forall|j: int| 0 <= j < after.rounds.len() implies after.round_ok(
        (#[trigger] after.rounds[j]).0,
        after.rounds[j].1,
    ) by {
        assert(s.round_ok(s.rounds[j].0, s.rounds[j].1));
        if j < p {
            assert(s.rounds[j].0 < s.rounds[p].0);
        }
        if j > p {
            assert(s.rounds[p].0 < s.rounds[j].0);
        }
    }
    assert forall|j: int, k: int| 0 <= j < k < after.rounds.len() implies (
    #[trigger] after.rounds[j]).1.close_time < (#[trigger] after.rounds[k]).1.close_time by {
        assert(s.rounds[j].1.close_time < s.rounds[k].1.close_time);
    }
}

/// A round that is settled from its start on stays within the entries.
pub proof fn lemma_start_of(s: StateView, round_id: u64)
    requires
        s.wf(),
    ensures
        start_of(s, round_id) matches Ok(first) ==> 1 <= first <= s.next_entry_id,
{
    if round_id > 1 && find(s.rounds, (round_id - 1) as u64) is Some {
        let i: int = lemma_find_some(s.rounds, (round_id - 1) as u64);
        assert(s.round_ok(s.rounds[i].0, s.rounds[i].1));
    }
}

/// The last entry of a round is one that is there.
pub proof fn lemma_last_id(s: StateView, first: u64, close_time: u64)
    requires
        s.wf(),
        1 <= first <= s.next_entry_id,
    ensures
        first <= last_id(covered(s.entries, first, close_time), first) + 1,
        last_id(covered(s.entries, first, close_time), first) < s.next_entry_id,
{
    lemma_boundary(s.entries, first, close_time);
    let rows: EntryRows = covered(s.entries, first, close_time);
    let start: int = position(s.entries, first as int);
    if rows.len() > 0 {
        assert(rows.last() == s.entries[start + rows.len() - 1]);
    }
}

/// Any settlement keeps the pool in order.
pub proof fn lemma_settled_wf(
    s: StateView,
    env: Env,
    caller: Seq<char>,
    action: Seq<char>,
    round_id: u64,
    round: RoundView,
    key: Seq<u8>,
    secret: Option<Seq<u8>>,
    owners: Seq<AnswerView>,
)
    requires
        s.wf(),
        can_move_on(s),
        settleable(s, env.time, round_id) == Ok::<_, ContractErrorView>(round),
    ensures
        start_of(s, round_id) matches Ok(first) ==> settled(
            s,
            env,
            caller,
            action,
            round_id,
            basis(s, env.balance, round_id, round, first),
            key,
            secret,
            owners,
        ) matches Ok((after, response)) ==> after.wf(),
{
    lemma_start_of(s, round_id);
    if let Ok(first) = start_of(s, round_id) {
        let b: Basis = basis(s, env.balance, round_id, round, first);
        lemma_last_id(s, first, round.close_time);
        if !b.runs() {
            lemma_settlement_wf(
                s,
                env.balance,
                round_id,
                skipped_round(b, secret, env.time),
                0,
                first as int,
            );
        } else if let Ok(winners) = payees(tickets(b.rows), b.chosen(round_id, key), owners) {
            lemma_settlement_wf(
                s,
                env.balance,
                round_id,
                drawn_round(b, round_id, key, secret, winners, env.time),
                sent(draw_sends(s.config, b.terms, b.pot, winners, caller)),
                last_id(b.rows, first) + 1,
            );
        }
    }
}

/// A round keeps terms that pay out no more than the pot.
pub proof fn lemma_terms_fair(s: StateView, round_id: u64)
    requires
        s.wf(),
    ensures
        find(s.rounds, round_id) matches Some(round) ==> round.terms_under(s.config).fair(),
{
    if find(s.rounds, round_id) is Some {
        let i: int = lemma_find_some(s.rounds, round_id);
        assert(s.round_ok(s.rounds[i].0, s.rounds[i].1));
    }
}

} // verus!
