//! What holds of the pool's money.

use vstd::prelude::*;

use crate::contract::has_room;
use crate::draw::{money, tickets};
use crate::entries::{
    free_batch_outcome, lemma_free_batch, lemma_with_entries, lemma_with_entry, with_entries,
};
use crate::error::ContractErrorView;
use crate::laws::calls::{
    basis_of, boundary_of, goes, lemma_rounds_put, lemma_settlement, record_of, settles, winners_of,
    Call,
};
use crate::laws::draw::law_an_entry_adds_its_tickets_and_money;
use crate::laws::rounds::{lemma_entries_only, lemma_winners_fit};
use crate::msg::{answer_to, BankSendView, ExecuteMsgView, FreeEntryItemView, ResponseView};
use crate::rules::{
    lemma_draw_sends, lemma_last_id, lemma_share, lemma_share_sum_bound, lemma_start_of,
    lemma_terms_fair, prizes, sent, start_of, Basis,
};
use crate::state::{entry_ok, share_sum, EntryView, RoundStatus, RoundView, StateView, WHOLE_BPS};
use crate::table::{find, lemma_put, rows_from};

verus! {

/// Money leaves the pool only when a round is drawn. There is no other way to
/// send any.
pub proof fn law_money_leaves_only_by_a_draw(
    s: StateView,
    call: Call,
    after: StateView,
    response: ResponseView,
)
    requires
        s.wf(),
        goes(s, call, after, response),
        response.messages.len() > 0,
    ensures
        settles(call.msg) matches Some(id) && (find(after.rounds, id) matches Some(round)
            && round.status == RoundStatus::Drawn),
{
    if let Some(id) = settles(call.msg) {
        lemma_settlement(s, call, after, response, id);
        lemma_put(s.rounds, id, record_of(s, call, id));
    }
}

/// Every message sends something, of the pool's own denomination, to a winner,
/// to the treasury or to the caller.
pub proof fn law_money_goes_to_winners_treasury_and_caller(
    s: StateView,
    call: Call,
    after: StateView,
    response: ResponseView,
    id: u64,
    round: RoundView,
)
    requires
        s.wf(),
        goes(s, call, after, response),
        settles(call.msg) == Some(id),
        find(after.rounds, id) == Some(round),
    ensures
        forall|k: int|
            0 <= k < response.messages.len() ==> {
                &&& (#[trigger] response.messages[k]).amount > 0
                &&& response.messages[k].denom == s.config.denom
                &&& {
                    ||| round.winners.contains(response.messages[k].to_address)
                    ||| response.messages[k].to_address == s.config.treasury
                    ||| response.messages[k].to_address == call.sender
                }
            },
{
    lemma_settlement(s, call, after, response, id);
    lemma_put(s.rounds, id, record_of(s, call, id));
    lemma_winners_fit(s, call, id);
    lemma_terms_fair(s, id);
    let b: Basis = basis_of(s, call, id);
    if b.runs() {
        let winners: Seq<Seq<char>> = winners_of(s, call, id)->Ok_0;
        lemma_prize_messages(winners, b.terms.payout_bps, b.pot, s.config.denom);
        lemma_share(b.pot, b.terms.treasury_bps);
        lemma_share(b.pot, b.terms.caller_bps);
    }
}

/// Every prize is something, of the denomination, to a winner.
proof fn lemma_prize_messages(to: Seq<Seq<char>>, shares: Seq<u64>, pot: u128, denom: Seq<char>)
    requires
        to.len() <= shares.len(),
        share_sum(shares) <= WHOLE_BPS,
    ensures
        forall|k: int|
            0 <= k < prizes(to, shares, pot, denom).len() ==> {
                &&& (#[trigger] prizes(to, shares, pot, denom)[k]).amount > 0
                &&& prizes(to, shares, pot, denom)[k].denom == denom
                &&& to.contains(prizes(to, shares, pot, denom)[k].to_address)
            },
    decreases to.len(),
{
    if to.len() > 0 {
        let n: int = to.len() - 1;
        let before: Seq<BankSendView> = prizes(to.drop_last(), shares, pot, denom);
        let all: Seq<BankSendView> = prizes(to, shares, pot, denom);
        lemma_prize_messages(to.drop_last(), shares, pot, denom);
        lemma_share_sum_bound(shares, n);
        lemma_share(pot, shares[n]);
        assert forall|k: int| 0 <= k < all.len() implies {
            &&& (#[trigger] all[k]).amount > 0
            &&& all[k].denom == denom
            &&& to.contains(all[k].to_address)
        } by {
            if k < before.len() {
                assert(all[k] == before[k]);
                let i: int = choose|i: int|
                    0 <= i < to.drop_last().len() && to.drop_last()[i] == before[k].to_address;
                assert(to[i] == before[k].to_address);
            } else {
                assert(to[n] == all[k].to_address);
            }
        }
    }
}

/// A draw pays out of its pot and no more, and the pot is never more than the
/// pool holds, nor more than the round's entries brought together with what was
/// carried.
pub proof fn law_a_draw_pays_within_the_pot_and_the_balance(
    s: StateView,
    call: Call,
    after: StateView,
    response: ResponseView,
    id: u64,
    round: RoundView,
)
    requires
        s.wf(),
        has_room(s, call.msg),
        goes(s, call, after, response),
        settles(call.msg) == Some(id),
        find(after.rounds, id) == Some(round),
        round.status == RoundStatus::Drawn,
    ensures
        round.pot matches Some(pot) && {
            &&& sent(response.messages) <= pot
            &&& pot <= call.env.balance
            &&& pot <= money(basis_of(s, call, id).rows) + s.carry
            &&& money(basis_of(s, call, id).rows) + s.carry <= call.env.balance ==> pot == money(
                basis_of(s, call, id).rows,
            ) + s.carry
        },
{
    lemma_settlement(s, call, after, response, id);
    lemma_put(s.rounds, id, record_of(s, call, id));
    lemma_winners_fit(s, call, id);
    lemma_terms_fair(s, id);
    let b: Basis = basis_of(s, call, id);
    lemma_draw_sends(s.config, b.terms, b.pot, winners_of(s, call, id)->Ok_0, call.sender);
}

/// After every settlement the carry is what the pool holds beyond what it sent
/// and what the waiting entries brought. So nothing is counted twice, and
/// money that came by plain transfer takes part from then on.
#[verifier::rlimit(40)]
pub proof fn law_the_carry_is_what_no_entry_claims(
    s: StateView,
    call: Call,
    after: StateView,
    response: ResponseView,
    id: u64,
    next: u64,
)
    requires
        s.wf(),
        has_room(s, call.msg),
        goes(s, call, after, response),
        settles(call.msg) == Some(id),
        start_of(after, (id + 1) as u64) == Ok::<_, ContractErrorView>(next),
    ensures
        ({
            let left: int = call.env.balance - sent(response.messages);
            let waiting: nat = money(rows_from(after.entries, next as int));
            &&& 0 <= left
            &&& after.carry == if left >= waiting {
                left - waiting
            } else {
                0
            }
        }),
{
    lemma_settlement(s, call, after, response, id);
    lemma_rounds_put(s, call, after, response);
    lemma_put(s.rounds, id, record_of(s, call, id));
    lemma_start_of(s, id);
    lemma_winners_fit(s, call, id);
    lemma_terms_fair(s, id);
    let b: Basis = basis_of(s, call, id);
    lemma_last_id(s, b.first, b.round.close_time);
    assert(next == boundary_of(s, call, id));
    if b.runs() {
        lemma_draw_sends(s.config, b.terms, b.pot, winners_of(s, call, id)->Ok_0, call.sender);
    }
}

/// Nothing but a settlement moves the carry.
pub proof fn law_only_settlement_moves_the_carry(
    s: StateView,
    call: Call,
    after: StateView,
    response: ResponseView,
)
    requires
        goes(s, call, after, response),
        settles(call.msg) is None,
    ensures
        after.carry == s.carry,
{
    if let ExecuteMsgView::RecordFreeEntries { entries } = call.msg {
        lemma_entries_only(
            s,
            free_batch_outcome(entries, call.env.time, call.addresses)->Ok_0,
            s.config,
        );
    }
}

/// The tickets in a batch of free entries.
pub open spec fn tickets_in(items: Seq<FreeEntryItemView>) -> nat
    decreases items.len(),
{
    if items.len() == 0 {
        0
    } else {
        tickets_in(items.drop_last()) + items.last().tickets as nat
    }
}

/// A mint brings its tickets and its money.
pub proof fn law_a_mint_brings_tickets_and_money(
    s: StateView,
    call: Call,
    after: StateView,
    response: ResponseView,
    token_id: Seq<char>,
    minter: Seq<char>,
    entries: u32,
    amount: u128,
    entropy: Seq<u8>,
)
    requires
        s.wf(),
        has_room(s, call.msg),
        goes(s, call, after, response),
        call.msg == (ExecuteMsgView::RecordEntry { token_id, minter, entries, amount, entropy }),
    ensures
        tickets(after.entries).len() == tickets(s.entries).len() + entries,
        money(after.entries) == money(s.entries) + amount,
{
    let entry: EntryView = EntryView {
        token_id,
        minter: answer_to(call.addresses, minter)->Ok_0,
        entries,
        amount,
        entropy,
        recorded_at: call.env.time,
        free: false,
    };
    lemma_with_entry(s, entry);
    law_an_entry_adds_its_tickets_and_money(s.entries, s.next_entry_id, entry);
}

/// Free entries bring tickets and no money.
pub proof fn law_free_entries_bring_tickets_and_no_money(
    s: StateView,
    call: Call,
    after: StateView,
    response: ResponseView,
    items: Seq<FreeEntryItemView>,
)
    requires
        s.wf(),
        has_room(s, call.msg),
        goes(s, call, after, response),
        call.msg == (ExecuteMsgView::RecordFreeEntries { entries: items }),
    ensures
        tickets(after.entries).len() == tickets(s.entries).len() + tickets_in(items),
        money(after.entries) == money(s.entries),
        after.carry == s.carry,
{
    let list: Seq<EntryView> = free_batch_outcome(items, call.env.time, call.addresses)->Ok_0;
    lemma_free_batch(items, call.env.time, call.addresses);
    lemma_with_entries(s, list);
    lemma_batch(s, items, list);
    law_only_settlement_moves_the_carry(s, call, after, response);
}

proof fn lemma_batch(s: StateView, items: Seq<FreeEntryItemView>, list: Seq<EntryView>)
    requires
        s.wf(),
        s.next_entry_id + list.len() <= u64::MAX,
        list.len() == items.len(),
        forall|i: int|
            0 <= i < list.len() ==> {
                &&& entry_ok(#[trigger] list[i])
                &&& list[i].amount == 0
                &&& list[i].entries == items[i].tickets
            },
    ensures
        tickets(with_entries(s, list).entries).len() == tickets(s.entries).len() + tickets_in(
            items,
        ),
        money(with_entries(s, list).entries) == money(s.entries),
    decreases list.len(),
{
    if list.len() > 0 {
        let shorter: Seq<EntryView> = list.drop_last();
        let before: StateView = with_entries(s, shorter);
        lemma_batch(s, items.drop_last(), shorter);
        lemma_with_entries(s, shorter);
        lemma_with_entry(before, list.last());
        law_an_entry_adds_its_tickets_and_money(
            before.entries,
            before.next_entry_id,
            list.last(),
        );
    }
}

} // verus!
