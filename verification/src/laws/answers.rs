//! That a call needs no more of the chain than it says.

use vstd::prelude::*;

use crate::ask::{
    addresses_in, addresses_in_migration, addresses_in_setup, and_given, tokens_in, wallets,
};
use crate::contract::{instantiate_outcome, migrate_outcome};
use crate::draw::{tickets, EntryRows};
use crate::entries::free_batch_outcome;
use crate::laws::calls::{outcome_of, Call};
use crate::msg::{
    answer_to, AnswerView, Env, ExecuteMsgView, FreeEntryItemView, InstantiateMsgView,
    MigrateMsgView,
};
use crate::rules::{basis, payees, settleable, start_of, Basis};
use crate::settle::tokens_of;
use crate::state::{EntryView, StateView};

verus! {

/// The two sets of answers agree on everything in the list.
pub open spec fn agree(one: Seq<AnswerView>, two: Seq<AnswerView>, list: Seq<Seq<char>>) -> bool {
    forall|i: int|
        0 <= i < list.len() ==> answer_to(one, #[trigger] list[i]) == answer_to(two, list[i])
}

/// A call ends the same whatever the chain says of other addresses than those
/// in the message, and of other tokens than those it pays for.
#[verifier::rlimit(40)]
pub proof fn law_a_call_needs_only_what_it_asks_for(
    s: StateView,
    call: Call,
    addresses: Seq<AnswerView>,
    owners: Seq<AnswerView>,
)
    requires
        agree(call.addresses, addresses, addresses_in(call.msg)),
        agree(call.owners, owners, tokens_in(s, call.env, call.msg)),
    ensures
        outcome_of(s, Call { addresses, owners, ..call }) == outcome_of(s, call),
{
    let list: Seq<Seq<char>> = addresses_in(call.msg);
    match call.msg {
        ExecuteMsgView::RecordEntry { token_id, minter, entries, amount, entropy } => {
            assert(list[0] == minter);
        },
        ExecuteMsgView::RecordFreeEntries { entries } => {
            lemma_batch_agrees(entries, call.env.time, call.addresses, addresses);
        },
        ExecuteMsgView::UpdateConfig { update } => {
            let none: Seq<Seq<char>> = Seq::empty();
            let with_admin: Seq<Seq<char>> = and_given(none, update.admin);
            let with_operator: Seq<Seq<char>> = and_given(with_admin, update.operator);
            let with_nft: Seq<Seq<char>> = and_given(with_operator, update.nft_contract);
            lemma_given(call.addresses, addresses, with_nft, update.treasury);
            lemma_given(call.addresses, addresses, with_operator, update.nft_contract);
            lemma_given(call.addresses, addresses, with_admin, update.operator);
            lemma_given(call.addresses, addresses, none, update.admin);
        },
        ExecuteMsgView::ExecuteDraw { round_id, secret } => {
            lemma_settlement_agrees(s, call.env, round_id, secret, call.owners, owners);
        },
        ExecuteMsgView::SettleStale { round_id } => {
            if let Ok(round) = settleable(s, call.env.time, round_id) {
                lemma_settlement_agrees(
                    s,
                    call.env,
                    round_id,
                    round.seed_hash,
                    call.owners,
                    owners,
                );
            }
        },
        _ => {},
    }
}

/// Setting a pool up needs only the addresses in the message.
pub proof fn law_setup_needs_only_what_it_asks_for(
    env: Env,
    msg: InstantiateMsgView,
    one: Seq<AnswerView>,
    two: Seq<AnswerView>,
)
    requires
        agree(one, two, addresses_in_setup(msg)),
    ensures
        instantiate_outcome(env, msg, one) == instantiate_outcome(env, msg, two),
{
    let list: Seq<Seq<char>> = addresses_in_setup(msg);
    let with_operator: Seq<Seq<char>> = and_given(seq![msg.admin], msg.operator);
    let n: int = with_operator.len() as int;
    assert(list[n + 1] == msg.treasury);
    assert(list[n] == msg.nft_contract);
    assert(agree(one, two, with_operator)) by {
        assert forall|i: int| 0 <= i < n implies answer_to(one, #[trigger] with_operator[i])
            == answer_to(two, with_operator[i]) by {
            assert(list[i] == with_operator[i]);
        }
    }
    lemma_given(one, two, seq![msg.admin], msg.operator);
    assert(seq![msg.admin][0] == msg.admin);
}

/// Moving a pool needs only the addresses in the message.
pub proof fn law_migration_needs_only_what_it_asks_for(
    s: StateView,
    msg: MigrateMsgView,
    one: Seq<AnswerView>,
    two: Seq<AnswerView>,
)
    requires
        agree(one, two, addresses_in_migration(msg)),
    ensures
        migrate_outcome(s, msg, one) == migrate_outcome(s, msg, two),
{
    let none: Seq<Seq<char>> = Seq::empty();
    lemma_given(one, two, and_given(none, msg.admin), msg.operator);
    lemma_given(one, two, none, msg.admin);
}

/// Agreeing on a list with one more is agreeing on the list and on the one.
proof fn lemma_given(
    one: Seq<AnswerView>,
    two: Seq<AnswerView>,
    list: Seq<Seq<char>>,
    given: Option<Seq<char>>,
)
    requires
        agree(one, two, and_given(list, given)),
    ensures
        agree(one, two, list),
        given matches Some(address) ==> answer_to(one, address) == answer_to(two, address),
{
    let more: Seq<Seq<char>> = and_given(list, given);
    assert forall|i: int| 0 <= i < list.len() implies answer_to(one, #[trigger] list[i])
        == answer_to(two, list[i]) by {
        assert(more[i] == list[i]);
    }
    if let Some(address) = given {
        assert(more[list.len() as int] == address);
    }
}

proof fn lemma_batch_agrees(
    items: Seq<FreeEntryItemView>,
    now: u64,
    one: Seq<AnswerView>,
    two: Seq<AnswerView>,
)
    requires
        agree(one, two, wallets(items)),
    ensures
        free_batch_outcome(items, now, one) == free_batch_outcome(items, now, two),
    decreases items.len(),
{
    if items.len() > 0 {
        let all: Seq<Seq<char>> = wallets(items);
        let shorter: Seq<Seq<char>> = wallets(items.drop_last());
        assert forall|i: int| 0 <= i < shorter.len() implies answer_to(one, #[trigger] shorter[i])
            == answer_to(two, shorter[i]) by {
            assert(all[i] == shorter[i]);
        }
        lemma_batch_agrees(items.drop_last(), now, one, two);
        assert(all[items.len() - 1] == items.last().wallet);
    }
}

proof fn lemma_payees_agree(
    pool: EntryRows,
    chosen: Seq<u64>,
    one: Seq<AnswerView>,
    two: Seq<AnswerView>,
)
    requires
        agree(one, two, tokens_of(pool, chosen)),
    ensures
        payees(pool, chosen, one) == payees(pool, chosen, two),
    decreases chosen.len(),
{
    if chosen.len() > 0 {
        let entry: EntryView = pool[chosen.last() as int].1;
        let all: Seq<Seq<char>> = tokens_of(pool, chosen);
        let shorter: Seq<Seq<char>> = tokens_of(pool, chosen.drop_last());
        assert forall|i: int| 0 <= i < shorter.len() implies answer_to(one, #[trigger] shorter[i])
            == answer_to(two, shorter[i]) by {
            assert(all[i] == shorter[i]);
        }
        lemma_payees_agree(pool, chosen.drop_last(), one, two);
        if !entry.free {
            assert(all[shorter.len() as int] == entry.token_id);
        }
    }
}

/// Who is paid is the same, if the tokens that a settlement pays for have the
/// same owners.
proof fn lemma_settlement_agrees(
    s: StateView,
    env: Env,
    round_id: u64,
    key: Seq<u8>,
    one: Seq<AnswerView>,
    two: Seq<AnswerView>,
)
    ensures
        settleable(s, env.time, round_id) matches Ok(round) ==> (start_of(s, round_id) matches Ok(
            first,
        ) ==> ({
            let b: Basis = basis(s, env.balance, round_id, round, first);
            b.runs() && agree(one, two, tokens_of(tickets(b.rows), b.chosen(round_id, key)))
                ==> payees(tickets(b.rows), b.chosen(round_id, key), one) == payees(
                tickets(b.rows),
                b.chosen(round_id, key),
                two,
            )
        })),
{
    if let Ok(round) = settleable(s, env.time, round_id) {
        if let Ok(first) = start_of(s, round_id) {
            let b: Basis = basis(s, env.balance, round_id, round, first);
            if b.runs() && agree(one, two, tokens_of(tickets(b.rows), b.chosen(round_id, key))) {
                lemma_payees_agree(tickets(b.rows), b.chosen(round_id, key), one, two);
            }
        }
    }
}

} // verus!
