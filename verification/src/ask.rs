//! What has to be asked of the chain before a call: which addresses are valid,
//! and who owns which token.

use vstd::prelude::*;

use crate::msg::{
    item_views, Env, ExecuteMsg, ExecuteMsgView, FreeEntryItem, FreeEntryItemView, InstantiateMsg,
    InstantiateMsgView, MigrateMsg, MigrateMsgView,
};
use crate::settle::{owners_to_ask, tokens_to_ask};
use crate::state::{opt_text, State, StateView};
use crate::text::texts;

verus! {

/// The list with one more, if there is one.
pub open spec fn and_given(list: Seq<Seq<char>>, given: Option<Seq<char>>) -> Seq<Seq<char>> {
    match given {
        Some(given) => list.push(given),
        None => list,
    }
}

/// The wallets of a batch of free entries.
pub open spec fn wallets(items: Seq<FreeEntryItemView>) -> Seq<Seq<char>> {
    items.map_values(|item: FreeEntryItemView| item.wallet)
}

/// The addresses in a call.
pub open spec fn addresses_in(msg: ExecuteMsgView) -> Seq<Seq<char>> {
    match msg {
        ExecuteMsgView::RecordEntry { token_id, minter, entries, amount, entropy } => seq![minter],
        ExecuteMsgView::RecordFreeEntries { entries } => wallets(entries),
        ExecuteMsgView::UpdateConfig { update } => and_given(
            and_given(
                and_given(and_given(Seq::empty(), update.admin), update.operator),
                update.nft_contract,
            ),
            update.treasury,
        ),
        _ => Seq::empty(),
    }
}

/// The addresses a pool is set up with.
pub open spec fn addresses_in_setup(msg: InstantiateMsgView) -> Seq<Seq<char>> {
    and_given(seq![msg.admin], msg.operator).push(msg.nft_contract).push(msg.treasury)
}

/// The addresses a pool is moved with.
pub open spec fn addresses_in_migration(msg: MigrateMsgView) -> Seq<Seq<char>> {
    and_given(and_given(Seq::empty(), msg.admin), msg.operator)
}

/// The tokens that a call pays the owners of.
pub open spec fn tokens_in(s: StateView, env: Env, msg: ExecuteMsgView) -> Seq<Seq<char>> {
    match msg {
        ExecuteMsgView::ExecuteDraw { round_id, secret } => tokens_to_ask(
            s,
            env,
            round_id,
            Some(secret),
        ),
        ExecuteMsgView::SettleStale { round_id } => tokens_to_ask(s, env, round_id, None),
        _ => Seq::empty(),
    }
}

/// Adds a string, if there is one.
fn push_given(list: &mut Vec<String>, given: &Option<String>)
    ensures
        texts(final(list)@) == and_given(texts(old(list)@), opt_text(*given)),
{
    if let Some(given) = given {
        push_text(list, given);
    }
}

/// Adds a string.
fn push_text(list: &mut Vec<String>, text: &String)
    ensures
        texts(final(list)@) == texts(old(list)@).push(text@),
{
    let ghost before: Seq<Seq<char>> = texts(list@);
    list.push(text.clone());
    assert(texts(list@) =~= before.push(text@));
}

/// No strings.
fn no_texts() -> (list: Vec<String>)
    ensures
        texts(list@) == Seq::<Seq<char>>::empty(),
{
    let list: Vec<String> = Vec::new();
    assert(texts(list@) =~= Seq::empty());
    list
}

/// The wallets of a batch of free entries.
fn wallets_of(items: &Vec<FreeEntryItem>) -> (list: Vec<String>)
    ensures
        texts(list@) == wallets(item_views(items@)),
{
    let ghost all: Seq<Seq<char>> = wallets(item_views(items@));
    let mut list: Vec<String> = no_texts();
    let mut i: usize = 0;
    assert(all.take(0) =~= Seq::empty());
    while i < items.len()
        invariant
            i <= items@.len(),
            all == wallets(item_views(items@)),
            texts(list@) == all.take(i as int),
        decreases items@.len() - i,
    {
        push_text(&mut list, &items[i].wallet);
        assert(all.take(i + 1) =~= all.take(i as int).push(items@[i as int].wallet@));
        i = i + 1;
    }
    assert(all.take(i as int) =~= all);
    list
}

/// The addresses in a call, in the order they are looked at.
pub fn addresses_of_call(msg: &ExecuteMsg) -> (list: Vec<String>)
    ensures
        texts(list@) == addresses_in(msg@),
{
    let mut list: Vec<String> = no_texts();
    match msg {
        ExecuteMsg::RecordEntry { minter, .. } => {
            push_text(&mut list, minter);
            assert(texts(list@) =~= seq![minter@]);
        },
        ExecuteMsg::RecordFreeEntries { entries } => {
            list = wallets_of(entries);
        },
        ExecuteMsg::UpdateConfig { admin, operator, nft_contract, treasury, .. } => {
            push_given(&mut list, admin);
            push_given(&mut list, operator);
            push_given(&mut list, nft_contract);
            push_given(&mut list, treasury);
        },
        _ => {},
    }
    list
}

/// The addresses a pool is set up with.
pub fn addresses_of_setup(msg: &InstantiateMsg) -> (list: Vec<String>)
    ensures
        texts(list@) == addresses_in_setup(msg@),
{
    let mut list: Vec<String> = no_texts();
    push_text(&mut list, &msg.admin);
    assert(texts(list@) =~= seq![msg.admin@]);
    push_given(&mut list, &msg.operator);
    push_text(&mut list, &msg.nft_contract);
    push_text(&mut list, &msg.treasury);
    list
}

/// The addresses a pool is moved with.
pub fn addresses_of_migration(msg: &MigrateMsg) -> (list: Vec<String>)
    ensures
        texts(list@) == addresses_in_migration(msg@),
{
    let mut list: Vec<String> = no_texts();
    push_given(&mut list, &msg.admin);
    push_given(&mut list, &msg.operator);
    list
}

/// The tokens that a call pays the owners of.
pub fn tokens_of_call(state: &State, env: &Env, msg: &ExecuteMsg) -> (list: Vec<String>)
    requires
        state@.wf(),
    ensures
        texts(list@) == tokens_in(state@, *env, msg@),
{
    match msg {
        ExecuteMsg::ExecuteDraw { round_id, secret } => owners_to_ask(
            state,
            env,
            *round_id,
            Some(secret),
        ),
        ExecuteMsg::SettleStale { round_id } => owners_to_ask(state, env, *round_id, None),
        _ => no_texts(),
    }
}

} // verus!
