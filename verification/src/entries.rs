//! Recording mints and free entries.

use vstd::prelude::*;
use vstd::utf8::encode_utf8;

use crate::bytes::joined;
use crate::error::{viewed, ContractError, ContractErrorView};
use crate::msg::{
    answer_to, answer_views, find_answer, item_views, report, Answer, AnswerView, Env,
    FreeEntryItem, FreeEntryItemView, Response,
};
use crate::outcome::{accords, Outcome};
use crate::rounds::{current_row, taking_entries};
use crate::state::{entry_ok, Entry, EntryView, State, StateView, MAX_ENTROPY_BYTES};
use crate::table::{lemma_put, lemma_put_last, put};
use crate::text::{decimal, decimal_text};

verus! {

/// The pool with one more entry.
pub open spec fn with_entry(s: StateView, entry: EntryView) -> StateView {
    StateView {
        entries: put(s.entries, s.next_entry_id, entry),
        next_entry_id: (s.next_entry_id + 1) as u64,
        ..s
    }
}

/// The pool with these entries added in order.
pub open spec fn with_entries(s: StateView, list: Seq<EntryView>) -> StateView
    decreases list.len(),
{
    if list.len() == 0 {
        s
    } else {
        with_entry(with_entries(s, list.drop_last()), list.last())
    }
}

/// Recording a mint.
pub open spec fn record_entry_outcome(
    s: StateView,
    env: Env,
    sender: Seq<char>,
    token_id: Seq<char>,
    minter: Seq<char>,
    entries: u32,
    amount: u128,
    entropy: Seq<u8>,
    addresses: Seq<AnswerView>,
) -> Outcome {
    if sender != s.config.nft_contract {
        Err(ContractErrorView::Unauthorized)
    } else if s.config.paused {
        Err(ContractErrorView::Paused)
    } else if entries == 0 {
        Err(ContractErrorView::ZeroEntries)
    } else if entropy.len() == 0 || entropy.len() > MAX_ENTROPY_BYTES {
        Err(ContractErrorView::BadEntropy { max: MAX_ENTROPY_BYTES })
    } else {
        match answer_to(addresses, minter) {
            Err(e) => Err(ContractErrorView::Std(e)),
            Ok(address) => Ok(
                (
                    with_entry(
                        s,
                        EntryView {
                            token_id,
                            minter: address,
                            entries,
                            amount,
                            entropy,
                            recorded_at: env.time,
                            free: false,
                        },
                    ),
                    report(
                        seq![
                            ("action"@, "record_entry"@),
                            ("entry_id"@, decimal(s.next_entry_id as nat)),
                            ("token_id"@, token_id),
                            ("entries"@, decimal(entries as nat)),
                            ("amount"@, decimal(amount as nat)),
                        ],
                    ),
                ),
            ),
        }
    }
}

/// The entry that a free item becomes: tickets and entropy, but no token and no
/// money.
pub open spec fn free_entry(item: FreeEntryItemView, wallet: Seq<char>, now: u64) -> EntryView {
    EntryView {
        token_id: Seq::empty(),
        minter: wallet,
        entries: item.tickets,
        amount: 0,
        entropy: encode_utf8(item.tx_hash),
        recorded_at: now,
        free: true,
    }
}

/// The entry of one free item, or why it is refused.
pub open spec fn free_item_outcome(
    item: FreeEntryItemView,
    now: u64,
    addresses: Seq<AnswerView>,
) -> Result<EntryView, ContractErrorView> {
    let bytes: nat = encode_utf8(item.tx_hash).len();
    if item.tickets == 0 {
        Err(ContractErrorView::ZeroEntries)
    } else if bytes == 0 || bytes > MAX_ENTROPY_BYTES {
        Err(ContractErrorView::BadEntropy { max: MAX_ENTROPY_BYTES })
    } else {
        match answer_to(addresses, item.wallet) {
            Err(e) => Err(ContractErrorView::Std(e)),
            Ok(wallet) => Ok(free_entry(item, wallet, now)),
        }
    }
}

/// The entries of a batch, or why the first bad item is refused.
pub open spec fn free_batch_outcome(
    items: Seq<FreeEntryItemView>,
    now: u64,
    addresses: Seq<AnswerView>,
) -> Result<Seq<EntryView>, ContractErrorView>
    decreases items.len(),
{
    if items.len() == 0 {
        Ok(Seq::empty())
    } else {
        match free_batch_outcome(items.drop_last(), now, addresses) {
            Err(e) => Err(e),
            Ok(list) => match free_item_outcome(items.last(), now, addresses) {
                Err(e) => Err(e),
                Ok(entry) => Ok(list.push(entry)),
            },
        }
    }
}

/// Recording free entries.
pub open spec fn record_free_entries_outcome(
    s: StateView,
    env: Env,
    sender: Seq<char>,
    items: Seq<FreeEntryItemView>,
    addresses: Seq<AnswerView>,
) -> Outcome {
    if sender != s.config.admin {
        Err(ContractErrorView::Unauthorized)
    } else if items.len() == 0 {
        Err(ContractErrorView::BadFreeBatch)
    } else if taking_entries(s, env.time) is None {
        Err(ContractErrorView::FreeEntriesClosed { round_id: s.last_round_id })
    } else {
        match free_batch_outcome(items, env.time, addresses) {
            Err(e) => Err(e),
            Ok(list) => Ok(
                (
                    with_entries(s, list),
                    report(
                        seq![
                            ("action"@, "record_free_entries"@),
                            ("count"@, decimal(items.len())),
                        ],
                    ),
                ),
            ),
        }
    }
}

/// One more entry keeps the pool in order, and goes to the end.
pub proof fn lemma_with_entry(s: StateView, entry: EntryView)
    requires
        s.wf(),
        s.next_entry_id < u64::MAX,
        entry_ok(entry),
    ensures
        with_entry(s, entry).wf(),
        with_entry(s, entry).entries == s.entries.push((s.next_entry_id, entry)),
{
    lemma_put_last(s.entries, s.next_entry_id, entry);
    lemma_put(s.entries, s.next_entry_id, entry);
    let after: StateView = with_entry(s, entry);
    assert forall|i: int| 0 <= i < after.rounds.len() implies after.round_ok(
        (#[trigger] after.rounds[i]).0,
        after.rounds[i].1,
    ) by {
        assert(s.round_ok(s.rounds[i].0, s.rounds[i].1));
    }
    assert forall|i: int| 0 <= i < after.entries.len() implies {
        &&& 1 <= (#[trigger] after.entries[i]).0 < after.next_entry_id
        &&& entry_ok(after.entries[i].1)
    } by {
        if i < s.entries.len() {
            assert(after.entries[i] == s.entries[i]);
        }
    }
}

/// Every entry of a batch is in order.
pub proof fn lemma_free_batch(items: Seq<FreeEntryItemView>, now: u64, addresses: Seq<AnswerView>)
    ensures
        free_batch_outcome(items, now, addresses) matches Ok(list) ==> {
            &&& list.len() == items.len()
            &&& forall|i: int| 0 <= i < list.len() ==> {
                &&& entry_ok(#[trigger] list[i])
                &&& list[i].free
                &&& list[i].amount == 0
                &&& list[i].recorded_at == now
                &&& list[i].entries == items[i].tickets
            }
        },
    decreases items.len(),
{
    if items.len() > 0 {
        lemma_free_batch(items.drop_last(), now, addresses);
    }
}

/// More entries keep the pool in order.
pub proof fn lemma_with_entries(s: StateView, list: Seq<EntryView>)
    requires
        s.wf(),
        s.next_entry_id + list.len() <= u64::MAX,
        forall|i: int| 0 <= i < list.len() ==> entry_ok(#[trigger] list[i]),
    ensures
        with_entries(s, list).wf(),
        with_entries(s, list).next_entry_id == s.next_entry_id + list.len(),
        with_entries(s, list).entries.len() == s.entries.len() + list.len(),
        with_entries(s, list) == (StateView {
            entries: with_entries(s, list).entries,
            next_entry_id: with_entries(s, list).next_entry_id,
            ..s
        }),
        forall|i: int|
            0 <= i < s.entries.len() ==> #[trigger] with_entries(s, list).entries[i] == s.entries[i],
        forall|i: int|
            0 <= i < list.len() ==> #[trigger] with_entries(s, list).entries[s.entries.len() + i]
                == ((s.next_entry_id + i) as u64, list[i]),
    decreases list.len(),
{
    if list.len() > 0 {
        let before: StateView = with_entries(s, list.drop_last());
        lemma_with_entries(s, list.drop_last());
        lemma_with_entry(before, list.last());
        let n: int = list.len() - 1;
        assert forall|i: int| 0 <= i < list.len() implies #[trigger] with_entries(
            s,
            list,
        ).entries[s.entries.len() + i] == ((s.next_entry_id + i) as u64, list[i]) by {
            if i < n {
                assert(before.entries[s.entries.len() + i] == (
                    (s.next_entry_id + i) as u64,
                    list.drop_last()[i],
                ));
            }
        }
    }
}
/// Adds one entry.
fn push_entry(state: &mut State, entry: Entry)
    requires
        old(state)@.next_entry_id < u64::MAX,
    ensures
        final(state)@ == with_entry(old(state)@, entry@),
{
    let id: u64 = state.next_entry_id;
    state.entries.put(id, entry);
    state.next_entry_id = id + 1;
}

/// Records a mint. Only the NFT contract may.
pub fn record_entry(
    state: &mut State,
    env: &Env,
    sender: &String,
    token_id: String,
    minter: &String,
    entries: u32,
    amount: u128,
    entropy: Vec<u8>,
    addresses: &Vec<Answer>,
) -> (result: Result<Response, ContractError>)
    requires
        old(state)@.wf(),
        old(state)@.next_entry_id < u64::MAX,
    ensures
        accords(
            result,
            old(state)@,
            final(state)@,
            record_entry_outcome(
                old(state)@,
                *env,
                sender@,
                token_id@,
                minter@,
                entries,
                amount,
                entropy@,
                answer_views(addresses@),
            ),
        ),
        final(state)@.wf(),
{
    if *sender != state.config.nft_contract {
        return Err(ContractError::Unauthorized {  });
    }
    if state.config.paused {
        return Err(ContractError::Paused {  });
    }
    if entries == 0 {
        return Err(ContractError::ZeroEntries {  });
    }
    if entropy.len() == 0 || entropy.len() > MAX_ENTROPY_BYTES {
        return Err(ContractError::BadEntropy { max: MAX_ENTROPY_BYTES });
    }
    let minter: String = match find_answer(addresses, minter) {
        Ok(address) => address,
        Err(e) => return Err(ContractError::Std(e)),
    };
    let response: Response = Response::new().add_attribute(
        "action",
        "record_entry".to_owned(),
    ).add_attribute("entry_id", decimal_text(state.next_entry_id as u128)).add_attribute(
        "token_id",
        token_id.clone(),
    ).add_attribute("entries", decimal_text(entries as u128)).add_attribute(
        "amount",
        decimal_text(amount),
    );
    let entry: Entry = Entry {
        token_id,
        minter,
        entries,
        amount,
        entropy,
        recorded_at: env.time,
        free: false,
    };
    proof {
        lemma_with_entry(state@, entry@);
        assert(response@ =~= report(
            seq![
                ("action"@, "record_entry"@),
                ("entry_id"@, decimal(state.next_entry_id as nat)),
                ("token_id"@, token_id@),
                ("entries"@, decimal(entries as nat)),
                ("amount"@, decimal(amount as nat)),
            ],
        ));
    }
    push_entry(state, entry);
    Ok(response)
}

/// The entries in a list.
pub open spec fn entry_list(list: Seq<Entry>) -> Seq<EntryView> {
    list.map_values(|entry: Entry| entry@)
}

/// The entry of one free item, or why it is refused.
fn free_item(item: &FreeEntryItem, now: u64, addresses: &Vec<Answer>) -> (entry: Result<
    Entry,
    ContractError,
>)
    ensures
        viewed(entry) == free_item_outcome(item@, now, answer_views(addresses@)),
{
    if item.tickets == 0 {
        return Err(ContractError::ZeroEntries {  });
    }
    let entropy: Vec<u8> = joined(&Vec::new(), item.tx_hash.as_str().as_bytes());
    assert(entropy@ =~= encode_utf8(item.tx_hash@));
    if entropy.len() == 0 || entropy.len() > MAX_ENTROPY_BYTES {
        return Err(ContractError::BadEntropy { max: MAX_ENTROPY_BYTES });
    }
    match find_answer(addresses, &item.wallet) {
        Ok(wallet) => {
            let entry: Entry = Entry {
                token_id: String::new(),
                minter: wallet,
                entries: item.tickets,
                amount: 0,
                entropy,
                recorded_at: now,
                free: true,
            };
            assert(entry@ =~= free_entry(item@, wallet@, now));
            Ok(entry)
        },
        Err(e) => Err(ContractError::Std(e)),
    }
}

/// A bad item stops the batch there.
proof fn lemma_batch_error(
    items: Seq<FreeEntryItemView>,
    n: int,
    now: u64,
    addresses: Seq<AnswerView>,
)
    requires
        0 <= n <= items.len(),
        free_batch_outcome(items.take(n), now, addresses) is Err,
    ensures
        free_batch_outcome(items, now, addresses) == free_batch_outcome(
            items.take(n),
            now,
            addresses,
        ),
    decreases items.len(),
{
    if n == items.len() {
        assert(items.take(n) =~= items);
    } else {
        assert(items.drop_last().take(n) =~= items.take(n));
        lemma_batch_error(items.drop_last(), n, now, addresses);
    }
}

/// The entries of a batch, or why the first bad item is refused.
fn free_batch(items: &Vec<FreeEntryItem>, now: u64, addresses: &Vec<Answer>) -> (list: Result<
    Vec<Entry>,
    ContractError,
>)
    ensures
        match free_batch_outcome(item_views(items@), now, answer_views(addresses@)) {
            Ok(entries) => list matches Ok(l) && entry_list(l@) == entries,
            Err(error) => list matches Err(e) && e@ == error,
        },
{
    let ghost views: Seq<FreeEntryItemView> = item_views(items@);
    let mut list: Vec<Entry> = Vec::new();
    let mut i: usize = 0;
    assert(views.take(0) =~= Seq::empty());
    assert(entry_list(list@) =~= Seq::empty());
    while i < items.len()
        invariant
            i <= items@.len(),
            views == item_views(items@),
            free_batch_outcome(views.take(i as int), now, answer_views(addresses@)) == Ok::<
                _,
                ContractErrorView,
            >(entry_list(list@)),
        decreases items@.len() - i,
    {
        let ghost before: Seq<EntryView> = entry_list(list@);
        proof {
            assert(views.take(i + 1).drop_last() =~= views.take(i as int));
            assert(views.take(i + 1).last() == items@[i as int]@);
        }
        match free_item(&items[i], now, addresses) {
            Ok(entry) => {
                list.push(entry);
                assert(entry_list(list@) =~= before.push(entry@));
            },
            Err(e) => {
                proof {
                    lemma_batch_error(views, i + 1, now, answer_views(addresses@));
                }
                return Err(e);
            },
        }
        i = i + 1;
    }
    assert(views.take(i as int) =~= views);
    Ok(list)
}

/// Adds these entries in order.
fn push_entries(state: &mut State, list: &Vec<Entry>)
    requires
        old(state)@.next_entry_id + list@.len() <= u64::MAX,
    ensures
        final(state)@ == with_entries(old(state)@, entry_list(list@)),
{
    let ghost s: StateView = state@;
    let ghost views: Seq<EntryView> = entry_list(list@);
    let mut i: usize = 0;
    assert(views.take(0) =~= Seq::empty());
    while i < list.len()
        invariant
            i <= list@.len(),
            views == entry_list(list@),
            s.next_entry_id + list@.len() <= u64::MAX,
            state@ == with_entries(s, views.take(i as int)),
            state@.next_entry_id == s.next_entry_id + i,
        decreases list@.len() - i,
    {
        proof {
            assert(views.take(i + 1).drop_last() =~= views.take(i as int));
            assert(views.take(i + 1).last() == list@[i as int]@);
        }
        push_entry(state, list[i].clone());
        i = i + 1;
    }
    assert(views.take(i as int) =~= views);
}

/// Records free entries, all of them or none. Only the admin may, and only
/// while a round takes entries.
pub fn record_free_entries(
    state: &mut State,
    env: &Env,
    sender: &String,
    items: &Vec<FreeEntryItem>,
    addresses: &Vec<Answer>,
) -> (result: Result<Response, ContractError>)
    requires
        old(state)@.wf(),
        old(state)@.next_entry_id + items@.len() <= u64::MAX,
    ensures
        accords(
            result,
            old(state)@,
            final(state)@,
            record_free_entries_outcome(
                old(state)@,
                *env,
                sender@,
                item_views(items@),
                answer_views(addresses@),
            ),
        ),
        final(state)@.wf(),
{
    if *sender != state.config.admin {
        return Err(ContractError::Unauthorized {  });
    }
    if items.len() == 0 {
        return Err(ContractError::BadFreeBatch {  });
    }
    if current_row(state, env.time).is_none() {
        return Err(ContractError::FreeEntriesClosed { round_id: state.last_round_id });
    }
    let list: Vec<Entry> = match free_batch(items, env.time, addresses) {
        Ok(list) => list,
        Err(e) => return Err(e),
    };
    proof {
        lemma_free_batch(item_views(items@), env.time, answer_views(addresses@));
        lemma_with_entries(state@, entry_list(list@));
    }
    push_entries(state, &list);
    let response: Response = Response::new().add_attribute(
        "action",
        "record_free_entries".to_owned(),
    ).add_attribute("count", decimal_text(items.len() as u128));
    assert(response@ =~= report(
        seq![("action"@, "record_free_entries"@), ("count"@, decimal(items@.len()))],
    ));
    Ok(response)
}

} // verus!
