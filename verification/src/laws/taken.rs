//! Which calls that record, open and configure are taken, what they leave, and
//! what they say.

use vstd::prelude::*;
use vstd::utf8::encode_utf8;

use crate::contract::{has_room, instantiate_outcome, migrate_outcome};
use crate::entries::{
    free_batch_outcome, free_item_outcome, lemma_free_batch, lemma_with_entries, lemma_with_entry,
};
use crate::error::ContractErrorView;
use crate::laws::calls::{goes, outcome_of, Call};
use crate::laws::queries::law_the_current_round_is_the_first_open_one;
use crate::msg::{
    answer_to, AnswerView, ConfigUpdateView, Env, ExecuteMsgView, FreeEntryItemView,
    InstantiateMsgView, MigrateMsgView, ResponseView,
};
use crate::outcome::Outcome;
use crate::rounds::{fresh_round, lemma_open_round, taking_entries};
use crate::state::{
    share_sum, ConfigView, EntryView, RoundStatus, RoundTermsView, RoundView, StateView,
};
use crate::table::find;
use crate::text::decimal;

verus! {

/// A refusal.
pub open spec fn refused(error: ContractErrorView) -> Outcome {
    Err(error)
}

/// A mint is taken whenever it comes from the NFT contract, the pool is not
/// paused, it has a ticket and 1 to 256 bytes of entropy, and its minter's
/// address is valid; and only then. It is refused for the first of these that
/// fails.
pub proof fn law_when_a_mint_is_taken(
    s: StateView,
    call: Call,
    token_id: Seq<char>,
    minter: Seq<char>,
    entries: u32,
    amount: u128,
    entropy: Seq<u8>,
)
    requires
        call.msg == (ExecuteMsgView::RecordEntry { token_id, minter, entries, amount, entropy }),
    ensures
        outcome_of(s, call) is Ok <==> {
            &&& call.sender == s.config.nft_contract
            &&& !s.config.paused
            &&& entries > 0
            &&& 1 <= entropy.len() <= 256
            &&& answer_to(call.addresses, minter) is Ok
        },
        outcome_of(s, call) is Err ==> outcome_of(s, call) == if call.sender
            != s.config.nft_contract {
            refused(ContractErrorView::Unauthorized)
        } else if s.config.paused {
            refused(ContractErrorView::Paused)
        } else if entries == 0 {
            refused(ContractErrorView::ZeroEntries)
        } else if !(1 <= entropy.len() <= 256) {
            refused(ContractErrorView::BadEntropy { max: 256 })
        } else {
            refused(ContractErrorView::Std(answer_to(call.addresses, minter)->Err_0))
        },
{
}

/// A mint that is taken is recorded behind all others, under the next id, as it
/// was sent and with the minter's valid address; all else stays. The response
/// tells it.
pub proof fn law_what_a_mint_leaves(
    s: StateView,
    call: Call,
    after: StateView,
    response: ResponseView,
    token_id: Seq<char>,
    minter: Seq<char>,
    entries: u32,
    amount: u128,
    entropy: Seq<u8>,
)
    requires
        s.wf(),
        has_room(s, call.msg),
        goes(s, call, after, response),
        call.msg == (ExecuteMsgView::RecordEntry { token_id, minter, entries, amount, entropy }),
    ensures
        after.entries == s.entries.push(
            (
                s.next_entry_id,
                EntryView {
                    token_id,
                    minter: answer_to(call.addresses, minter)->Ok_0,
                    entries,
                    amount,
                    entropy,
                    recorded_at: call.env.time,
                    free: false,
                },
            ),
        ),
        after.next_entry_id == s.next_entry_id + 1,
        after == (StateView {
            entries: after.entries,
            next_entry_id: after.next_entry_id,
            ..s
        }),
        response.messages.len() == 0,
        response.attributes == seq![
            ("action"@, "record_entry"@),
            ("entry_id"@, decimal(s.next_entry_id as nat)),
            ("token_id"@, token_id),
            ("entries"@, decimal(entries as nat)),
            ("amount"@, decimal(amount as nat)),
        ],
{
    lemma_with_entry(
        s,
        EntryView {
            token_id,
            minter: answer_to(call.addresses, minter)->Ok_0,
            entries,
            amount,
            entropy,
            recorded_at: call.env.time,
            free: false,
        },
    );
}

/// What a free item needs: a ticket, 1 to 256 bytes of hash, and a wallet with a
/// valid address.
pub open spec fn item_is_good(item: FreeEntryItemView, addresses: Seq<AnswerView>) -> bool {
    &&& item.tickets > 0
    &&& 1 <= encode_utf8(item.tx_hash).len() <= 256
    &&& answer_to(addresses, item.wallet) is Ok
}

/// Some round that is not settled has not closed.
pub open spec fn some_round_is_open(s: StateView, now: u64) -> bool {
    exists|id: u64|
        s.next_unsettled_id <= id && (#[trigger] find(s.rounds, id) matches Some(round) && now
            < round.close_time)
}

proof fn lemma_batch_is_good(items: Seq<FreeEntryItemView>, now: u64, addresses: Seq<AnswerView>)
    ensures
        free_batch_outcome(items, now, addresses) is Ok <==> forall|i: int|
            0 <= i < items.len() ==> item_is_good(#[trigger] items[i], addresses),
        free_batch_outcome(items, now, addresses) matches Ok(list) ==> list == Seq::new(
            items.len(),
            |i: int|
                EntryView {
                    token_id: Seq::empty(),
                    minter: answer_to(addresses, items[i].wallet)->Ok_0,
                    entries: items[i].tickets,
                    amount: 0,
                    entropy: encode_utf8(items[i].tx_hash),
                    recorded_at: now,
                    free: true,
                },
        ),
    decreases items.len(),
{
    if items.len() > 0 {
        let shorter: Seq<FreeEntryItemView> = items.drop_last();
        lemma_batch_is_good(shorter, now, addresses);
        assert forall|i: int| 0 <= i < shorter.len() implies #[trigger] shorter[i] == items[i] by {}
        if forall|i: int| 0 <= i < items.len() ==> item_is_good(#[trigger] items[i], addresses) {
            assert forall|i: int| 0 <= i < shorter.len() implies item_is_good(
                #[trigger] shorter[i],
                addresses,
            ) by {
                assert(item_is_good(items[i], addresses));
            }
            assert(item_is_good(items[items.len() - 1], addresses));
        }
        if free_batch_outcome(items, now, addresses) is Ok {
            assert forall|i: int| 0 <= i < items.len() implies item_is_good(
                #[trigger] items[i],
                addresses,
            ) by {
                if i < shorter.len() {
                    assert(item_is_good(shorter[i], addresses));
                }
            }
            let list: Seq<EntryView> = free_batch_outcome(items, now, addresses)->Ok_0;
            assert(list =~= Seq::new(
                items.len(),
                |i: int|
                    EntryView {
                        token_id: Seq::empty(),
                        minter: answer_to(addresses, items[i].wallet)->Ok_0,
                        entries: items[i].tickets,
                        amount: 0,
                        entropy: encode_utf8(items[i].tx_hash),
                        recorded_at: now,
                        free: true,
                    },
            ));
        }
    }
}

proof fn lemma_first_bad_item(
    items: Seq<FreeEntryItemView>,
    now: u64,
    addresses: Seq<AnswerView>,
    k: int,
)
    requires
        0 <= k < items.len(),
        !item_is_good(items[k], addresses),
        forall|i: int| 0 <= i < k ==> item_is_good(#[trigger] items[i], addresses),
    ensures
        free_batch_outcome(items, now, addresses) == Err::<Seq<EntryView>, _>(
            free_item_outcome(items[k], now, addresses)->Err_0,
        ),
    decreases items.len(),
{
    let shorter: Seq<FreeEntryItemView> = items.drop_last();
    assert forall|i: int| 0 <= i < k implies item_is_good(#[trigger] shorter[i], addresses) by {
        assert(item_is_good(items[i], addresses));
    }
    if k < shorter.len() {
        assert(shorter[k] == items[k]);
        lemma_first_bad_item(shorter, now, addresses, k);
    } else {
        lemma_batch_is_good(shorter, now, addresses);
    }
}

/// A batch of free entries is taken whenever it comes from the admin, is not
/// empty, some round is open, and every item is good; and only then.
pub proof fn law_when_free_entries_are_taken(
    s: StateView,
    call: Call,
    items: Seq<FreeEntryItemView>,
)
    requires
        s.wf(),
        call.msg == (ExecuteMsgView::RecordFreeEntries { entries: items }),
    ensures
        outcome_of(s, call) is Ok <==> {
            &&& call.sender == s.config.admin
            &&& items.len() > 0
            &&& some_round_is_open(s, call.env.time)
            &&& forall|i: int|
                0 <= i < items.len() ==> item_is_good(#[trigger] items[i], call.addresses)
        },
        call.sender != s.config.admin ==> outcome_of(s, call) == refused(
            ContractErrorView::Unauthorized,
        ),
        call.sender == s.config.admin && items.len() == 0 ==> outcome_of(s, call) == refused(
            ContractErrorView::BadFreeBatch,
        ),
        call.sender == s.config.admin && items.len() > 0 && !some_round_is_open(s, call.env.time)
            ==> outcome_of(s, call) == refused(
            ContractErrorView::FreeEntriesClosed { round_id: s.last_round_id },
        ),
{
    lemma_some_round_is_open(s, call.env.time);
    lemma_batch_is_good(items, call.env.time, call.addresses);
}

proof fn lemma_some_round_is_open(s: StateView, now: u64)
    requires
        s.wf(),
    ensures
        some_round_is_open(s, now) <==> taking_entries(s, now) is Some,
{
    law_the_current_round_is_the_first_open_one(s, now);
    if let Some((id, round)) = taking_entries(s, now) {
        assert(find(s.rounds, id) == Some(round));
    }
}

/// A batch with a bad item is refused for the first of them.
pub proof fn law_the_first_bad_item_stops_a_batch(
    s: StateView,
    call: Call,
    items: Seq<FreeEntryItemView>,
    k: int,
)
    requires
        s.wf(),
        call.msg == (ExecuteMsgView::RecordFreeEntries { entries: items }),
        call.sender == s.config.admin,
        some_round_is_open(s, call.env.time),
        0 <= k < items.len(),
        !item_is_good(items[k], call.addresses),
        forall|i: int| 0 <= i < k ==> item_is_good(#[trigger] items[i], call.addresses),
    ensures
        outcome_of(s, call) == if items[k].tickets == 0 {
            refused(ContractErrorView::ZeroEntries)
        } else if !(1 <= encode_utf8(items[k].tx_hash).len() <= 256) {
            refused(ContractErrorView::BadEntropy { max: 256 })
        } else {
            refused(ContractErrorView::Std(answer_to(call.addresses, items[k].wallet)->Err_0))
        },
{
    lemma_some_round_is_open(s, call.env.time);
    lemma_first_bad_item(items, call.env.time, call.addresses, k);
}

/// Free entries that are taken are recorded behind all others, in order, each
/// under the next id: with its tickets, its wallet, the hash for entropy, no
/// token and no money.
pub proof fn law_what_free_entries_leave(
    s: StateView,
    call: Call,
    after: StateView,
    response: ResponseView,
    items: Seq<FreeEntryItemView>,
)
    requires
        s.wf(),
        has_room(s, call.msg),
        goes(s, call, after, response),
        call.msg == (ExecuteMsgView::RecordFreeEntries { entries: items }),
    ensures
        after.entries.len() == s.entries.len() + items.len(),
        forall|i: int| 0 <= i < s.entries.len() ==> #[trigger] after.entries[i] == s.entries[i],
        forall|i: int|
            s.entries.len() <= i < after.entries.len() ==> #[trigger] after.entries[i] == (
                (s.next_entry_id + i - s.entries.len()) as u64,
                EntryView {
                    token_id: Seq::empty(),
                    minter: answer_to(
                        call.addresses,
                        items[i - s.entries.len()].wallet,
                    )->Ok_0,
                    entries: items[i - s.entries.len()].tickets,
                    amount: 0,
                    entropy: encode_utf8(items[i - s.entries.len()].tx_hash),
                    recorded_at: call.env.time,
                    free: true,
                },
            ),
        after.next_entry_id == s.next_entry_id + items.len(),
        after == (StateView {
            entries: after.entries,
            next_entry_id: after.next_entry_id,
            ..s
        }),
        response.messages.len() == 0,
        response.attributes == seq![
            ("action"@, "record_free_entries"@),
            ("count"@, decimal(items.len())),
        ],
{
    let list: Seq<EntryView> = free_batch_outcome(items, call.env.time, call.addresses)->Ok_0;
    lemma_batch_is_good(items, call.env.time, call.addresses);
    lemma_free_batch(items, call.env.time, call.addresses);
    lemma_with_entries(s, list);
    assert forall|i: int| s.entries.len() <= i < after.entries.len() implies #[trigger] after.entries[i]
        == (
        (s.next_entry_id + i - s.entries.len()) as u64,
        EntryView {
            token_id: Seq::empty(),
            minter: answer_to(call.addresses, items[i - s.entries.len()].wallet)->Ok_0,
            entries: items[i - s.entries.len()].tickets,
            amount: 0,
            entropy: encode_utf8(items[i - s.entries.len()].tx_hash),
            recorded_at: call.env.time,
            free: true,
        },
    ) by {
        let k: int = i - s.entries.len();
        assert(after.entries[s.entries.len() + k] == ((s.next_entry_id + k) as u64, list[k]));
    }
}

/// A round is opened whenever the admin or the operator asks, the commitment has
/// 32 bytes, and the round closes after now and after the last one; and only
/// then. It is refused for the first of these that fails.
pub proof fn law_when_a_round_is_opened(
    s: StateView,
    call: Call,
    seed_hash: Seq<u8>,
    close_time: u64,
    last: RoundView,
)
    requires
        call.msg == (ExecuteMsgView::OpenRound { seed_hash, close_time }),
        find(s.rounds, s.last_round_id) == Some(last),
        seed_hash.len() <= usize::MAX,
    ensures
        ({
            let may: bool = call.sender == s.config.admin || (s.config.operator matches Some(
                operator,
            ) && call.sender == operator);
            &&& outcome_of(s, call) is Ok <==> {
                &&& may
                &&& seed_hash.len() == 32
                &&& call.env.time < close_time
                &&& last.close_time < close_time
            }
            &&& outcome_of(s, call) is Err ==> outcome_of(s, call) == if !may {
                refused(ContractErrorView::Unauthorized)
            } else if seed_hash.len() != 32 {
                refused(ContractErrorView::BadSeedHash { got: seed_hash.len() as usize })
            } else if close_time <= call.env.time {
                refused(ContractErrorView::CloseTimeInPast)
            } else {
                refused(
                    ContractErrorView::CloseTimeNotAfterPrevious {
                        previous: (last.close_time / 1_000_000_000) as u64,
                    },
                )
            }
        }),
{
}

/// Without a last round nothing can be opened behind it.
pub proof fn law_no_round_is_opened_behind_a_missing_one(
    s: StateView,
    call: Call,
    seed_hash: Seq<u8>,
    close_time: u64,
)
    requires
        call.msg == (ExecuteMsgView::OpenRound { seed_hash, close_time }),
        call.sender == s.config.admin,
        seed_hash.len() == 32,
        call.env.time < close_time,
        find(s.rounds, s.last_round_id) is None,
    ensures
        outcome_of(s, call) == refused(
            ContractErrorView::RoundNotFound { round_id: s.last_round_id },
        ),
{
}

/// A round that is opened stands behind all others, under the next id: open,
/// with its commitment, its close, the time, and the terms of the day; all else
/// stays. The response tells it, and whether the round before had closed.
pub proof fn law_what_an_opening_leaves(
    s: StateView,
    call: Call,
    after: StateView,
    response: ResponseView,
    seed_hash: Seq<u8>,
    close_time: u64,
    last: RoundView,
)
    requires
        s.wf(),
        has_room(s, call.msg),
        goes(s, call, after, response),
        call.msg == (ExecuteMsgView::OpenRound { seed_hash, close_time }),
        find(s.rounds, s.last_round_id) == Some(last),
    ensures
        after.last_round_id == s.last_round_id + 1,
        after.rounds == s.rounds.push(
            (
                after.last_round_id,
                RoundView {
                    seed_hash,
                    opened_at: call.env.time,
                    close_time,
                    status: RoundStatus::Open,
                    first_entry_id: None,
                    last_entry_id: None,
                    secret: None,
                    entropy: None,
                    result: None,
                    total_entries: None,
                    winner_indexes: Seq::empty(),
                    winners: Seq::empty(),
                    pot: None,
                    settled_at: None,
                    has_late_entries: false,
                    terms: Some(
                        RoundTermsView {
                            treasury_bps: s.config.treasury_bps,
                            payout_bps: s.config.payout_bps,
                            caller_bps: s.config.caller_bps,
                            min_entries: s.config.min_entries,
                            min_pot: s.config.min_pot,
                            stale_after_secs: s.config.stale_after_secs,
                        },
                    ),
                },
            ),
        ),
        after == (StateView {
            rounds: after.rounds,
            last_round_id: after.last_round_id,
            ..s
        }),
        response.messages.len() == 0,
        response.attributes == seq![
            ("action"@, "open_round"@),
            ("round_id"@, decimal((s.last_round_id + 1) as nat)),
            ("close_time"@, decimal((close_time / 1_000_000_000) as nat)),
            (
                "opened_after_previous_closed"@,
                if call.env.time >= last.close_time {
                    "true"@
                } else {
                    "false"@
                },
            ),
        ],
{
    lemma_open_round(s, fresh_round(seed_hash, call.env.time, close_time, s.config.terms()));
}

/// What is given, or what was there.
pub open spec fn or_else<T>(given: Option<T>, present: T) -> T {
    match given {
        Some(given) => given,
        None => present,
    }
}

/// The valid form of the address that is given, or the one that was there.
pub open spec fn valid_or(
    given: Option<Seq<char>>,
    addresses: Seq<AnswerView>,
    present: Seq<char>,
) -> Seq<char> {
    match given {
        Some(given) => answer_to(addresses, given)->Ok_0,
        None => present,
    }
}

/// The address, if one is given, is valid.
pub open spec fn is_valid(given: Option<Seq<char>>, addresses: Seq<AnswerView>) -> bool {
    given matches Some(given) ==> answer_to(addresses, given) is Ok
}

/// After an update each field is what was given, or what it was if nothing was
/// given, whatever the other fields hold; an address is taken in its valid form.
/// The denomination is never changed, nor anything but the configuration.
pub proof fn law_what_an_update_leaves(
    s: StateView,
    call: Call,
    after: StateView,
    response: ResponseView,
    update: ConfigUpdateView,
)
    requires
        goes(s, call, after, response),
        call.msg == (ExecuteMsgView::UpdateConfig { update }),
    ensures
        after == (StateView { config: after.config, ..s }),
        after.config.admin == valid_or(update.admin, call.addresses, s.config.admin),
        after.config.operator == match update.operator {
            Some(given) => Some(answer_to(call.addresses, given)->Ok_0),
            None => s.config.operator,
        },
        after.config.nft_contract == valid_or(
            update.nft_contract,
            call.addresses,
            s.config.nft_contract,
        ),
        after.config.treasury == valid_or(update.treasury, call.addresses, s.config.treasury),
        after.config.denom == s.config.denom,
        after.config.treasury_bps == or_else(update.treasury_bps, s.config.treasury_bps),
        after.config.payout_bps == or_else(update.payout_bps, s.config.payout_bps),
        after.config.caller_bps == or_else(update.caller_bps, s.config.caller_bps),
        after.config.min_entries == or_else(update.min_entries, s.config.min_entries),
        after.config.min_pot == or_else(update.min_pot, s.config.min_pot),
        after.config.stale_after_secs == or_else(
            update.stale_after_secs,
            s.config.stale_after_secs,
        ),
        after.config.paused == or_else(update.paused, s.config.paused),
        response.messages.len() == 0,
        response.attributes == seq![
            ("action"@, "update_config"@),
            ("admin"@, after.config.admin),
        ],
{
}

/// An update is taken whenever the sender may make it, every address in it is
/// valid, and what a round pays would come to no more than the whole pot, with a
/// place to win; and only then. The admin may make any update, the operator one
/// that holds the two thresholds and the pause alone.
pub proof fn law_when_an_update_is_taken(s: StateView, call: Call, update: ConfigUpdateView)
    requires
        call.msg == (ExecuteMsgView::UpdateConfig { update }),
    ensures
        ({
            let small: bool = update.admin is None && update.operator is None
                && update.nft_contract is None && update.treasury is None
                && update.treasury_bps is None && update.payout_bps is None
                && update.caller_bps is None && update.stale_after_secs is None;
            let operates: bool = match s.config.operator {
                Some(operator) => call.sender == operator,
                None => call.sender == s.config.admin,
            };
            let may: bool = call.sender == s.config.admin || (operates && small);
            let payout: Seq<u64> = or_else(update.payout_bps, s.config.payout_bps);
            let total: nat = share_sum(payout) + or_else(
                update.treasury_bps,
                s.config.treasury_bps,
            ) as nat + or_else(update.caller_bps, s.config.caller_bps) as nat;
            &&& outcome_of(s, call) is Ok <==> {
                &&& may
                &&& is_valid(update.admin, call.addresses)
                &&& is_valid(update.operator, call.addresses)
                &&& is_valid(update.nft_contract, call.addresses)
                &&& is_valid(update.treasury, call.addresses)
                &&& total <= 10_000
                &&& payout.len() > 0
            }
            &&& outcome_of(s, call) is Err ==> outcome_of(s, call) == if !may {
                refused(ContractErrorView::Unauthorized)
            } else if !is_valid(update.admin, call.addresses) {
                refused(
                    ContractErrorView::Std(answer_to(call.addresses, update.admin->0)->Err_0),
                )
            } else if !is_valid(update.operator, call.addresses) {
                refused(
                    ContractErrorView::Std(answer_to(call.addresses, update.operator->0)->Err_0),
                )
            } else if !is_valid(update.nft_contract, call.addresses) {
                refused(
                    ContractErrorView::Std(
                        answer_to(call.addresses, update.nft_contract->0)->Err_0,
                    ),
                )
            } else if !is_valid(update.treasury, call.addresses) {
                refused(
                    ContractErrorView::Std(answer_to(call.addresses, update.treasury->0)->Err_0),
                )
            } else if total > 10_000 {
                refused(
                    ContractErrorView::InvalidConfig {
                        reason: "payout + treasury + caller = "@ + decimal(total)
                            + " bps, must be <= 10000"@,
                    },
                )
            } else {
                refused(
                    ContractErrorView::InvalidConfig {
                        reason: "payout_bps must have at least one place"@,
                    },
                )
            }
        }),
{
}

/// A pool is set up whenever the commitment has 32 bytes, the first round closes
/// after now, the denomination is named, every address is valid, and what a
/// round pays comes to no more than the whole pot, with a place to win; and only
/// then. It is refused for the first of these that fails.
pub proof fn law_when_a_pool_is_set_up(
    env: Env,
    msg: InstantiateMsgView,
    addresses: Seq<AnswerView>,
)
    requires
        msg.first_seed_hash.len() <= usize::MAX,
    ensures
        ({
            let total: nat = share_sum(msg.payout_bps) + msg.treasury_bps as nat
                + msg.caller_bps as nat;
            let outcome: Outcome = instantiate_outcome(env, msg, addresses);
            &&& outcome is Ok <==> {
                &&& msg.first_seed_hash.len() == 32
                &&& env.time < msg.first_close_time
                &&& msg.denom.len() > 0
                &&& answer_to(addresses, msg.admin) is Ok
                &&& is_valid(msg.operator, addresses)
                &&& answer_to(addresses, msg.nft_contract) is Ok
                &&& answer_to(addresses, msg.treasury) is Ok
                &&& total <= 10_000
                &&& msg.payout_bps.len() > 0
            }
            &&& outcome is Err ==> outcome == if msg.first_seed_hash.len() != 32 {
                refused(
                    ContractErrorView::BadSeedHash { got: msg.first_seed_hash.len() as usize },
                )
            } else if msg.first_close_time <= env.time {
                refused(ContractErrorView::CloseTimeInPast)
            } else if msg.denom.len() == 0 {
                refused(ContractErrorView::InvalidConfig { reason: "denom must not be empty"@ })
            } else if answer_to(addresses, msg.admin) is Err {
                refused(ContractErrorView::Std(answer_to(addresses, msg.admin)->Err_0))
            } else if !is_valid(msg.operator, addresses) {
                refused(ContractErrorView::Std(answer_to(addresses, msg.operator->0)->Err_0))
            } else if answer_to(addresses, msg.nft_contract) is Err {
                refused(ContractErrorView::Std(answer_to(addresses, msg.nft_contract)->Err_0))
            } else if answer_to(addresses, msg.treasury) is Err {
                refused(ContractErrorView::Std(answer_to(addresses, msg.treasury)->Err_0))
            } else if total > 10_000 {
                refused(
                    ContractErrorView::InvalidConfig {
                        reason: "payout + treasury + caller = "@ + decimal(total)
                            + " bps, must be <= 10000"@,
                    },
                )
            } else {
                refused(
                    ContractErrorView::InvalidConfig {
                        reason: "payout_bps must have at least one place"@,
                    },
                )
            }
        }),
{
}

/// A pool that is set up is configured as asked, with valid addresses, not
/// paused, and with an operator only if one was named. Round 1 is open with its
/// commitment and those terms; there is nothing else.
pub proof fn law_what_setup_leaves(
    env: Env,
    msg: InstantiateMsgView,
    addresses: Seq<AnswerView>,
    after: StateView,
    response: ResponseView,
)
    requires
        instantiate_outcome(env, msg, addresses) == Ok::<_, ContractErrorView>((after, response)),
    ensures
        after.config.admin == answer_to(addresses, msg.admin)->Ok_0,
        after.config.operator == match msg.operator {
            Some(given) => Some(answer_to(addresses, given)->Ok_0),
            None => None,
        },
        after.config.nft_contract == answer_to(addresses, msg.nft_contract)->Ok_0,
        after.config.denom == msg.denom,
        after.config.treasury == answer_to(addresses, msg.treasury)->Ok_0,
        after.config.treasury_bps == msg.treasury_bps,
        after.config.payout_bps == msg.payout_bps,
        after.config.caller_bps == msg.caller_bps,
        after.config.min_entries == msg.min_entries,
        after.config.min_pot == msg.min_pot,
        after.config.stale_after_secs == msg.stale_after_secs,
        !after.config.paused,
        after.entries.len() == 0,
        after.next_entry_id == 1,
        after.next_unsettled_id == 1,
        after.last_round_id == 1,
        after.carry == 0,
        after.rounds == seq![
            (
                1u64,
                RoundView {
                    seed_hash: msg.first_seed_hash,
                    opened_at: env.time,
                    close_time: msg.first_close_time,
                    status: RoundStatus::Open,
                    first_entry_id: None,
                    last_entry_id: None,
                    secret: None,
                    entropy: None,
                    result: None,
                    total_entries: None,
                    winner_indexes: Seq::empty(),
                    winners: Seq::empty(),
                    pot: None,
                    settled_at: None,
                    has_late_entries: false,
                    terms: Some(
                        RoundTermsView {
                            treasury_bps: msg.treasury_bps,
                            payout_bps: msg.payout_bps,
                            caller_bps: msg.caller_bps,
                            min_entries: msg.min_entries,
                            min_pot: msg.min_pot,
                            stale_after_secs: msg.stale_after_secs,
                        },
                    ),
                },
            ),
        ],
        response.messages.len() == 0,
        response.attributes == seq![
            ("action"@, "instantiate"@),
            ("admin"@, after.config.admin),
            ("first_close_time"@, decimal((msg.first_close_time / 1_000_000_000) as nat)),
        ],
{
}

/// A pool is moved whenever the addresses that are given are valid, and only
/// then. The operator becomes the one that is given, else the one there was,
/// else the admin there was; the admin and the wait are replaced if given; all
/// else stays.
pub proof fn law_what_migration_leaves(
    s: StateView,
    msg: MigrateMsgView,
    addresses: Seq<AnswerView>,
)
    ensures
        migrate_outcome(s, msg, addresses) == if !is_valid(msg.admin, addresses) {
            refused(ContractErrorView::Std(answer_to(addresses, msg.admin->0)->Err_0))
        } else if !is_valid(msg.operator, addresses) {
            refused(ContractErrorView::Std(answer_to(addresses, msg.operator->0)->Err_0))
        } else {
            Ok(
                (
                    StateView {
                        config: ConfigView {
                            admin: valid_or(msg.admin, addresses, s.config.admin),
                            operator: Some(
                                valid_or(
                                    msg.operator,
                                    addresses,
                                    or_else(s.config.operator, s.config.admin),
                                ),
                            ),
                            nft_contract: s.config.nft_contract,
                            denom: s.config.denom,
                            treasury: s.config.treasury,
                            treasury_bps: s.config.treasury_bps,
                            payout_bps: s.config.payout_bps,
                            caller_bps: s.config.caller_bps,
                            min_entries: s.config.min_entries,
                            min_pot: s.config.min_pot,
                            stale_after_secs: or_else(
                                msg.stale_after_secs,
                                s.config.stale_after_secs,
                            ),
                            paused: s.config.paused,
                        },
                        ..s
                    },
                    ResponseView {
                        messages: Seq::empty(),
                        attributes: seq![("action"@, "migrate"@)],
                    },
                ),
            )
        },
{
}

} // verus!
