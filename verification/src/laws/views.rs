//! The views that the contracts speak over lose nothing: each field of a
//! value stands in its view.

use vstd::prelude::*;

use crate::entries::entry_list;
use crate::error::{ContractError, StdError, StdErrorView};
use crate::msg::{
    answer_views, item_views, Answer, Attribute, BankSend, ConfigResponse, ConfigUpdate,
    EntriesResponse, EntryResponse, ExecuteMsg, FreeEntryItem, InstantiateMsg,
    MigrateMsg, PotResponse, ProofResponse, Response, RoundResponse, RoundsResponse,
};
use crate::state::{Config, Entry, Round, RoundTerms, State};
use crate::table::Table;

verus! {

/// What an optional value holds, by its view.
pub open spec fn kept<T: View>(value: Option<T>) -> Option<T::V> {
    if value is Some {
        Some(value->0@)
    } else {
        None
    }
}

/// What a list holds, each item by its view.
pub open spec fn each<T: View>(list: Seq<T>) -> Seq<T::V> {
    Seq::new(list.len(), |i: int| list[i]@)
}

/// The view of the configuration keeps every field.
pub proof fn law_the_view_of_config(x: Config)
    ensures
        x@.admin == x.admin@,
        x@.operator == kept(x.operator),
        x@.nft_contract == x.nft_contract@,
        x@.denom == x.denom@,
        x@.treasury == x.treasury@,
        x@.treasury_bps == x.treasury_bps,
        x@.payout_bps == x.payout_bps@,
        x@.caller_bps == x.caller_bps,
        x@.min_entries == x.min_entries,
        x@.min_pot == x.min_pot,
        x@.stale_after_secs == x.stale_after_secs,
        x@.paused == x.paused,
{
}

/// The view of the terms of a round keeps every field.
pub proof fn law_the_view_of_round_terms(x: RoundTerms)
    ensures
        x@.treasury_bps == x.treasury_bps,
        x@.payout_bps == x.payout_bps@,
        x@.caller_bps == x.caller_bps,
        x@.min_entries == x.min_entries,
        x@.min_pot == x.min_pot,
        x@.stale_after_secs == x.stale_after_secs,
{
}

/// The view of an entry keeps every field.
pub proof fn law_the_view_of_entry(x: Entry)
    ensures
        x@.token_id == x.token_id@,
        x@.minter == x.minter@,
        x@.entries == x.entries,
        x@.amount == x.amount,
        x@.entropy == x.entropy@,
        x@.recorded_at == x.recorded_at,
        x@.free == x.free,
{
}

/// The view of a round keeps every field.
pub proof fn law_the_view_of_round(x: Round)
    ensures
        x@.seed_hash == x.seed_hash@,
        x@.opened_at == x.opened_at,
        x@.close_time == x.close_time,
        x@.status == x.status,
        x@.first_entry_id == x.first_entry_id,
        x@.last_entry_id == x.last_entry_id,
        x@.secret == kept(x.secret),
        x@.entropy == kept(x.entropy),
        x@.result == kept(x.result),
        x@.total_entries == x.total_entries,
        x@.winner_indexes == x.winner_indexes@,
        x@.winners == each(x.winners@),
        x@.pot == x.pot,
        x@.settled_at == x.settled_at,
        x@.has_late_entries == x.has_late_entries,
        x@.terms == kept(x.terms),
{
    assert(x@.winners =~= each(x.winners@));
}

/// The view of the pool keeps every field.
pub proof fn law_the_view_of_state(x: State)
    ensures
        x@.config == x.config@,
        x@.entries == x.entries@,
        x@.next_entry_id == x.next_entry_id,
        x@.rounds == x.rounds@,
        x@.next_unsettled_id == x.next_unsettled_id,
        x@.last_round_id == x.last_round_id,
        x@.carry == x.carry,
{
}

/// The view of an answer keeps every field.
pub proof fn law_the_view_of_answer(x: Answer)
    ensures
        x@.about == x.about@,
        x.outcome is Ok ==> x@.outcome == Ok::<Seq<char>, StdErrorView>(x.outcome->Ok_0@),
        x.outcome is Err ==> x@.outcome == Err::<Seq<char>, StdErrorView>(x.outcome->Err_0@),
{
}

/// The view of a setup keeps every field.
pub proof fn law_the_view_of_instantiate_msg(x: InstantiateMsg)
    ensures
        x@.admin == x.admin@,
        x@.nft_contract == x.nft_contract@,
        x@.denom == x.denom@,
        x@.treasury == x.treasury@,
        x@.treasury_bps == x.treasury_bps,
        x@.payout_bps == x.payout_bps@,
        x@.caller_bps == x.caller_bps,
        x@.min_entries == x.min_entries,
        x@.min_pot == x.min_pot,
        x@.stale_after_secs == x.stale_after_secs,
        x@.operator == kept(x.operator),
        x@.first_seed_hash == x.first_seed_hash@,
        x@.first_close_time == x.first_close_time,
{
}

/// The view of a free item keeps every field.
pub proof fn law_the_view_of_free_entry_item(x: FreeEntryItem)
    ensures
        x@.wallet == x.wallet@,
        x@.tickets == x.tickets,
        x@.tx_hash == x.tx_hash@,
{
}

/// The view of an update keeps every field.
pub proof fn law_the_view_of_config_update(x: ConfigUpdate)
    ensures
        x@.admin == kept(x.admin),
        x@.operator == kept(x.operator),
        x@.nft_contract == kept(x.nft_contract),
        x@.treasury == kept(x.treasury),
        x@.treasury_bps == x.treasury_bps,
        x@.payout_bps == kept(x.payout_bps),
        x@.caller_bps == x.caller_bps,
        x@.min_entries == x.min_entries,
        x@.min_pot == x.min_pot,
        x@.stale_after_secs == x.stale_after_secs,
        x@.paused == x.paused,
{
}

/// The view of a move keeps every field.
pub proof fn law_the_view_of_migrate_msg(x: MigrateMsg)
    ensures
        x@.admin == kept(x.admin),
        x@.operator == kept(x.operator),
        x@.stale_after_secs == x.stale_after_secs,
{
}

/// The view of what is told of the configuration keeps every field.
pub proof fn law_the_view_of_config_response(x: ConfigResponse)
    ensures
        x@.admin == x.admin@,
        x@.operator == x.operator@,
        x@.nft_contract == x.nft_contract@,
        x@.denom == x.denom@,
        x@.treasury == x.treasury@,
        x@.treasury_bps == x.treasury_bps,
        x@.payout_bps == x.payout_bps@,
        x@.caller_bps == x.caller_bps,
        x@.min_entries == x.min_entries,
        x@.min_pot == x.min_pot,
        x@.stale_after_secs == x.stale_after_secs,
        x@.paused == x.paused,
        x@.next_unsettled_id == x.next_unsettled_id,
        x@.last_round_id == x.last_round_id,
        x@.next_entry_id == x.next_entry_id,
        x@.carry == x.carry,
{
}

/// The view of what is told of a round keeps every field.
pub proof fn law_the_view_of_round_response(x: RoundResponse)
    ensures
        x@.round_id == x.round_id,
        x@.seed_hash == x.seed_hash@,
        x@.opened_at == x.opened_at,
        x@.close_time == x.close_time,
        x@.status == x.status,
        x@.first_entry_id == x.first_entry_id,
        x@.last_entry_id == x.last_entry_id,
        x@.secret == kept(x.secret),
        x@.entropy == kept(x.entropy),
        x@.result == kept(x.result),
        x@.total_entries == x.total_entries,
        x@.winner_indexes == x.winner_indexes@,
        x@.winners == each(x.winners@),
        x@.pot == x.pot,
        x@.settled_at == x.settled_at,
        x@.has_late_entries == x.has_late_entries,
{
    assert(x@.winners =~= each(x.winners@));
}

/// The view of a proof keeps every field.
pub proof fn law_the_view_of_proof_response(x: ProofResponse)
    ensures
        x@.round_id == x.round_id,
        x@.seed_hash == x.seed_hash@,
        x@.secret == kept(x.secret),
        x@.entropy == kept(x.entropy),
        x@.result == kept(x.result),
        x@.total_entries == x.total_entries,
        x@.winner_indexes == x.winner_indexes@,
        x@.winners == each(x.winners@),
        x@.entries == each(x.entries@),
{
    assert(x@.winners =~= each(x.winners@));
    assert(x@.entries =~= each(x.entries@));
}

/// The view of what is told of the pot keeps every field.
pub proof fn law_the_view_of_pot_response(x: PotResponse)
    ensures
        x@.denom == x.denom@,
        x@.balance == x.balance,
        x@.carry == x.carry,
        x@.pending == x.pending,
{
}

/// The view of a message keeps every field.
pub proof fn law_the_view_of_bank_send(x: BankSend)
    ensures
        x@.to_address == x.to_address@,
        x@.amount == x.amount,
        x@.denom == x.denom@,
{
}

/// The view of a response keeps every field.
pub proof fn law_the_view_of_response(x: Response)
    ensures
        x@.messages == each(x.messages@),
        x@.attributes == each(x.attributes@),
{
    assert(x@.messages =~= each(x.messages@));
    assert(x@.attributes =~= each(x.attributes@));
}

/// The views of lists stand in the order of the lists.
pub proof fn law_the_views_of_lists(
    answers: Seq<Answer>,
    items: Seq<FreeEntryItem>,
    entries: Seq<Entry>,
)
    ensures
        answer_views(answers) == each(answers),
        item_views(items) == each(items),
        entry_list(entries) == each(entries),
{
    assert(answer_views(answers) =~= each(answers));
    assert(item_views(items) =~= each(items));
    assert(entry_list(entries) =~= each(entries));
}

/// A table is its rows, in order.
pub proof fn law_the_view_of_a_table<T: View>(table: Table<T>)
    ensures
        table@.len() == table.rows@.len(),
        forall|i: int|
            0 <= i < table.rows@.len() ==> (#[trigger] table@[i]).0 == table.rows@[i].0
                && table@[i].1 == table.rows@[i].1@,
{
}

/// The view of a line of what a call reports is its key and its value.
pub proof fn law_the_view_of_attribute(x: Attribute)
    ensures
        x@.0 == x.key@,
        x@.1 == x.value@,
{
}

/// The view of an entry that is told is its id and the entry.
pub proof fn law_the_view_of_entry_response(x: EntryResponse)
    ensures
        x@.0 == x.entry_id,
        x@.1 == x.entry@,
{
}

/// The view of a page is what it lists, in order.
pub proof fn law_the_view_of_a_page(rounds: RoundsResponse, entries: EntriesResponse)
    ensures
        rounds@ == each(rounds.rounds@),
        entries@ == each(entries.entries@),
{
    assert(rounds@ =~= each(rounds.rounds@));
    assert(entries@ =~= each(entries.entries@));
}

/// The view of a failure says which it is and what it names.
pub proof fn law_the_view_of_a_failure(x: StdError)
    ensures
        x is GenericErr <==> x@ is GenericErr,
        x is GenericErr ==> x@->msg == x->msg@,
        x is NotFound ==> x@->kind == x->kind@,
{
}

/// The view of a refusal says which it is and what it names.
pub proof fn law_the_view_of_a_refusal(x: ContractError)
    ensures
        x is Std <==> x@ is Std,
        x is Std ==> x@->Std_0 == x->Std_0@,
        x is Unauthorized <==> x@ is Unauthorized,
        x is Paused <==> x@ is Paused,
        x is ZeroEntries <==> x@ is ZeroEntries,
        x is CloseTimeInPast <==> x@ is CloseTimeInPast,
        x is SecretMismatch <==> x@ is SecretMismatch,
        x is BadFreeBatch <==> x@ is BadFreeBatch,
        x is RoundNotFound <==> x@ is RoundNotFound,
        x is RoundNotFound ==> x@->RoundNotFound_round_id == x->RoundNotFound_round_id,
        x is AlreadySettled <==> x@ is AlreadySettled,
        x is AlreadySettled ==> x@->AlreadySettled_round_id == x->AlreadySettled_round_id,
        x is NotClosed <==> x@ is NotClosed,
        x is NotClosed ==> x@->NotClosed_round_id == x->NotClosed_round_id,
        x is NotStale <==> x@ is NotStale,
        x is NotStale ==> x@->NotStale_round_id == x->NotStale_round_id,
        x is RoundIsDrawable <==> x@ is RoundIsDrawable,
        x is RoundIsDrawable ==> x@->RoundIsDrawable_round_id == x->RoundIsDrawable_round_id,
        x is FreeEntriesClosed <==> x@ is FreeEntriesClosed,
        x is FreeEntriesClosed ==> x@->FreeEntriesClosed_round_id == x->FreeEntriesClosed_round_id,
        x is NotStale ==> x@->secs == x->secs,
        x is BadSeedHash <==> x@ is BadSeedHash,
        x is BadSeedHash ==> x@->got == x->got,
        x is BadEntropy <==> x@ is BadEntropy,
        x is BadEntropy ==> x@->max == x->max,
        x is CloseTimeNotAfterPrevious <==> x@ is CloseTimeNotAfterPrevious,
        x is CloseTimeNotAfterPrevious ==> x@->previous == x->previous,
        x is OutOfOrder <==> x@ is OutOfOrder,
        x is OutOfOrder ==> x@->expected == x->expected,
        x is InvalidConfig <==> x@ is InvalidConfig,
        x is InvalidConfig ==> x@->reason == x->reason@,
{
}

/// The view of a call says which it is and keeps every field.
pub proof fn law_the_view_of_a_call(x: ExecuteMsg)
    ensures
        x is RecordEntry <==> x@ is RecordEntry,
        x is RecordEntry ==> x@->RecordEntry_token_id == x->RecordEntry_token_id@,
        x is RecordEntry ==> x@->RecordEntry_minter == x->RecordEntry_minter@,
        x is RecordEntry ==> x@->RecordEntry_entries == x->RecordEntry_entries,
        x is RecordEntry ==> x@->RecordEntry_amount == x->RecordEntry_amount,
        x is RecordEntry ==> x@->RecordEntry_entropy == x->RecordEntry_entropy@,
        x is OpenRound <==> x@ is OpenRound,
        x is OpenRound ==> x@->OpenRound_seed_hash == x->OpenRound_seed_hash@,
        x is OpenRound ==> x@->OpenRound_close_time == x->OpenRound_close_time,
        x is ExecuteDraw <==> x@ is ExecuteDraw,
        x is ExecuteDraw ==> x@->ExecuteDraw_round_id == x->ExecuteDraw_round_id,
        x is ExecuteDraw ==> x@->ExecuteDraw_secret == x->ExecuteDraw_secret@,
        x is SettleStale <==> x@ is SettleStale,
        x is SettleStale ==> x@->SettleStale_round_id == x->SettleStale_round_id,
        x is RolloverRound <==> x@ is RolloverRound,
        x is RolloverRound ==> x@->RolloverRound_round_id == x->RolloverRound_round_id,
        x is RecordFreeEntries <==> x@ is RecordFreeEntries,
        x is RecordFreeEntries
            ==> x@->RecordFreeEntries_entries == each(x->RecordFreeEntries_entries@),
        x is UpdateConfig <==> x@ is UpdateConfig,
        x is UpdateConfig ==> x@->update.admin == kept(x->UpdateConfig_admin),
        x is UpdateConfig ==> x@->update.operator == kept(x->UpdateConfig_operator),
        x is UpdateConfig ==> x@->update.nft_contract == kept(x->UpdateConfig_nft_contract),
        x is UpdateConfig ==> x@->update.treasury == kept(x->UpdateConfig_treasury),
        x is UpdateConfig ==> x@->update.treasury_bps == x->UpdateConfig_treasury_bps,
        x is UpdateConfig ==> x@->update.payout_bps == kept(x->UpdateConfig_payout_bps),
        x is UpdateConfig ==> x@->update.caller_bps == x->UpdateConfig_caller_bps,
        x is UpdateConfig ==> x@->update.min_entries == x->UpdateConfig_min_entries,
        x is UpdateConfig ==> x@->update.min_pot == x->UpdateConfig_min_pot,
        x is UpdateConfig ==> x@->update.stale_after_secs == x->UpdateConfig_stale_after_secs,
        x is UpdateConfig ==> x@->update.paused == x->UpdateConfig_paused,
{
    if x is RecordFreeEntries {
        assert(x@->RecordFreeEntries_entries =~= each(x->RecordFreeEntries_entries@));
    }
}

} // verus!
