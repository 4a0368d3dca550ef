//! What holds of every call.

use vstd::prelude::*;

use crate::config::{for_operator, lemma_config_wf, lemma_terms_refusal, updated_config};
use crate::contract::{execute_outcome, has_room, instantiate_outcome, migrate_outcome};
use crate::entries::{free_batch_outcome, lemma_free_batch, lemma_with_entries, lemma_with_entry};
use crate::draw::{last_id, tickets};
use crate::error::{ContractErrorView, StdErrorView};
use crate::laws::queries::law_the_current_round_is_the_first_open_one;
use crate::laws::rounds::chained;
use crate::msg::{
    answer_to, report, AnswerView, BankSendView, Env, ExecuteMsgView, FreeEntryItemView,
    InstantiateMsgView, MigrateMsgView, ResponseView,
};
use crate::outcome::Outcome;
use crate::rounds::{fresh_round, lemma_open_round};
use crate::rules::{
    after_settlement, basis, draw_sends, drawn_round, lemma_settled_wf, lemma_settlement_wf,
    lemma_start_of, payees, rolled_round, sent, settleable, skipped_round, start_of, Basis,
};
use crate::state::{ConfigView, EntryView, RoundStatus, RoundView, StateView};
use crate::table::{find, lemma_find_row, lemma_find_some, lemma_put};

verus! {

/// A call, with what the chain says at it.
pub struct Call {
    pub env: Env,
    pub sender: Seq<char>,
    pub msg: ExecuteMsgView,
    pub addresses: Seq<AnswerView>,
    pub owners: Seq<AnswerView>,
}

/// What a call does.
pub open spec fn outcome_of(s: StateView, call: Call) -> Outcome {
    execute_outcome(s, call.env, call.sender, call.msg, call.addresses, call.owners)
}

/// The call goes through, and leaves `after` and says `response`.
pub open spec fn goes(s: StateView, call: Call, after: StateView, response: ResponseView) -> bool {
    outcome_of(s, call) == Ok::<_, ContractErrorView>((after, response))
}

/// The round that a call settles.
pub open spec fn settles(msg: ExecuteMsgView) -> Option<u64> {
    match msg {
        ExecuteMsgView::ExecuteDraw { round_id, secret } => Some(round_id),
        ExecuteMsgView::SettleStale { round_id } => Some(round_id),
        ExecuteMsgView::RolloverRound { round_id } => Some(round_id),
        _ => None,
    }
}

/// Every call that goes through leaves a pool that is in order.
#[verifier::rlimit(40)]
pub proof fn law_calls_keep_the_pool_in_order(
    s: StateView,
    call: Call,
    after: StateView,
    response: ResponseView,
)
    requires
        s.wf(),
        has_room(s, call.msg),
        goes(s, call, after, response),
    ensures
        after.wf(),
{
    match call.msg {
        ExecuteMsgView::RecordEntry { token_id, minter, entries, amount, entropy } => {
            lemma_with_entry(
                s,
                EntryView {
                    token_id,
                    minter: answer_to(call.addresses, minter)->Ok_0,
                    entries,
                    amount,
                    entropy,
                    recorded_at: call.env.time,
                    free: false,
                },
            );
        },
        ExecuteMsgView::RecordFreeEntries { entries } => {
            lemma_free_batch(entries, call.env.time, call.addresses);
            lemma_with_entries(
                s,
                free_batch_outcome(entries, call.env.time, call.addresses)->Ok_0,
            );
        },
        ExecuteMsgView::OpenRound { seed_hash, close_time } => {
            lemma_open_round(
                s,
                fresh_round(seed_hash, call.env.time, close_time, s.config.terms()),
            );
        },
        ExecuteMsgView::ExecuteDraw { round_id, secret } => {
            let round: RoundView = settleable(s, call.env.time, round_id)->Ok_0;
            lemma_settled_wf(
                s,
                call.env,
                call.sender,
                "execute_draw"@,
                round_id,
                round,
                secret,
                Some(secret),
                call.owners,
            );
        },
        ExecuteMsgView::SettleStale { round_id } => {
            let round: RoundView = settleable(s, call.env.time, round_id)->Ok_0;
            lemma_settled_wf(
                s,
                call.env,
                call.sender,
                "settle_stale"@,
                round_id,
                round,
                round.seed_hash,
                None,
                call.owners,
            );
        },
        ExecuteMsgView::RolloverRound { round_id } => {
            let round: RoundView = settleable(s, call.env.time, round_id)->Ok_0;
            let first: u64 = start_of(s, round_id)->Ok_0;
            lemma_start_of(s, round_id);
            lemma_settlement_wf(
                s,
                call.env.balance,
                round_id,
                rolled_round(round, first, call.env.time),
                0,
                first as int,
            );
        },
        ExecuteMsgView::UpdateConfig { update } => {
            let config: ConfigView = updated_config(s.config, update, call.addresses)->Ok_0;
            lemma_terms_refusal(config.terms());
            lemma_config_wf(s, config);
        },
    }
}

/// A new pool is in order: round 1 is committed and open, nothing is recorded,
/// nothing is carried.
pub proof fn law_a_new_pool_is_in_order(
    env: Env,
    msg: InstantiateMsgView,
    addresses: Seq<AnswerView>,
    after: StateView,
    response: ResponseView,
)
    requires
        instantiate_outcome(env, msg, addresses) == Ok::<_, ContractErrorView>((after, response)),
    ensures
        after.wf(),
        chained(after),
        after.entries.len() == 0,
        after.carry == 0,
        msg.operator is None ==> after.config.operator is None,
        find(after.rounds, 1) matches Some(round) && {
            &&& round.status == RoundStatus::Open
            &&& round.seed_hash == msg.first_seed_hash
            &&& round.opened_at == env.time
            &&& env.time < round.close_time
            &&& round.terms == Some(after.config.terms())
        },
        response.messages.len() == 0,
{
    lemma_terms_refusal(after.config.terms());
    lemma_find_row(after.rounds, 0);
}

/// A recorded entry is never changed and never goes away: a call adds entries
/// behind those that are there, with ids that were not given out before, and
/// with its own time.
#[verifier::spinoff_prover]
#[verifier::rlimit(40)]
pub proof fn law_entries_are_never_changed(
    s: StateView,
    call: Call,
    after: StateView,
    response: ResponseView,
)
    requires
        s.wf(),
        has_room(s, call.msg),
        goes(s, call, after, response),
    ensures
        s.entries.len() <= after.entries.len(),
        after.entries.take(s.entries.len() as int) == s.entries,
        s.next_entry_id <= after.next_entry_id,
        forall|i: int|
            s.entries.len() <= i < after.entries.len() ==> {
                &&& s.next_entry_id <= (#[trigger] after.entries[i]).0
                &&& after.entries[i].1.recorded_at == call.env.time
            },
        !(call.msg is RecordEntry) && !(call.msg is RecordFreeEntries) ==> after.entries
            == s.entries && after.next_entry_id == s.next_entry_id,
{
    match call.msg {
        ExecuteMsgView::RecordEntry { token_id, minter, entries, amount, entropy } => {
            lemma_with_entry(
                s,
                EntryView {
                    token_id,
                    minter: answer_to(call.addresses, minter)->Ok_0,
                    entries,
                    amount,
                    entropy,
                    recorded_at: call.env.time,
                    free: false,
                },
            );
        },
        ExecuteMsgView::RecordFreeEntries { entries } => {
            let list: Seq<EntryView> = free_batch_outcome(
                entries,
                call.env.time,
                call.addresses,
            )->Ok_0;
            lemma_free_batch(entries, call.env.time, call.addresses);
            lemma_with_entries(s, list);
            assert forall|i: int| s.entries.len() <= i < after.entries.len() implies {
                &&& s.next_entry_id <= (#[trigger] after.entries[i]).0
                &&& after.entries[i].1.recorded_at == call.env.time
            } by {
                let k: int = i - s.entries.len();
                assert(after.entries[s.entries.len() + k] == (
                    (s.next_entry_id + k) as u64,
                    list[k],
                ));
            }
        },
        ExecuteMsgView::ExecuteDraw { round_id, secret } => {
            lemma_settlement(s, call, after, response, round_id);
        },
        ExecuteMsgView::SettleStale { round_id } => {
            lemma_settlement(s, call, after, response, round_id);
        },
        ExecuteMsgView::RolloverRound { round_id } => {
            lemma_settlement(s, call, after, response, round_id);
        },
        ExecuteMsgView::OpenRound { seed_hash, close_time } => {},
        ExecuteMsgView::UpdateConfig { update } => {},
    }
    assert(after.entries.take(s.entries.len() as int) =~= s.entries);
}

/// A settled round is never changed: not its result, not its winners, not what
/// it consumed.
pub proof fn law_settled_rounds_are_never_changed(
    s: StateView,
    call: Call,
    after: StateView,
    response: ResponseView,
    id: u64,
)
    requires
        s.wf(),
        has_room(s, call.msg),
        goes(s, call, after, response),
        id < s.next_unsettled_id,
    ensures
        find(after.rounds, id) == find(s.rounds, id),
        s.next_unsettled_id <= after.next_unsettled_id,
{
    lemma_rounds_put(s, call, after, response);
}

/// A call changes one round at most: the one it settles, or the one it opens.
#[verifier::rlimit(40)]
pub proof fn lemma_rounds_put(s: StateView, call: Call, after: StateView, response: ResponseView)
    requires
        s.wf(),
        has_room(s, call.msg),
        goes(s, call, after, response),
    ensures
        settles(call.msg) matches Some(id) ==> {
            &&& id == s.next_unsettled_id
            &&& after.next_unsettled_id == id + 1
            &&& after.last_round_id == s.last_round_id
            &&& find(s.rounds, id) is Some
            &&& find(after.rounds, id) is Some
            &&& forall|other: u64|
                other != id ==> #[trigger] find(after.rounds, other) == find(s.rounds, other)
        },
        settles(call.msg) is None ==> after.next_unsettled_id == s.next_unsettled_id,
        call.msg is OpenRound ==> {
            &&& after.last_round_id == s.last_round_id + 1
            &&& forall|other: u64|
                other <= s.last_round_id ==> #[trigger] find(after.rounds, other) == find(
                    s.rounds,
                    other,
                )
        },
        settles(call.msg) is None && !(call.msg is OpenRound) ==> after.rounds == s.rounds
            && after.last_round_id == s.last_round_id,
{
    lemma_last_is_bound(s);
    match call.msg {
        ExecuteMsgView::OpenRound { seed_hash, close_time } => {
            let id: u64 = (s.last_round_id + 1) as u64;
            lemma_put(
                s.rounds,
                id,
                fresh_round(seed_hash, call.env.time, close_time, s.config.terms()),
            );
        },
        ExecuteMsgView::RecordFreeEntries { entries } => {
            lemma_free_batch(entries, call.env.time, call.addresses);
            lemma_with_entries(
                s,
                free_batch_outcome(entries, call.env.time, call.addresses)->Ok_0,
            );
        },
        _ => {},
    }
    if let Some(id) = settles(call.msg) {
        lemma_settlement(s, call, after, response, id);
        lemma_put(s.rounds, id, record_of(s, call, id));
    }
}

/// No round has an id above the last.
proof fn lemma_last_is_bound(s: StateView)
    requires
        s.wf(),
    ensures
        forall|id: u64| #[trigger] find(s.rounds, id) is Some ==> 1 <= id <= s.last_round_id,
{
    assert forall|id: u64| #[trigger] find(s.rounds, id) is Some implies 1 <= id
        <= s.last_round_id by {
        let i: int = lemma_find_some(s.rounds, id);
        assert(s.round_ok(s.rounds[i].0, s.rounds[i].1));
    }
}

/// What the result of a settlement is taken from: the secret, or the commitment
/// in its place.
pub open spec fn key_of(msg: ExecuteMsgView, round: RoundView) -> Seq<u8> {
    match msg {
        ExecuteMsgView::ExecuteDraw { round_id, secret } => secret,
        _ => round.seed_hash,
    }
}

/// The secret that a settlement reveals.
pub open spec fn secret_of(msg: ExecuteMsgView) -> Option<Seq<u8>> {
    match msg {
        ExecuteMsgView::ExecuteDraw { round_id, secret } => Some(secret),
        _ => None,
    }
}

/// What round `id` is settled on by a call.
pub open spec fn basis_of(s: StateView, call: Call, id: u64) -> Basis {
    basis(
        s,
        call.env.balance,
        id,
        settleable(s, call.env.time, id)->Ok_0,
        start_of(s, id)->Ok_0,
    )
}

/// Who is paid when a call draws round `id`.
pub open spec fn winners_of(s: StateView, call: Call, id: u64) -> Result<
    Seq<Seq<char>>,
    StdErrorView,
> {
    let b: Basis = basis_of(s, call, id);
    payees(tickets(b.rows), b.chosen(id, key_of(call.msg, b.round)), call.owners)
}

/// What a call that settles round `id` sends.
pub open spec fn sends_of(s: StateView, call: Call, id: u64) -> Seq<BankSendView> {
    let b: Basis = basis_of(s, call, id);
    if b.runs() {
        draw_sends(s.config, b.terms, b.pot, winners_of(s, call, id)->Ok_0, call.sender)
    } else {
        Seq::empty()
    }
}

/// The record of round `id` once a call has settled it.
pub open spec fn record_of(s: StateView, call: Call, id: u64) -> RoundView {
    let b: Basis = basis_of(s, call, id);
    if b.runs() {
        drawn_round(
            b,
            id,
            key_of(call.msg, b.round),
            secret_of(call.msg),
            winners_of(s, call, id)->Ok_0,
            call.env.time,
        )
    } else if call.msg is RolloverRound {
        rolled_round(b.round, b.first, call.env.time)
    } else {
        skipped_round(b, secret_of(call.msg), call.env.time)
    }
}

/// The first entry that round `id` leaves to the next once a call has settled
/// it.
pub open spec fn boundary_of(s: StateView, call: Call, id: u64) -> int {
    let b: Basis = basis_of(s, call, id);
    if b.runs() {
        last_id(b.rows, b.first) + 1
    } else {
        b.first as int
    }
}

/// A settlement, whichever call makes it: the round is next and has closed; if
/// it runs it is drawn, and paid; if not it is skipped or rolled over, and
/// nothing is sent.
#[verifier::rlimit(40)]
pub proof fn lemma_settlement(
    s: StateView,
    call: Call,
    after: StateView,
    response: ResponseView,
    id: u64,
)
    requires
        goes(s, call, after, response),
        settles(call.msg) == Some(id),
    ensures
        settleable(s, call.env.time, id) is Ok,
        start_of(s, id) is Ok,
        id == s.next_unsettled_id,
        find(s.rounds, id) == Some(basis_of(s, call, id).round),
        call.env.time >= basis_of(s, call, id).round.close_time,
        basis_of(s, call, id).runs() ==> winners_of(s, call, id) is Ok && !(call.msg
            is RolloverRound),
        after == after_settlement(
            s,
            call.env.balance,
            id,
            record_of(s, call, id),
            sent(sends_of(s, call, id)),
            boundary_of(s, call, id),
        ),
        response.messages == sends_of(s, call, id),
{
}

/// Settlement is strictly in order: the round after the last settled one and no
/// other, and each settlement moves on by one. No other call does.
#[verifier::rlimit(40)]
pub proof fn law_settlement_is_in_order(
    s: StateView,
    call: Call,
    after: StateView,
    response: ResponseView,
)
    requires
        s.wf(),
        has_room(s, call.msg),
        goes(s, call, after, response),
    ensures
        match settles(call.msg) {
            Some(id) => {
                &&& id == s.next_unsettled_id
                &&& after.next_unsettled_id == id + 1
                &&& find(after.rounds, id) matches Some(round) && (round.status
                    == RoundStatus::Drawn || round.status == RoundStatus::Skipped || round.status
                    == RoundStatus::RolledOver)
            },
            None => after.next_unsettled_id == s.next_unsettled_id,
        },
{
    lemma_rounds_put(s, call, after, response);
    law_calls_keep_the_pool_in_order(s, call, after, response);
    if let Some(id) = settles(call.msg) {
        let i: int = lemma_find_some(after.rounds, id);
        assert(after.round_ok(after.rounds[i].0, after.rounds[i].1));
    }
}

/// A round that has been settled is refused from then on, whoever asks, however
/// and whenever.
pub proof fn law_a_round_is_settled_once(
    s: StateView,
    first: Call,
    after: StateView,
    response: ResponseView,
    second: Call,
    id: u64,
)
    requires
        s.wf(),
        has_room(s, first.msg),
        goes(s, first, after, response),
        settles(first.msg) == Some(id),
        settles(second.msg) == Some(id),
    ensures
        outcome_of(after, second) == Err::<(StateView, ResponseView), _>(
            ContractErrorView::AlreadySettled { round_id: id },
        ),
{
    lemma_rounds_put(s, first, after, response);
}

/// A round out of its turn is refused.
pub proof fn law_a_round_out_of_turn_is_refused(s: StateView, call: Call, id: u64)
    requires
        settles(call.msg) == Some(id),
        id != s.next_unsettled_id,
    ensures
        outcome_of(s, call) == Err::<(StateView, ResponseView), _>(
            if id < s.next_unsettled_id {
                ContractErrorView::AlreadySettled { round_id: id }
            } else {
                ContractErrorView::OutOfOrder { expected: s.next_unsettled_id }
            },
        ),
{
}

/// Mints come from the NFT contract, free entries from the admin, rounds from
/// the admin or the operator. The configuration is the admin's, but for what
/// the operator may change.
pub proof fn law_who_may_call(s: StateView, call: Call, after: StateView, response: ResponseView)
    requires
        goes(s, call, after, response),
    ensures
        match call.msg {
            ExecuteMsgView::RecordEntry { token_id, minter, entries, amount, entropy } =>
                call.sender == s.config.nft_contract,
            ExecuteMsgView::RecordFreeEntries { entries } => call.sender == s.config.admin,
            ExecuteMsgView::OpenRound { seed_hash, close_time } => call.sender == s.config.admin
                || call.sender == s.config.operator_key(),
            ExecuteMsgView::UpdateConfig { update } => call.sender == s.config.admin || (call.sender
                == s.config.operator_key() && for_operator(update)),
            _ => true,
        },
{
}

/// Nothing that the operator changes alone is anything but the two thresholds
/// and the pause.
pub proof fn law_the_operator_changes_little(
    s: StateView,
    call: Call,
    after: StateView,
    response: ResponseView,
)
    requires
        goes(s, call, after, response),
        call.msg is UpdateConfig,
        call.sender != s.config.admin,
    ensures
        after == (StateView {
            config: ConfigView {
                min_entries: after.config.min_entries,
                min_pot: after.config.min_pot,
                paused: after.config.paused,
                ..s.config
            },
            ..s
        }),
{
}

/// As long as no operator is named, whoever is admin acts as operator: an admin
/// who is replaced keeps no say.
pub proof fn law_a_replaced_admin_has_no_say(
    s: StateView,
    call: Call,
    after: StateView,
    response: ResponseView,
    next: Call,
)
    requires
        goes(s, call, after, response),
        s.config.operator is None,
        call.msg matches ExecuteMsgView::UpdateConfig { update } && update.operator is None,
        next.sender != after.config.admin,
        next.msg is OpenRound || next.msg is UpdateConfig || next.msg is RecordFreeEntries,
    ensures
        after.config.operator_key() == after.config.admin,
        outcome_of(after, next) == Err::<(StateView, ResponseView), _>(
            ContractErrorView::Unauthorized,
        ),
{
}

/// What a mint recorded reads back under the id it was given.
pub proof fn law_a_mint_reads_back(
    s: StateView,
    call: Call,
    after: StateView,
    response: ResponseView,
    token_id: Seq<char>,
    minter: Seq<char>,
    entries: u32,
    amount: u128,
    entropy: Seq<u8>,
)
    requires
        s.wf(),
        has_room(s, call.msg),
        goes(s, call, after, response),
        call.msg == (ExecuteMsgView::RecordEntry { token_id, minter, entries, amount, entropy }),
    ensures
        find(after.entries, s.next_entry_id) == Some(
            EntryView {
                token_id,
                minter: answer_to(call.addresses, minter)->Ok_0,
                entries,
                amount,
                entropy,
                recorded_at: call.env.time,
                free: false,
            },
        ),
{
    lemma_put(
        s.entries,
        s.next_entry_id,
        EntryView {
            token_id,
            minter: answer_to(call.addresses, minter)->Ok_0,
            entries,
            amount,
            entropy,
            recorded_at: call.env.time,
            free: false,
        },
    );
}

/// A round that was opened reads back under the next id, with its commitment
/// and the terms of the day.
pub proof fn law_an_opened_round_reads_back(
    s: StateView,
    call: Call,
    after: StateView,
    response: ResponseView,
    seed_hash: Seq<u8>,
    close_time: u64,
)
    requires
        s.wf(),
        has_room(s, call.msg),
        goes(s, call, after, response),
        call.msg == (ExecuteMsgView::OpenRound { seed_hash, close_time }),
    ensures
        after.last_round_id == s.last_round_id + 1,
        find(after.rounds, after.last_round_id) == Some(
            fresh_round(seed_hash, call.env.time, close_time, s.config.terms()),
        ),
{
    lemma_put(
        s.rounds,
        (s.last_round_id + 1) as u64,
        fresh_round(seed_hash, call.env.time, close_time, s.config.terms()),
    );
}

/// Moving a pool with nothing said gives it an operator, the admin of the day
/// if it had none, and changes nothing else; doing so again changes nothing.
pub proof fn law_an_empty_migration_only_names_the_operator(
    s: StateView,
    addresses: Seq<AnswerView>,
)
    ensures
        ({
            let msg: MigrateMsgView = MigrateMsgView {
                admin: None,
                operator: None,
                stale_after_secs: None,
            };
            let after: StateView = StateView {
                config: ConfigView { operator: Some(s.config.operator_key()), ..s.config },
                ..s
            };
            let said: ResponseView = report(seq![("action"@, "migrate"@)]);
            &&& migrate_outcome(s, msg, addresses) == Ok::<_, ContractErrorView>((after, said))
            &&& migrate_outcome(after, msg, addresses) == Ok::<_, ContractErrorView>((after, said))
        }),
{
}

/// Migration settles nothing, records nothing and moves no money.
pub proof fn law_migration_touches_only_the_configuration(
    s: StateView,
    msg: MigrateMsgView,
    addresses: Seq<AnswerView>,
    after: StateView,
    response: ResponseView,
)
    requires
        s.wf(),
        migrate_outcome(s, msg, addresses) == Ok::<_, ContractErrorView>((after, response)),
    ensures
        after.wf(),
        after == (StateView { config: after.config, ..s }),
        response.messages.len() == 0,
{
    lemma_config_wf(s, after.config);
}

/// Free entries are taken only while some round is open: once all have closed,
/// and the outcome may be known, they are refused.
pub proof fn law_free_entries_are_refused_after_close(
    s: StateView,
    call: Call,
    items: Seq<FreeEntryItemView>,
)
    requires
        s.wf(),
        call.msg == (ExecuteMsgView::RecordFreeEntries { entries: items }),
        call.sender == s.config.admin,
        items.len() > 0,
        forall|id: u64|
            s.next_unsettled_id <= id ==> (#[trigger] find(s.rounds, id) matches Some(round)
                ==> call.env.time >= round.close_time),
    ensures
        outcome_of(s, call) == Err::<(StateView, ResponseView), _>(
            ContractErrorView::FreeEntriesClosed { round_id: s.last_round_id },
        ),
{
    law_the_current_round_is_the_first_open_one(s, call.env.time);
}

} // verus!
