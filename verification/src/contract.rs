//! The calls the pool takes.

use vstd::prelude::*;

use crate::config::{
    check_bps, checked, checked_or, first_config, given_or, initial_config, lemma_config_wf,
    terms_refusal, update_config, update_config_outcome,
};
use crate::entries::{
    record_entry, record_entry_outcome, record_free_entries, record_free_entries_outcome,
};
use crate::error::{viewed, ContractError, ContractErrorView, StdError};
use crate::msg::{
    answer_views, report, Answer, AnswerView, ConfigUpdate, Env, ExecuteMsg, ExecuteMsgView,
    InstantiateMsg, InstantiateMsgView, MigrateMsg, MigrateMsgView, QueryMsg,
    QueryResponse, Response,
};
use crate::outcome::{accords, Outcome};
use crate::query::{
    can_tell, query_config, query_current, query_entries, query_pot, query_proof, query_round,
    query_rounds, query_told,
};
use crate::rounds::{committed, fresh_round, open_round, open_round_outcome};
use crate::rules::{can_move_on, execute_draw_outcome, rollover_outcome, settle_stale_outcome};
use crate::settle::{execute_draw, rollover_round, settle_stale};
use crate::state::{Config, ConfigView, Round, RoundView, State, StateView, NANOS, SEED_HASH_BYTES};
use crate::table::{lemma_put_last, Table};
use crate::text::{decimal, decimal_text};

verus! {

/// Setting the pool up, with round 1 committed.
pub open spec fn instantiate_outcome(
    env: Env,
    msg: InstantiateMsgView,
    addresses: Seq<AnswerView>,
) -> Outcome {
    if msg.first_seed_hash.len() != SEED_HASH_BYTES {
        Err(ContractErrorView::BadSeedHash { got: msg.first_seed_hash.len() as usize })
    } else if msg.first_close_time <= env.time {
        Err(ContractErrorView::CloseTimeInPast)
    } else if msg.denom.len() == 0 {
        Err(ContractErrorView::InvalidConfig { reason: "denom must not be empty"@ })
    } else {
        match first_config(msg, addresses) {
            Err(e) => Err(ContractErrorView::Std(e)),
            Ok(config) => match terms_refusal(config.terms()) {
                Some(e) => Err(e),
                None => Ok(
                    (
                        StateView {
                            config,
                            entries: Seq::empty(),
                            next_entry_id: 1,
                            rounds: seq![
                                (
                                    1u64,
                                    fresh_round(
                                        msg.first_seed_hash,
                                        env.time,
                                        msg.first_close_time,
                                        config.terms(),
                                    ),
                                ),
                            ],
                            next_unsettled_id: 1,
                            last_round_id: 1,
                            carry: 0,
                        },
                        report(
                            seq![
                                ("action"@, "instantiate"@),
                                ("admin"@, config.admin),
                                (
                                    "first_close_time"@,
                                    decimal((msg.first_close_time / NANOS) as nat),
                                ),
                            ],
                        ),
                    ),
                ),
            },
        }
    }
}

/// Moving a pool to this version. On a pool without an operator, the operator
/// becomes the admin of the day, before that is replaced.
pub open spec fn migrate_outcome(s: StateView, msg: MigrateMsgView, addresses: Seq<AnswerView>) -> Outcome {
    match checked_or(addresses, msg.admin, s.config.admin) {
        Err(e) => Err(ContractErrorView::Std(e)),
        Ok(admin) => match checked_or(addresses, msg.operator, s.config.operator_key()) {
            Err(e) => Err(ContractErrorView::Std(e)),
            Ok(operator) => Ok(
                (
                    StateView {
                        config: ConfigView {
                            admin,
                            operator: Some(operator),
                            stale_after_secs: given_or(
                                msg.stale_after_secs,
                                s.config.stale_after_secs,
                            ),
                            ..s.config
                        },
                        ..s
                    },
                    report(seq![("action"@, "migrate"@)]),
                ),
            ),
        },
    }
}

/// What a call does: the pool it leaves and the response, or why it is refused.
pub open spec fn execute_outcome(
    s: StateView,
    env: Env,
    sender: Seq<char>,
    msg: ExecuteMsgView,
    addresses: Seq<AnswerView>,
    owners: Seq<AnswerView>,
) -> Outcome {
    match msg {
        ExecuteMsgView::RecordEntry { token_id, minter, entries, amount, entropy } =>
            record_entry_outcome(
            s,
            env,
            sender,
            token_id,
            minter,
            entries,
            amount,
            entropy,
            addresses,
        ),
        ExecuteMsgView::RecordFreeEntries { entries } => record_free_entries_outcome(
            s,
            env,
            sender,
            entries,
            addresses,
        ),
        ExecuteMsgView::OpenRound { seed_hash, close_time } => open_round_outcome(
            s,
            env,
            sender,
            seed_hash,
            close_time,
        ),
        ExecuteMsgView::ExecuteDraw { round_id, secret } => execute_draw_outcome(
            s,
            env,
            sender,
            round_id,
            secret,
            owners,
        ),
        ExecuteMsgView::SettleStale { round_id } => settle_stale_outcome(
            s,
            env,
            sender,
            round_id,
            owners,
        ),
        ExecuteMsgView::RolloverRound { round_id } => rollover_outcome(s, env, round_id),
        ExecuteMsgView::UpdateConfig { update } => update_config_outcome(
            s,
            sender,
            update,
            addresses,
        ),
    }
}
/// Ids are left for what the call adds.
pub open spec fn has_room(s: StateView, msg: ExecuteMsgView) -> bool {
    match msg {
        ExecuteMsgView::RecordEntry { token_id, minter, entries, amount, entropy } =>
            s.next_entry_id < u64::MAX,
        ExecuteMsgView::RecordFreeEntries { entries } => s.next_entry_id + entries.len()
            <= u64::MAX,
        ExecuteMsgView::UpdateConfig { update } => true,
        ExecuteMsgView::OpenRound { seed_hash, close_time } => s.last_round_id < u64::MAX,
        _ => can_move_on(s),
    }
}

/// Whether ids are left for what the call adds.
pub fn leaves_room(state: &State, msg: &ExecuteMsg) -> (room: bool)
    ensures
        room == has_room(state@, msg@),
{
    match msg {
        ExecuteMsg::RecordEntry { .. } => state.next_entry_id < u64::MAX,
        ExecuteMsg::RecordFreeEntries { entries } => entries.len() as u64 <= u64::MAX
            - state.next_entry_id,
        ExecuteMsg::UpdateConfig { .. } => true,
        ExecuteMsg::OpenRound { .. } => state.last_round_id < u64::MAX,
        ExecuteMsg::ExecuteDraw { .. } => state.next_unsettled_id < u64::MAX
            || state.last_round_id < u64::MAX,
        ExecuteMsg::SettleStale { .. } => state.next_unsettled_id < u64::MAX
            || state.last_round_id < u64::MAX,
        ExecuteMsg::RolloverRound { .. } => state.next_unsettled_id < u64::MAX
            || state.last_round_id < u64::MAX,
    }
}

/// Sets a pool up, with round 1 committed. `addresses` holds what the chain
/// says of the addresses in the message.
pub fn instantiate(env: &Env, msg: InstantiateMsg, addresses: &Vec<Answer>) -> (result: Result<
    (State, Response),
    ContractError,
>)
    ensures
        match instantiate_outcome(*env, msg@, answer_views(addresses@)) {
            Ok((state, response)) => result matches Ok((s, r)) && s@ == state && r@ == response
                && state.wf(),
            Err(error) => result matches Err(e) && e@ == error,
        },
{
    if msg.first_seed_hash.len() != SEED_HASH_BYTES {
        return Err(ContractError::BadSeedHash { got: msg.first_seed_hash.len() });
    }
    if msg.first_close_time <= env.time {
        return Err(ContractError::CloseTimeInPast {  });
    }
    let nothing: String = String::new();
    assert(msg.denom@.len() == 0 ==> msg.denom@ =~= nothing@);
    if msg.denom == nothing {
        return Err(
            ContractError::InvalidConfig { reason: "denom must not be empty".to_owned() },
        );
    }
    let config: Config = match initial_config(&msg, addresses) {
        Ok(config) => config,
        Err(e) => return Err(ContractError::Std(e)),
    };
    match check_bps(&config) {
        Ok(_) => {},
        Err(e) => return Err(e),
    }
    let response: Response = Response::new().add_attribute(
        "action",
        "instantiate".to_owned(),
    ).add_attribute("admin", config.admin.clone()).add_attribute(
        "first_close_time",
        decimal_text((msg.first_close_time / NANOS) as u128),
    );
    let round: Round = committed(
        msg.first_seed_hash,
        env.time,
        msg.first_close_time,
        config.terms(),
    );
    let mut rounds: Table<Round> = Table::new();
    rounds.put(1, round);
    let state: State = State {
        config,
        entries: Table::new(),
        next_entry_id: 1,
        rounds,
        next_unsettled_id: 1,
        last_round_id: 1,
        carry: 0,
    };
    proof {
        let outcome: Outcome = instantiate_outcome(*env, msg@, answer_views(addresses@));
        lemma_put_last(Seq::<(u64, RoundView)>::empty(), 1, round@);
        assert(rounds@ =~= seq![(1u64, round@)]);
        assert(state@ == (outcome->Ok_0).0);
    }
    Ok((state, response))
}

/// Moves a pool to this version. `addresses` holds what the chain says of the
/// addresses in the message.
pub fn migrate(state: &mut State, msg: MigrateMsg, addresses: &Vec<Answer>) -> (result: Result<
    Response,
    ContractError,
>)
    requires
        old(state)@.wf(),
    ensures
        accords(
            result,
            old(state)@,
            final(state)@,
            migrate_outcome(old(state)@, msg@, answer_views(addresses@)),
        ),
        final(state)@.wf(),
{
    let admin: String = match checked(addresses, &msg.admin, &state.config.admin) {
        Ok(address) => address,
        Err(e) => return Err(ContractError::Std(e)),
    };
    let operator: String = match checked(
        addresses,
        &msg.operator,
        state.config.operator_key(),
    ) {
        Ok(address) => address,
        Err(e) => return Err(ContractError::Std(e)),
    };
    let config: Config = Config {
        admin,
        operator: Some(operator),
        stale_after_secs: msg.stale_after_secs.unwrap_or(state.config.stale_after_secs),
        ..state.config.clone()
    };
    proof {
        lemma_config_wf(state@, config@);
    }
    state.config = config;
    Ok(Response::new().add_attribute("action", "migrate".to_owned()))
}

/// Runs a call. `addresses` holds what the chain says of the addresses in the
/// message, `owners` who owns the tokens that a settlement pays for.
pub fn execute(
    state: &mut State,
    env: &Env,
    sender: &String,
    msg: ExecuteMsg,
    addresses: &Vec<Answer>,
    owners: &Vec<Answer>,
) -> (result: Result<Response, ContractError>)
    requires
        old(state)@.wf(),
        has_room(old(state)@, msg@),
    ensures
        accords(
            result,
            old(state)@,
            final(state)@,
            execute_outcome(
                old(state)@,
                *env,
                sender@,
                msg@,
                answer_views(addresses@),
                answer_views(owners@),
            ),
        ),
        final(state)@.wf(),
{
    match msg {
        ExecuteMsg::RecordEntry { token_id, minter, entries, amount, entropy } => record_entry(
            state,
            env,
            sender,
            token_id,
            &minter,
            entries,
            amount,
            entropy,
            addresses,
        ),
        ExecuteMsg::RecordFreeEntries { entries } => record_free_entries(
            state,
            env,
            sender,
            &entries,
            addresses,
        ),
        ExecuteMsg::OpenRound { seed_hash, close_time } => open_round(
            state,
            env,
            sender,
            seed_hash,
            close_time,
        ),
        ExecuteMsg::ExecuteDraw { round_id, secret } => execute_draw(
            state,
            env,
            sender,
            round_id,
            secret,
            owners,
        ),
        ExecuteMsg::SettleStale { round_id } => settle_stale(state, env, sender, round_id, owners),
        ExecuteMsg::RolloverRound { round_id } => rollover_round(state, env, round_id),
        ExecuteMsg::UpdateConfig {
            admin,
            operator,
            nft_contract,
            treasury,
            treasury_bps,
            payout_bps,
            caller_bps,
            min_entries,
            min_pot,
            stale_after_secs,
            paused,
        } => {
            let update: ConfigUpdate = ConfigUpdate {
                admin,
                operator,
                nft_contract,
                treasury,
                treasury_bps,
                payout_bps,
                caller_bps,
                min_entries,
                min_pot,
                stale_after_secs,
                paused,
            };
            update_config(state, sender, update, addresses)
        },
    }
}
/// Answers a query.
pub fn query(state: &State, env: &Env, msg: QueryMsg) -> (result: Result<QueryResponse, StdError>)
    requires
        state@.wf(),
        can_tell(state@, msg),
    ensures
        viewed(result) == query_told(state@, *env, msg),
{
    match msg {
        QueryMsg::Config {  } => Ok(QueryResponse::Config(query_config(state))),
        QueryMsg::Round { round_id } => match query_round(state, env, round_id) {
            Ok(response) => Ok(QueryResponse::Round(response)),
            Err(e) => Err(e),
        },
        QueryMsg::Rounds { start_after, limit } => Ok(
            QueryResponse::Rounds(query_rounds(state, env, start_after, limit)),
        ),
        QueryMsg::CurrentRound {  } => match query_current(state, env) {
            Ok(response) => Ok(QueryResponse::Round(response)),
            Err(e) => Err(e),
        },
        QueryMsg::Entries { start_after, limit } => Ok(
            QueryResponse::Entries(query_entries(state, start_after, limit)),
        ),
        QueryMsg::Proof { round_id } => match query_proof(state, round_id) {
            Ok(response) => Ok(QueryResponse::Proof(response)),
            Err(e) => Err(e),
        },
        QueryMsg::Pot {  } => Ok(QueryResponse::Pot(query_pot(state, env))),
    }
}

} // verus!
