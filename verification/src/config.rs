//! How the pool is run, and who may change it.

use vstd::prelude::*;

use crate::error::{viewed, ContractError, ContractErrorView, StdError, StdErrorView};
use crate::msg::{
    answer_to, answer_views, find_answer, report, Answer, AnswerView, ConfigUpdate,
    ConfigUpdateView, InstantiateMsg, InstantiateMsgView, Response,
};
use crate::outcome::{accords, Outcome};
use crate::state::{
    copied_numbers, opt_text, share_sum, Config, ConfigView, RoundTermsView, State, StateView, WHOLE_BPS,
};
use crate::text::{decimal, decimal_text};

verus! {

/// Why these terms are refused, if they are.
pub open spec fn terms_refusal(terms: RoundTermsView) -> Option<ContractErrorView> {
    if terms.total_bps() > WHOLE_BPS {
        Some(
            ContractErrorView::InvalidConfig {
                reason: "payout + treasury + caller = "@ + decimal(terms.total_bps())
                    + " bps, must be <= 10000"@,
            },
        )
    } else if terms.payout_bps.len() == 0 {
        Some(
            ContractErrorView::InvalidConfig {
                reason: "payout_bps must have at least one place"@,
            },
        )
    } else {
        None
    }
}

/// The address that is given, if it is valid; the present one if none is given.
pub open spec fn checked_or(
    addresses: Seq<AnswerView>,
    given: Option<Seq<char>>,
    present: Seq<char>,
) -> Result<Seq<char>, StdErrorView> {
    match given {
        Some(given) => answer_to(addresses, given),
        None => Ok(present),
    }
}

/// The value that is given, or else the present one.
pub open spec fn given_or<T>(given: Option<T>, present: T) -> T {
    match given {
        Some(given) => given,
        None => present,
    }
}

/// An update that an operator may make.
pub open spec fn for_operator(update: ConfigUpdateView) -> bool {
    &&& update.admin is None
    &&& update.operator is None
    &&& update.nft_contract is None
    &&& update.treasury is None
    &&& update.treasury_bps is None
    &&& update.payout_bps is None
    &&& update.caller_bps is None
    &&& update.stale_after_secs is None
}

/// The configuration once updated, or the first address that is not valid.
pub open spec fn updated_config(
    config: ConfigView,
    update: ConfigUpdateView,
    addresses: Seq<AnswerView>,
) -> Result<ConfigView, StdErrorView> {
    match checked_or(addresses, update.admin, config.admin) {
        Err(e) => Err(e),
        Ok(admin) => match checked_or(addresses, update.operator, config.operator_key()) {
            Err(e) => Err(e),
            Ok(operator) => match checked_or(addresses, update.nft_contract, config.nft_contract) {
                Err(e) => Err(e),
                Ok(nft_contract) => match checked_or(addresses, update.treasury, config.treasury) {
                    Err(e) => Err(e),
                    Ok(treasury) => Ok(
                        ConfigView {
                            admin,
                            operator: if update.operator is Some {
                                Some(operator)
                            } else {
                                config.operator
                            },
                            nft_contract,
                            denom: config.denom,
                            treasury,
                            treasury_bps: given_or(update.treasury_bps, config.treasury_bps),
                            payout_bps: given_or(update.payout_bps, config.payout_bps),
                            caller_bps: given_or(update.caller_bps, config.caller_bps),
                            min_entries: given_or(update.min_entries, config.min_entries),
                            min_pot: given_or(update.min_pot, config.min_pot),
                            stale_after_secs: given_or(
                                update.stale_after_secs,
                                config.stale_after_secs,
                            ),
                            paused: given_or(update.paused, config.paused),
                        },
                    ),
                },
            },
        },
    }
}

/// Changing the configuration.
pub open spec fn update_config_outcome(
    s: StateView,
    sender: Seq<char>,
    update: ConfigUpdateView,
    addresses: Seq<AnswerView>,
) -> Outcome {
    if sender != s.config.admin && !(sender == s.config.operator_key() && for_operator(update)) {
        Err(ContractErrorView::Unauthorized)
    } else {
        match updated_config(s.config, update, addresses) {
            Err(e) => Err(ContractErrorView::Std(e)),
            Ok(config) => match terms_refusal(config.terms()) {
                Some(e) => Err(e),
                None => Ok(
                    (
                        StateView { config, ..s },
                        report(seq![("action"@, "update_config"@), ("admin"@, config.admin)]),
                    ),
                ),
            },
        }
    }
}

/// The configuration a pool starts with, or the first address that is not
/// valid.
pub open spec fn first_config(msg: InstantiateMsgView, addresses: Seq<AnswerView>) -> Result<
    ConfigView,
    StdErrorView,
> {
    match answer_to(addresses, msg.admin) {
        Err(e) => Err(e),
        Ok(admin) => match checked_or(addresses, msg.operator, admin) {
            Err(e) => Err(e),
            Ok(operator) => match answer_to(addresses, msg.nft_contract) {
                Err(e) => Err(e),
                Ok(nft_contract) => match answer_to(addresses, msg.treasury) {
                    Err(e) => Err(e),
                    Ok(treasury) => Ok(
                        ConfigView {
                            admin,
                            operator: if msg.operator is Some {
                                Some(operator)
                            } else {
                                None
                            },
                            nft_contract,
                            denom: msg.denom,
                            treasury,
                            treasury_bps: msg.treasury_bps,
                            payout_bps: msg.payout_bps,
                            caller_bps: msg.caller_bps,
                            min_entries: msg.min_entries,
                            min_pot: msg.min_pot,
                            stale_after_secs: msg.stale_after_secs,
                            paused: false,
                        },
                    ),
                },
            },
        },
    }
}
proof fn lemma_share_sum_max(shares: Seq<u64>)
    ensures
        share_sum(shares) <= shares.len() * u64::MAX,
    decreases shares.len(),
{
    if shares.len() > 0 {
        lemma_share_sum_max(shares.drop_last());
        assert(shares.len() * u64::MAX == (shares.len() - 1) * u64::MAX + u64::MAX)
            by (nonlinear_arith)
            requires
                shares.len() > 0,
        ;
    }
}

/// All that a settlement pays out, in basis points of the pot.
fn total_bps(config: &Config) -> (total: u128)
    ensures
        total == config@.terms().total_bps(),
{
    let shares: &Vec<u64> = &config.payout_bps;
    let places: usize = shares.len();
    assert(places as u64 == shares@.len());
    let mut sum: u128 = 0;
    let mut i: usize = 0;
    assert(shares@.take(0) =~= Seq::empty());
    while i < places
        invariant
            i <= places == shares@.len(),
            shares@.len() <= u64::MAX,
            sum == share_sum(shares@.take(i as int)),
        decreases shares@.len() - i,
    {
        proof {
            assert(shares@.take(i + 1).drop_last() =~= shares@.take(i as int));
            lemma_share_sum_max(shares@.take(i + 1));
            assert((i + 1) * u64::MAX <= u128::MAX) by (nonlinear_arith)
                requires
                    i + 1 <= u64::MAX,
            ;
        }
        sum = sum + shares[i] as u128;
        i = i + 1;
    }
    proof {
        assert(shares@.take(i as int) =~= shares@);
        lemma_share_sum_max(shares@);
        assert(shares@.len() * u64::MAX + 2 * u64::MAX <= u128::MAX) by (nonlinear_arith)
            requires
                shares@.len() <= u64::MAX,
        ;
    }
    sum + config.treasury_bps as u128 + config.caller_bps as u128
}

/// Refuses a configuration that would pay out more than the pot, or that has
/// no place to win.
pub fn check_bps(config: &Config) -> (result: Result<(), ContractError>)
    ensures
        match terms_refusal(config@.terms()) {
            Some(error) => result matches Err(e) && e@ == error,
            None => result is Ok && config@.terms().fair(),
        },
{
    let total: u128 = total_bps(config);
    if total > WHOLE_BPS as u128 {
        let mut reason: String = "payout + treasury + caller = ".to_owned();
        let number: String = decimal_text(total);
        reason.append(number.as_str());
        reason.append(" bps, must be <= 10000");
        return Err(ContractError::InvalidConfig { reason });
    }
    if config.payout_bps.len() == 0 {
        return Err(
            ContractError::InvalidConfig {
                reason: "payout_bps must have at least one place".to_owned(),
            },
        );
    }
    Ok(())
}

/// The address that is given, if it is valid; the present one if none is given.
pub fn checked(addresses: &Vec<Answer>, given: &Option<String>, present: &String) -> (address:
    Result<String, StdError>)
    ensures
        viewed(address) == checked_or(answer_views(addresses@), opt_text(*given), present@),
{
    match given {
        Some(given) => find_answer(addresses, given),
        None => Ok(present.clone()),
    }
}

/// The configuration once updated, or the first address that is not valid.
fn updated(config: &Config, update: ConfigUpdate, addresses: &Vec<Answer>) -> (updated: Result<
    Config,
    StdError,
>)
    ensures
        viewed(updated) == updated_config(config@, update@, answer_views(addresses@)),
{
    let admin: String = match checked(addresses, &update.admin, &config.admin) {
        Ok(address) => address,
        Err(e) => return Err(e),
    };
    let operator: String = match checked(addresses, &update.operator, config.operator_key()) {
        Ok(address) => address,
        Err(e) => return Err(e),
    };
    let nft_contract: String = match checked(
        addresses,
        &update.nft_contract,
        &config.nft_contract,
    ) {
        Ok(address) => address,
        Err(e) => return Err(e),
    };
    let treasury: String = match checked(addresses, &update.treasury, &config.treasury) {
        Ok(address) => address,
        Err(e) => return Err(e),
    };
    let present: Config = config.clone();
    Ok(
        Config {
            admin,
            operator: if update.operator.is_some() {
                Some(operator)
            } else {
                present.operator
            },
            nft_contract,
            denom: present.denom,
            treasury,
            treasury_bps: update.treasury_bps.unwrap_or(present.treasury_bps),
            payout_bps: match update.payout_bps {
                Some(shares) => shares,
                None => present.payout_bps,
            },
            caller_bps: update.caller_bps.unwrap_or(present.caller_bps),
            min_entries: update.min_entries.unwrap_or(present.min_entries),
            min_pot: update.min_pot.unwrap_or(present.min_pot),
            stale_after_secs: update.stale_after_secs.unwrap_or(present.stale_after_secs),
            paused: update.paused.unwrap_or(present.paused),
        },
    )
}

/// Whether an operator may make this update.
fn is_for_operator(update: &ConfigUpdate) -> (allowed: bool)
    ensures
        allowed == for_operator(update@),
{
    update.admin.is_none() && update.operator.is_none() && update.nft_contract.is_none()
        && update.treasury.is_none() && update.treasury_bps.is_none() && update.payout_bps.is_none()
        && update.caller_bps.is_none() && update.stale_after_secs.is_none()
}

/// Terms that are not refused are fair.
pub proof fn lemma_terms_refusal(terms: RoundTermsView)
    ensures
        terms_refusal(terms) is None <==> terms.fair(),
{
}

/// A fair configuration keeps the pool in order.
pub proof fn lemma_config_wf(s: StateView, config: ConfigView)
    requires
        s.wf(),
        config.terms().fair(),
    ensures
        (StateView { config, ..s }).wf(),
{
    let after: StateView = StateView { config, ..s };
    assert forall|i: int| 0 <= i < after.rounds.len() implies after.round_ok(
        (#[trigger] after.rounds[i]).0,
        after.rounds[i].1,
    ) by {
        assert(s.round_ok(s.rounds[i].0, s.rounds[i].1));
    }
}

/// Changes the configuration. The admin may change anything, the operator only
/// what holds for rounds to come.
pub fn update_config(
    state: &mut State,
    sender: &String,
    update: ConfigUpdate,
    addresses: &Vec<Answer>,
) -> (result: Result<Response, ContractError>)
    requires
        old(state)@.wf(),
    ensures
        accords(
            result,
            old(state)@,
            final(state)@,
            update_config_outcome(old(state)@, sender@, update@, answer_views(addresses@)),
        ),
        final(state)@.wf(),
{
    if *sender != state.config.admin && !(*sender == *state.config.operator_key()
        && is_for_operator(&update)) {
        return Err(ContractError::Unauthorized {  });
    }
    let config: Config = match updated(&state.config, update, addresses) {
        Ok(config) => config,
        Err(e) => return Err(ContractError::Std(e)),
    };
    match check_bps(&config) {
        Ok(_) => {},
        Err(e) => return Err(e),
    }
    let response: Response = Response::new().add_attribute(
        "action",
        "update_config".to_owned(),
    ).add_attribute("admin", config.admin.clone());
    proof {
        lemma_config_wf(state@, config@);
        assert(response@ =~= report(
            seq![("action"@, "update_config"@), ("admin"@, config.admin@)],
        ));
    }
    state.config = config;
    Ok(response)
}

/// The configuration a pool starts with, or the first address that is not
/// valid.
pub fn initial_config(msg: &InstantiateMsg, addresses: &Vec<Answer>) -> (config: Result<
    Config,
    StdError,
>)
    ensures
        viewed(config) == first_config(msg@, answer_views(addresses@)),
{
    let admin: String = match find_answer(addresses, &msg.admin) {
        Ok(address) => address,
        Err(e) => return Err(e),
    };
    let operator: String = match checked(addresses, &msg.operator, &admin) {
        Ok(address) => address,
        Err(e) => return Err(e),
    };
    let nft_contract: String = match find_answer(addresses, &msg.nft_contract) {
        Ok(address) => address,
        Err(e) => return Err(e),
    };
    let treasury: String = match find_answer(addresses, &msg.treasury) {
        Ok(address) => address,
        Err(e) => return Err(e),
    };
    Ok(
        Config {
            admin,
            operator: if msg.operator.is_some() {
                Some(operator)
            } else {
                None
            },
            nft_contract,
            denom: msg.denom.clone(),
            treasury,
            treasury_bps: msg.treasury_bps,
            payout_bps: copied_numbers(&msg.payout_bps),
            caller_bps: msg.caller_bps,
            min_entries: msg.min_entries,
            min_pot: msg.min_pot,
            stale_after_secs: msg.stale_after_secs,
            paused: false,
        },
    )
}

} // verus!
