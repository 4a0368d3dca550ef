//! Opening rounds, and which one takes entries.

use vstd::prelude::*;

use crate::error::{ContractError, ContractErrorView};
use crate::msg::{report, Env, Response};
use crate::outcome::{accords, Outcome};
use crate::settle::load_round;
use crate::state::{
    Round, RoundStatus, RoundTerms, RoundTermsView, RoundView, State, StateView, NANOS,
    SEED_HASH_BYTES,
};
use crate::table::{find, lemma_find_some, lemma_put_last, position, put};
use crate::text::{decimal, decimal_text};

verus! {

/// The first round, counting from place `i`, that has not closed.
pub open spec fn first_open(rounds: Seq<(u64, RoundView)>, now: u64, i: int) -> Option<
    (u64, RoundView),
>
    decreases rounds.len() - i,
{
    if i < 0 || i >= rounds.len() {
        None
    } else if now < rounds[i].1.close_time {
        Some(rounds[i])
    } else {
        first_open(rounds, now, i + 1)
    }
}

/// The round taking entries right now.
pub open spec fn taking_entries(s: StateView, now: u64) -> Option<(u64, RoundView)> {
    first_open(s.rounds, now, position(s.rounds, s.next_unsettled_id as int))
}

/// A round that has just been committed.
pub open spec fn fresh_round(
    seed_hash: Seq<u8>,
    now: u64,
    close_time: u64,
    terms: RoundTermsView,
) -> RoundView {
    RoundView {
        seed_hash,
        opened_at: now,
        close_time,
        status: RoundStatus::Open,
        first_entry_id: None,
        last_entry_id: None,
        secret: None,
        entropy: None,
        result: None,
        total_entries: None,
        winner_indexes: Seq::empty(),
        winners: Seq::empty(),
        pot: None,
        settled_at: None,
        has_late_entries: false,
        terms: Some(terms),
    }
}

/// Committing the next round.
pub open spec fn open_round_outcome(
    s: StateView,
    env: Env,
    sender: Seq<char>,
    seed_hash: Seq<u8>,
    close_time: u64,
) -> Outcome {
    if sender != s.config.admin && sender != s.config.operator_key() {
        Err(ContractErrorView::Unauthorized)
    } else if seed_hash.len() != SEED_HASH_BYTES {
        Err(ContractErrorView::BadSeedHash { got: seed_hash.len() as usize })
    } else if close_time <= env.time {
        Err(ContractErrorView::CloseTimeInPast)
    } else {
        match find(s.rounds, s.last_round_id) {
            None => Err(ContractErrorView::RoundNotFound { round_id: s.last_round_id }),
            Some(last) => if close_time <= last.close_time {
                Err(
                    ContractErrorView::CloseTimeNotAfterPrevious {
                        previous: (last.close_time / NANOS) as u64,
                    },
                )
            } else {
                let id: u64 = (s.last_round_id + 1) as u64;
                Ok(
                    (
                        StateView {
                            rounds: put(
                                s.rounds,
                                id,
                                fresh_round(seed_hash, env.time, close_time, s.config.terms()),
                            ),
                            last_round_id: id,
                            ..s
                        },
                        report(
                            seq![
                                ("action"@, "open_round"@),
                                ("round_id"@, decimal(id as nat)),
                                ("close_time"@, decimal((close_time / NANOS) as nat)),
                                (
                                    "opened_after_previous_closed"@,
                                    if env.time >= last.close_time {
                                        "true"@
                                    } else {
                                        "false"@
                                    },
                                ),
                            ],
                        ),
                    ),
                )
            },
        }
    }
}
/// Where the round that takes entries right now stands in the table.
pub fn current_row(state: &State, now: u64) -> (row: Option<usize>)
    requires
        state@.wf(),
    ensures
        match taking_entries(state@, now) {
            Some(round) => row matches Some(i) && i < state@.rounds.len() && state@.rounds[i as int]
                == round,
            None => row is None,
        },
{
    let mut i: usize = state.rounds.locate(state.next_unsettled_id);
    while i < state.rounds.rows.len()
        invariant
            i <= state@.rounds.len() == state.rounds.rows@.len(),
            taking_entries(state@, now) == first_open(state@.rounds, now, i as int),
        decreases state.rounds.rows@.len() - i,
    {
        assert(state@.rounds[i as int].1 == state.rounds.rows@[i as int].1@);
        if now < state.rounds.rows[i].1.close_time {
            return Some(i);
        }
        i = i + 1;
    }
    None
}

/// A round that has just been committed.
pub fn committed(seed_hash: Vec<u8>, now: u64, close_time: u64, terms: RoundTerms) -> (round: Round)
    ensures
        round@ == fresh_round(seed_hash@, now, close_time, terms@),
{
    let round: Round = Round {
        seed_hash,
        opened_at: now,
        close_time,
        status: RoundStatus::Open,
        first_entry_id: None,
        last_entry_id: None,
        secret: None,
        entropy: None,
        result: None,
        total_entries: None,
        winner_indexes: Vec::new(),
        winners: Vec::new(),
        pot: None,
        settled_at: None,
        has_late_entries: false,
        terms: Some(terms),
    };
    assert(round@ =~= fresh_round(seed_hash@, now, close_time, terms@));
    round
}

/// A round that closes after all others goes to the end and keeps the pool in
/// order.
pub proof fn lemma_open_round(s: StateView, round: RoundView)
    requires
        s.wf(),
        s.last_round_id < u64::MAX,
        round.untouched(),
        round.seed_hash.len() == SEED_HASH_BYTES,
        round.terms matches Some(terms) && terms.fair(),
        find(s.rounds, s.last_round_id) matches Some(last) && last.close_time < round.close_time,
    ensures
        ({
            let id: u64 = (s.last_round_id + 1) as u64;
            let after: StateView = StateView {
                rounds: put(s.rounds, id, round),
                last_round_id: id,
                ..s
            };
            &&& after.wf()
            &&& after.rounds == s.rounds.push((id, round))
        }),
{
    let id: u64 = (s.last_round_id + 1) as u64;
    let after: StateView = StateView { rounds: put(s.rounds, id, round), last_round_id: id, ..s };
    assert forall|i: int| 0 <= i < s.rounds.len() implies (#[trigger] s.rounds[i]).0 < id by {
        assert(s.round_ok(s.rounds[i].0, s.rounds[i].1));
    }
    lemma_put_last(s.rounds, id, round);
    let k: int = lemma_find_some(s.rounds, s.last_round_id);
    assert(k == s.rounds.len() - 1) by {
        if k < s.rounds.len() - 1 {
            assert(s.rounds[k].0 < s.rounds[s.rounds.len() - 1].0);
        }
    }
    assert forall|i: int| 0 <= i < after.rounds.len() implies after.round_ok(
        (#[trigger] after.rounds[i]).0,
        after.rounds[i].1,
    ) by {
        if i < s.rounds.len() {
            assert(s.round_ok(s.rounds[i].0, s.rounds[i].1));
        }
    }
    assert forall|i: int, j: int| 0 <= i < j < after.rounds.len() implies (
    #[trigger] after.rounds[i]).1.close_time < (#[trigger] after.rounds[j]).1.close_time by {
        if j < s.rounds.len() {
            assert(s.rounds[i].1.close_time < s.rounds[j].1.close_time);
        } else if i < k {
            assert(s.rounds[i].1.close_time < s.rounds[k].1.close_time);
        }
    }
}

/// Commits the next round.
pub fn open_round(
    state: &mut State,
    env: &Env,
    sender: &String,
    seed_hash: Vec<u8>,
    close_time: u64,
) -> (result: Result<Response, ContractError>)
    requires
        old(state)@.wf(),
        old(state)@.last_round_id < u64::MAX,
    ensures
        accords(
            result,
            old(state)@,
            final(state)@,
            open_round_outcome(old(state)@, *env, sender@, seed_hash@, close_time),
        ),
        final(state)@.wf(),
{
    if *sender != state.config.admin && *sender != *state.config.operator_key() {
        return Err(ContractError::Unauthorized {  });
    }
    if seed_hash.len() != SEED_HASH_BYTES {
        return Err(ContractError::BadSeedHash { got: seed_hash.len() });
    }
    if close_time <= env.time {
        return Err(ContractError::CloseTimeInPast {  });
    }
    let last: Round = match load_round(&state.rounds, state.last_round_id) {
        Ok(last) => last,
        Err(e) => return Err(e),
    };
    if close_time <= last.close_time {
        return Err(
            ContractError::CloseTimeNotAfterPrevious { previous: last.close_time / NANOS },
        );
    }
    let id: u64 = state.last_round_id + 1;
    let round: Round = committed(seed_hash, env.time, close_time, state.config.terms());
    proof {
        lemma_open_round(state@, round@);
    }
    state.rounds.put(id, round);
    state.last_round_id = id;
    let late: &str = if env.time >= last.close_time {
        "true"
    } else {
        "false"
    };
    let response: Response = Response::new().add_attribute(
        "action",
        "open_round".to_owned(),
    ).add_attribute("round_id", decimal_text(id as u128)).add_attribute(
        "close_time",
        decimal_text((close_time / NANOS) as u128),
    ).add_attribute("opened_after_previous_closed", late.to_owned());
    assert(response@ =~= report(
        seq![
            ("action"@, "open_round"@),
            ("round_id"@, decimal(id as nat)),
            ("close_time"@, decimal((close_time / NANOS) as nat)),
            ("opened_after_previous_closed"@, late@),
        ],
    ));
    Ok(response)
}

} // verus!
