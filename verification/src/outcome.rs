//! How a call ends.

use vstd::prelude::*;

use crate::error::{ContractError, ContractErrorView};
use crate::msg::{Response, ResponseView};
use crate::state::StateView;

verus! {

/// A call that goes through, with what it leaves and what it says; or why it
/// is refused.
pub type Outcome = Result<(StateView, ResponseView), ContractErrorView>;

/// The call left and said what `outcome` says; a refused call changes nothing.
pub open spec fn accords(
    result: Result<Response, ContractError>,
    before: StateView,
    after: StateView,
    outcome: Outcome,
) -> bool {
    match outcome {
        Ok((state, response)) => {
            &&& result matches Ok(r) && r@ == response
            &&& after == state
        },
        Err(error) => {
            &&& result matches Err(e) && e@ == error
            &&& after == before
        },
    }
}

} // verus!
