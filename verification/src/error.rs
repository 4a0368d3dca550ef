//! Why a call is refused.

use vstd::prelude::*;

verus! {

/// A failure that is not the pool's own: an address that does not validate, an
/// owner that cannot be told, a round that is not there.
#[derive(Debug, PartialEq, Eq)]
pub enum StdError {
    GenericErr { msg: String },
    NotFound { kind: String },
}

pub enum StdErrorView {
    GenericErr { msg: Seq<char> },
    NotFound { kind: Seq<char> },
}

impl View for StdError {
    type V = StdErrorView;

    open spec fn view(&self) -> StdErrorView {
        match self {
            StdError::GenericErr { msg } => StdErrorView::GenericErr { msg: msg@ },
            StdError::NotFound { kind } => StdErrorView::NotFound { kind: kind@ },
        }
    }
}

impl Clone for StdError {
    fn clone(&self) -> (copy: Self)
        ensures
            copy@ == self@,
    {
        match self {
            StdError::GenericErr { msg } => StdError::GenericErr { msg: msg.clone() },
            StdError::NotFound { kind } => StdError::NotFound { kind: kind.clone() },
        }
    }
}

/// A result with both sides taken by their view.
pub open spec fn viewed<T: View, E: View>(result: Result<T, E>) -> Result<T::V, E::V> {
    match result {
        Ok(value) => Ok(value@),
        Err(error) => Err(error@),
    }
}

/// Why the pool refuses a call.
#[derive(Debug, PartialEq, Eq)]
pub enum ContractError {
    Std(StdError),
    Unauthorized {},
    /// Entries are paused.
    Paused {},
    RoundNotFound { round_id: u64 },
    /// A commitment is exactly 32 bytes.
    BadSeedHash { got: usize },
    /// An entry carries 1 to `max` bytes of entropy.
    BadEntropy { max: usize },
    /// An entry has at least one ticket.
    ZeroEntries {},
    CloseTimeInPast {},
    /// A round closes after the one before it, which closes at `previous`
    /// (seconds).
    CloseTimeNotAfterPrevious { previous: u64 },
    AlreadySettled { round_id: u64 },
    /// Settlement is strictly in order, and `expected` is next.
    OutOfOrder { expected: u64 },
    NotClosed { round_id: u64 },
    /// The secret does not hash to the round's commitment.
    SecretMismatch {},
    /// The round can be settled without its secret only `secs` seconds after
    /// it closed.
    NotStale { round_id: u64, secs: u64 },
    /// The round has enough tickets and money to be drawn, so it is not rolled
    /// over.
    RoundIsDrawable { round_id: u64 },
    /// The round has closed, and a ticket added now could aim its outcome.
    FreeEntriesClosed { round_id: u64 },
    /// A batch of free entries has at least one.
    BadFreeBatch {},
    InvalidConfig { reason: String },
}

pub enum ContractErrorView {
    Std(StdErrorView),
    Unauthorized,
    Paused,
    RoundNotFound { round_id: u64 },
    BadSeedHash { got: usize },
    BadEntropy { max: usize },
    ZeroEntries,
    CloseTimeInPast,
    CloseTimeNotAfterPrevious { previous: u64 },
    AlreadySettled { round_id: u64 },
    OutOfOrder { expected: u64 },
    NotClosed { round_id: u64 },
    SecretMismatch,
    NotStale { round_id: u64, secs: u64 },
    RoundIsDrawable { round_id: u64 },
    FreeEntriesClosed { round_id: u64 },
    BadFreeBatch,
    InvalidConfig { reason: Seq<char> },
}

impl View for ContractError {
    type V = ContractErrorView;

    open spec fn view(&self) -> ContractErrorView {
        match self {
            ContractError::Std(e) => ContractErrorView::Std(e@),
            ContractError::Unauthorized {  } => ContractErrorView::Unauthorized,
            ContractError::Paused {  } => ContractErrorView::Paused,
            ContractError::RoundNotFound { round_id } => ContractErrorView::RoundNotFound {
                round_id: *round_id,
            },
            ContractError::BadSeedHash { got } => ContractErrorView::BadSeedHash { got: *got },
            ContractError::BadEntropy { max } => ContractErrorView::BadEntropy { max: *max },
            ContractError::ZeroEntries {  } => ContractErrorView::ZeroEntries,
            ContractError::CloseTimeInPast {  } => ContractErrorView::CloseTimeInPast,
            ContractError::CloseTimeNotAfterPrevious { previous } =>
                ContractErrorView::CloseTimeNotAfterPrevious { previous: *previous },
            ContractError::AlreadySettled { round_id } => ContractErrorView::AlreadySettled {
                round_id: *round_id,
            },
            ContractError::OutOfOrder { expected } => ContractErrorView::OutOfOrder {
                expected: *expected,
            },
            ContractError::NotClosed { round_id } => ContractErrorView::NotClosed {
                round_id: *round_id,
            },
            ContractError::SecretMismatch {  } => ContractErrorView::SecretMismatch,
            ContractError::NotStale { round_id, secs } => ContractErrorView::NotStale {
                round_id: *round_id,
                secs: *secs,
            },
            ContractError::RoundIsDrawable { round_id } => ContractErrorView::RoundIsDrawable {
                round_id: *round_id,
            },
            ContractError::FreeEntriesClosed { round_id } => ContractErrorView::FreeEntriesClosed {
                round_id: *round_id,
            },
            ContractError::BadFreeBatch {  } => ContractErrorView::BadFreeBatch,
            ContractError::InvalidConfig { reason } => ContractErrorView::InvalidConfig {
                reason: reason@,
            },
        }
    }
}

} // verus!
