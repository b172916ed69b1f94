use vstd::prelude::*;

verus! {

/// Why a ledger operation was refused. Every variant is fatal to the
/// transaction in which it arises.
#[derive(Clone, Copy, Debug, PartialEq, Eq, Structural)]
pub enum Error {
    /// The contract id is unknown, or the contract has been archived.
    NotFound,
    /// The required signers are not covered by the calling context.
    Unauthorized,
    /// A domain assertion failed.
    InvariantViolation,
}

} // verus!
