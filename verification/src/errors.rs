use vstd::prelude::*;

verus! {

/// An application-specific error type.
///
/// The error surface of the engine is closed: every failing operation
/// reports exactly one of these three kinds.
#[derive(Debug, PartialEq, Eq, Clone)]
pub enum ApplicationError {
    /// Account wasn't found
    AccountNotFound(String),
    /// Not enough currency in the account (underflow)
    AccountUnderFunded(String, u64),
    /// Too much currency in the account (overflow)
    AccountOverFunded(String, u64),
}

/// A newtype around [`ApplicationError`] for the network boundary, which
/// needs an error type of its own to attach its rejection machinery to.
#[derive(Debug)]
pub struct OctopusError(pub ApplicationError);

} // verus!
