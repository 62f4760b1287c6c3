use vstd::prelude::*;

verus! {

/// Why a request was turned down. Every error ends the request it arose in;
/// nothing is retried, and the state is left as it was before the request.
#[derive(Clone, Copy, Debug, PartialEq, Eq, Structural)]
pub enum Error {
    /// No identifier of the pool is left to issue.
    PoolExhausted,
    /// The attached amount is below the required cost.
    InsufficientPayment,
    /// A registry id outside the range of the entries.
    InvalidId,
    /// A privileged action was asked for by someone other than the owner.
    Unauthorized,
    /// The token ledger already holds a record under the identifier.
    DuplicateIdentifier,
    /// The token ledger stores metadata and none was given.
    MissingMetadata,
    /// The selection scan found fewer free identifiers than the rank asked for.
    InvariantViolation,
}

} // verus!
