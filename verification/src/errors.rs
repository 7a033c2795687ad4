//! Typed failures returned by every operation of the ledger.

use vstd::prelude::*;

verus! {

/// The kind of a failure.  Every operation either succeeds or aborts with one
/// of these kinds and leaves the state unchanged.
#[derive(Clone, Copy, Debug, PartialEq, Eq, Structural)]
pub enum Error {
    /// A malformed token identifier or an inconsistent schedule.
    InvalidInput,
    /// An administrative operation was invoked by a caller other than the owner.
    PermissionDenied,
    /// The operation ran in the wrong setup-period phase, or a group, address
    /// or pending request it needs does not exist (or already exists).
    PreconditionFailed,
    /// The claimable amount does not exceed the balance already claimed.
    NothingToClaim,
    /// The required mint or burn authorization role is absent on the token.
    AuthorizationMissing,
}

} // verus!
