use vstd::prelude::*;

verus! {

/// The recoverable failures of the engine.
#[derive(Clone, Copy, Debug, PartialEq, Eq, Structural)]
pub enum SyncError {
    /// Durable storage refused a write, such as inserting a row whose
    /// identifier already exists.
    Storage,
    /// The external role service failed a grant or revoke. The library never
    /// produces this value itself; it is for callers that perform the
    /// returned role actions.
    ExternalApi,
    /// A tier with the requested threshold already exists.
    DuplicateThreshold,
    /// A cached member references a rank index that does not exist in the
    /// tier list.
    InvariantViolation,
}

} // verus!
