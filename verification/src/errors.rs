use vstd::prelude::*;

verus! {

/// The outcomes that the store and the service report instead of succeeding.
///
/// `StoreUnavailable` is reserved for the surrounding application: it reports
/// a backing medium that cannot be opened at startup. `StoreWriteError`
/// reports a write the store could not perform (the identifier space is
/// exhausted). `NotFound` and `AlreadyExists` are ordinary outcomes, not
/// failures: a lookup or update named an identifier with no entry, or a
/// registration named a username that already has one.
#[derive(Clone, Copy, Debug, PartialEq, Eq, Structural)]
pub enum LeaderboardError {
    StoreUnavailable,
    StoreWriteError,
    NotFound,
    AlreadyExists,
}

} // verus!
