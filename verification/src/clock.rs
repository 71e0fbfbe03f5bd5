use vstd::prelude::*;

verus! {

/// Relies on time::OffsetDateTime::now_utc and its Display rendering: the
/// current UTC wall-clock time as text. The result depends on the clock, so
/// nothing is promised of it.
#[verifier::external_body]
pub(crate) fn now_timestamp() -> String {
    time::OffsetDateTime::now_utc().to_string()
}

} // verus!
