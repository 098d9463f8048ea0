use vstd::prelude::*;

verus! {

/// Relies on chrono's `Utc::now`, read out as a plain value through
/// `DateTime::timestamp_millis`: the current wall-clock instant in
/// milliseconds since the Unix epoch. The result depends on the clock alone,
/// so nothing is promised of its value. `Utc::now` panics on a host clock
/// set before the Unix epoch or outside chrono's representable range of
/// years; no precondition can express that environmental condition.
#[verifier::external_body]
pub(crate) fn now_millis() -> i64 {
    chrono::Utc::now().timestamp_millis()
}

} // verus!
