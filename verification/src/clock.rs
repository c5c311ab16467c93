//! The wall clock the cache reads its timestamps from.
use vstd::prelude::*;

verus! {

/// 2^53: no timestamp that `now_millis` returns reaches it.
pub const CLOCK_BOUND_MILLIS: i64 = 9007199254740992i64;

/// Milliseconds since the Unix epoch, as `chrono::Utc::now().timestamp_millis()`
/// reports them. The value depends on the moment of the call. chrono's
/// `Utc::now` panics on a system time before the epoch and its dates end in
/// the year 262142, so the value is at least 0 and below 2^53.
#[verifier::external_body]
pub(crate) fn now_millis() -> (t: i64)
    ensures
        0 <= t < CLOCK_BOUND_MILLIS,
{
    chrono::Utc::now().timestamp_millis()
}

} // verus!
