//! Points in time.
use chrono::Utc;
use vstd::prelude::*;

verus! {

/// A point in time, as seconds since 1970 and nanoseconds within the second.
#[derive(Debug, Clone, Copy, PartialEq, Eq)]
pub struct Timestamp {
    /// Seconds since the beginning of 1970, UTC.
    pub secs: i64,
    /// Nanoseconds since that second began.
    pub nanos: u32,
}

impl Timestamp {
    /// Whether the nanoseconds stay within the second.
    pub open spec fn proper(self) -> bool {
        self.nanos < 1_000_000_000
    }
}

impl View for Timestamp {
    type V = Timestamp;

    open spec fn view(&self) -> Timestamp {
        *self
    }
}

/// `chrono::Utc::now`: the time at the call. All that is claimed of it is that
/// the nanoseconds stay within the second. A machine whose clock stands before
/// 1970 has no such time, and `now` panics there.
#[verifier::external_body]
pub(crate) fn utc_now() -> (now: Timestamp)
    ensures
        now.proper(),
{
    let now = Utc::now();
    Timestamp { secs: now.timestamp(), nanos: now.timestamp_subsec_nanos() }
}

} // verus!
