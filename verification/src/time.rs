//! Points in time, as the records carry them.

use vstd::prelude::*;

verus! {

/// An instant in UTC: whole seconds since 1970-01-01T00:00:00Z and the
/// nanoseconds into that second. A nanosecond count of 1,000,000,000 or more
/// stands for a leap second.
#[derive(Debug, Clone, Copy, PartialEq, Eq, Structural)]
pub struct Timestamp {
    pub secs: i64,
    pub nanos: u32,
}

impl Timestamp {
    /// The nanosecond part is below two seconds' worth.
    pub open spec fn wf(self) -> bool {
        self.nanos < 2_000_000_000
    }
}

/// Reads the clock with `chrono::Utc::now` and splits the instant with
/// `DateTime::timestamp` and `DateTime::timestamp_subsec_nanos`. The clock
/// never reports a leap second, nor a time before 1970 (chrono refuses
/// such a clock).
#[verifier::external_body]
pub(crate) fn now() -> (t: Timestamp)
    ensures
        t.secs >= 0,
        t.nanos < 1_000_000_000,
{
    let at = chrono::Utc::now();
    Timestamp { secs: at.timestamp(), nanos: at.timestamp_subsec_nanos() }
}

} // verus!
