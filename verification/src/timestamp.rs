//! Points in time as whole seconds and nanoseconds relative to the Unix epoch.
use vstd::prelude::*;

verus! {

/// Nanoseconds per second.
pub const NANOS_PER_SECOND: u32 = 1_000_000_000;

/// A point in time, `seconds` (possibly negative) plus `nanos` after the Unix epoch.
#[derive(Clone, Copy, Debug, PartialEq, Eq, Structural)]
pub struct Timestamp {
    /// Whole seconds relative to the epoch, rounded towards negative infinity.
    pub seconds: i64,
    /// Additional nanoseconds, always below one second.
    pub nanos: u32,
}

impl Timestamp {
    /// Whether the nanoseconds are below one second.
    pub open spec fn wf(self) -> bool {
        self.nanos < NANOS_PER_SECOND
    }

    /// The distance from the epoch in nanoseconds.
    pub open spec fn total_nanos(self) -> int {
        self.seconds * 1_000_000_000 + self.nanos
    }

    /// Whether `self` is strictly earlier than `other`.
    pub fn is_before(&self, other: &Timestamp) -> (r: bool)
        ensures
            r == (self.seconds < other.seconds || (self.seconds == other.seconds && self.nanos < other.nanos)),
    {
        self.seconds < other.seconds || (self.seconds == other.seconds && self.nanos < other.nanos)
    }
}

/// The ordering of well-formed timestamps is the ordering of the instants they denote.
pub proof fn timestamp_order_is_time_order(a: Timestamp, b: Timestamp)
    requires
        a.wf(),
        b.wf(),
    ensures
        (a.seconds < b.seconds || (a.seconds == b.seconds && a.nanos < b.nanos)) <==> a.total_nanos() < b.total_nanos(),
{
    if a.seconds < b.seconds {
        assert(a.total_nanos() < b.total_nanos()) by (nonlinear_arith)
            requires a.seconds < b.seconds, a.nanos < 1_000_000_000, b.nanos >= 0;
    } else if a.seconds > b.seconds {
        assert(a.total_nanos() > b.total_nanos()) by (nonlinear_arith)
            requires a.seconds > b.seconds, b.nanos < 1_000_000_000, a.nanos >= 0;
    }
}

} // verus!
