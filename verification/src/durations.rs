//! The per-stage timing accumulator, summed across every dependency of one
//! batch run. Counts are nanoseconds and only ever grow (saturating).

use vstd::prelude::*;

verus! {

/// Saturating 64-bit sum, the accumulator's arithmetic.
pub open spec fn sat64(a: int, b: int) -> u64 {
    if a + b > u64::MAX {
        u64::MAX
    } else {
        (a + b) as u64
    }
}

/// Adds without overflow, clamping at the counter's ceiling.
pub fn sat_add(a: u64, b: u64) -> (r: u64)
    ensures
        r == sat64(a as int, b as int),
        r >= a,
        r >= b,
{
    if b <= u64::MAX - a {
        a + b
    } else {
        u64::MAX
    }
}

/// Elapsed nanoseconds per pipeline stage, accumulated over a batch run.
#[derive(Clone, Copy, PartialEq, Eq, Structural, Debug)]
pub struct Durations {
    /// Digest bookkeeping: prior-review lookup and digest verification.
    pub digest: u64,
    /// The size-of-source metric.
    pub loc: u64,
    /// The latest-trusted-version query.
    pub latest_trusted: u64,
    /// Open-issue enumeration.
    pub issues: u64,
    /// Whole pipeline runs, skips included.
    pub total: u64,
}

impl Durations {
    pub fn new() -> (d: Durations)
        ensures
            d == (Durations { digest: 0u64, loc: 0u64, latest_trusted: 0u64, issues: 0u64, total: 0u64 }),
    {
        Durations { digest: 0, loc: 0, latest_trusted: 0, issues: 0, total: 0 }
    }
}

impl Default for Durations {
    fn default() -> (d: Durations)
        ensures
            d == (Durations { digest: 0u64, loc: 0u64, latest_trusted: 0u64, issues: 0u64, total: 0u64 }),
    {
        Durations::new()
    }
}

} // verus!
