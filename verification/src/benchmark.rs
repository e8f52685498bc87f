//! The measurements of one benchmarked command.

use std::collections::BTreeMap;
use vstd::prelude::*;

verus! {

/// The longest duration, in nanoseconds, that can enter a relative
/// comparison: two to the power of 59, somewhat over eighteen years. Below
/// it the uncertainty of a ratio of two means can be rounded within 256
/// bits.
pub const MAX_NANOS: u64 = 0x0800_0000_0000_0000;

/// The statistics of one benchmarked command. Every duration is a whole
/// number of nanoseconds.
#[derive(Debug, Clone)]
pub struct BenchmarkResult {
    /// The command as it is displayed.
    pub command: String,
    /// The mean run time.
    pub mean: u64,
    /// The standard deviation of the run times, where it is known.
    pub stddev: Option<u64>,
    /// The median run time.
    pub median: u64,
    /// Time spent in user mode.
    pub user: u64,
    /// Time spent in kernel mode.
    pub system: u64,
    /// The shortest run time.
    pub min: u64,
    /// The longest run time.
    pub max: u64,
    /// The run times one by one, where they were kept.
    pub times: Option<Vec<u64>>,
    /// The exit code of each run, where it is known.
    pub exit_codes: Vec<Option<i32>>,
    /// The value of each named parameter, ordered by name.
    pub parameters: BTreeMap<String, String>,
}

impl BenchmarkResult {
    /// Whether the run times are in order: neither the mean nor the median
    /// is below the shortest or above the longest run time. Whoever
    /// measures sees to that; nothing here relies on it.
    pub open spec fn ordered(&self) -> bool {
        &&& self.min <= self.mean <= self.max
        &&& self.min <= self.median <= self.max
    }

    /// Whether the run times are in order.
    pub fn is_ordered(&self) -> (b: bool)
        ensures
            b == self.ordered(),
    {
        self.min <= self.mean && self.mean <= self.max && self.min <= self.median && self.median
            <= self.max
    }

    /// Whether the result can stand in a relative comparison: its mean is
    /// positive, so that ratios to it exist, and its mean and standard
    /// deviation do not exceed [`MAX_NANOS`].
    pub open spec fn comparable(&self) -> bool {
        &&& 0 < self.mean <= MAX_NANOS
        &&& self.stddev matches Some(s) ==> s <= MAX_NANOS
    }

    /// Whether the result can stand in a relative comparison.
    pub fn is_comparable(&self) -> (b: bool)
        ensures
            b == self.comparable(),
    {
        let deviation_fits: bool = match self.stddev {
            Some(s) => s <= MAX_NANOS,
            None => true,
        };
        0 < self.mean && self.mean <= MAX_NANOS && deviation_fits
    }
}

/// Whether every one of `results` can stand in a relative comparison.
pub open spec fn all_comparable(results: Seq<BenchmarkResult>) -> bool {
    forall|i: int| 0 <= i < results.len() ==> (#[trigger] results[i]).comparable()
}

/// Whether every one of `results` can stand in a relative comparison.
pub fn are_comparable(results: &[BenchmarkResult]) -> (b: bool)
    ensures
        b == all_comparable(results@),
{
    let mut i: usize = 0;
    while i < results.len()
        invariant
            i <= results@.len(),
            forall|j: int| 0 <= j < i ==> (#[trigger] results@[j]).comparable(),
        decreases results@.len() - i,
    {
        if !results[i].is_comparable() {
            return false;
        }
        i = i + 1;
    }
    true
}

} // verus!
