//! Time units in which durations are displayed.

use crate::benchmark::BenchmarkResult;
use crate::decimal::{fixed_string, fixed_text};
use crate::rounding::{round_div, rounded_quotient};
use vstd::prelude::*;

verus! {

/// A magnitude of time in which a duration can be displayed.
///
/// | unit          | name | nanoseconds   | digits after the point | nanoseconds in a step | chosen for a first mean of |
/// |---------------|------|---------------|------------------------|-----------------------|----------------------------|
/// | `Second`      | `s`  | 1 000 000 000 | 3                      | 1 000 000             | one second and more        |
/// | `MilliSecond` | `ms` | 1 000 000     | 1                      | 100 000               | one millisecond and more   |
/// | `MicroSecond` | `µs` | 1 000         | 1                      | 100                   | less than a millisecond    |
#[derive(Debug, Clone, Copy, PartialEq, Eq, Structural)]
pub enum Unit {
    Second,
    MilliSecond,
    MicroSecond,
}

impl Unit {
    /// The unit's abbreviation as text.
    pub open spec fn short_name_text(self) -> Seq<char> {
        match self {
            Unit::Second => "s"@,
            Unit::MilliSecond => "ms"@,
            Unit::MicroSecond => "µs"@,
        }
    }

    /// The length of the unit in nanoseconds.
    pub open spec fn spec_nanos(self) -> nat {
        match self {
            Unit::Second => 1_000_000_000,
            Unit::MilliSecond => 1_000_000,
            Unit::MicroSecond => 1_000,
        }
    }

    /// The count of digits after the point with which a duration is
    /// displayed in this unit.
    pub open spec fn spec_places(self) -> nat {
        match self {
            Unit::Second => 3,
            Unit::MilliSecond => 1,
            Unit::MicroSecond => 1,
        }
    }

    /// The duration `nanos` in displayed steps of this unit, rounded to the
    /// nearest step, halves upward. A step is the unit divided by ten to
    /// the power of `spec_places`: a thousandth of a second, a tenth of a
    /// millisecond, a tenth of a microsecond.
    pub open spec fn displayed_steps(self, nanos: nat) -> nat {
        match self {
            Unit::Second => rounded_quotient(nanos, 1_000_000),
            Unit::MilliSecond => rounded_quotient(nanos, 100_000),
            Unit::MicroSecond => rounded_quotient(nanos, 100),
        }
    }

    /// The text that displays the duration `nanos` in this unit.
    pub open spec fn format_text(self, nanos: nat) -> Seq<char> {
        fixed_text(self.displayed_steps(nanos), self.spec_places())
    }

    /// The largest unit in which `nanos` is at least one; the smallest
    /// unit where there is none.
    pub open spec fn fitting(nanos: nat) -> Unit {
        if nanos >= Unit::Second.spec_nanos() {
            Unit::Second
        } else if nanos >= Unit::MilliSecond.spec_nanos() {
            Unit::MilliSecond
        } else {
            Unit::MicroSecond
        }
    }

    /// The abbreviation of the unit.
    pub fn short_name(self) -> (name: String)
        ensures
            name@ == self.short_name_text(),
    {
        match self {
            Unit::Second => String::from_str("s"),
            Unit::MilliSecond => String::from_str("ms"),
            Unit::MicroSecond => String::from_str("µs"),
        }
    }

    /// The length of the unit in nanoseconds.
    pub fn nanos(self) -> (n: u64)
        ensures
            n == self.spec_nanos(),
    {
        match self {
            Unit::Second => 1_000_000_000,
            Unit::MilliSecond => 1_000_000,
            Unit::MicroSecond => 1_000,
        }
    }

    /// The count of digits after the point with which a duration is
    /// displayed in this unit.
    pub fn places(self) -> (p: u8)
        ensures
            p == self.spec_places(),
    {
        match self {
            Unit::Second => 3,
            Unit::MilliSecond => 1,
            Unit::MicroSecond => 1,
        }
    }

    /// Displays the duration `nanos` in this unit, rounded to the unit's
    /// count of digits after the point.
    pub fn format(self, nanos: u64) -> (text: String)
        ensures
            text@ == self.format_text(nanos as nat),
    {
        let steps: u128 = match self {
            Unit::Second => round_div(nanos as u128, 1_000_000),
            Unit::MilliSecond => round_div(nanos as u128, 100_000),
            Unit::MicroSecond => round_div(nanos as u128, 100),
        };
        fixed_string(steps, self.places())
    }

    /// The unit that suits a duration of `nanos`.
    pub fn fit(nanos: u64) -> (unit: Unit)
        ensures
            unit == Unit::fitting(nanos as nat),
    {
        if nanos >= Unit::Second.nanos() {
            Unit::Second
        } else if nanos >= Unit::MilliSecond.nanos() {
            Unit::MilliSecond
        } else {
            Unit::MicroSecond
        }
    }
}

/// The one unit in which every duration of a table is displayed: the forced
/// unit where there is one; else the unit that suits the mean of the first
/// result; seconds where there is neither.
pub open spec fn resolved_unit(results: Seq<BenchmarkResult>, forced: Option<Unit>) -> Unit {
    match forced {
        Some(unit) => unit,
        None => if results.len() > 0 {
            Unit::fitting(results[0].mean as nat)
        } else {
            Unit::Second
        },
    }
}

/// Decides the unit in which every duration of a table is displayed.
pub fn resolve_unit(results: &[BenchmarkResult], forced: Option<Unit>) -> (unit: Unit)
    ensures
        unit == resolved_unit(results@, forced),
{
    match forced {
        Some(unit) => unit,
        None => if results.len() > 0 {
            Unit::fit(results[0].mean)
        } else {
            Unit::Second
        },
    }
}

/// The resolved unit depends on the results through the mean of the first
/// alone: two sets of results whose first means agree resolve to one unit,
/// however the results after the first are chosen or ordered.
pub proof fn lemma_unit_from_first_mean(
    a: Seq<BenchmarkResult>,
    b: Seq<BenchmarkResult>,
    forced: Option<Unit>,
)
    requires
        a.len() > 0,
        b.len() > 0,
        a[0].mean == b[0].mean,
    ensures
        resolved_unit(a, forced) == resolved_unit(b, forced),
{
}

/// A forced unit is the resolved unit, whatever the results are.
pub proof fn lemma_forced_unit_wins(results: Seq<BenchmarkResult>, unit: Unit)
    ensures
        resolved_unit(results, Some(unit)) == unit,
{
}

} // verus!
