//! The speed of each benchmarked command relative to the fastest one, with
//! the uncertainty of that ratio.

use crate::benchmark::{all_comparable, BenchmarkResult, MAX_NANOS};
use crate::rounding::{
    lemma_rounded_quotient_nearest, lemma_rounded_quotient_unique,
    lemma_rounded_root_quotient_nearest, lemma_rounded_root_quotient_unique, round_div,
    round_hypot_div, rounded_quotient, rounded_root_quotient,
};
use vstd::prelude::*;

verus! {

/// The exact quotient `numer / denom` of two durations. Two ratios are
/// equal where their terms are.
#[derive(Debug, Clone, Copy, PartialEq, Eq, Structural)]
pub struct Ratio {
    pub numer: u64,
    pub denom: u64,
}

impl Ratio {
    /// Whether the ratio has a value: its denominator is not zero.
    pub open spec fn is_defined(self) -> bool {
        self.denom > 0
    }

    /// Whether the ratio is exactly one.
    pub open spec fn is_one(self) -> bool {
        self.numer == self.denom
    }

    /// Whether the ratio is one or more.
    pub open spec fn at_least_one(self) -> bool {
        self.numer >= self.denom
    }

    /// The ratio in hundredths, rounded to the nearest hundredth, halves
    /// upward.
    pub open spec fn spec_hundredths(self) -> nat {
        rounded_quotient(100 * (self.numer as nat), self.denom as nat)
    }

    /// The rounded ratio `h` is the nearest to the exact one: it holds that
    /// `h - 1/2 <= 100 * numer / denom < h + 1/2`.
    pub proof fn lemma_hundredths_nearest(self)
        requires
            self.is_defined(),
        ensures
            (2 * self.spec_hundredths() - 1) * self.denom <= 200 * self.numer,
            200 * self.numer < (2 * self.spec_hundredths() + 1) * self.denom,
    {
        lemma_rounded_quotient_nearest(100 * (self.numer as nat), self.denom as nat);
    }

    /// No number but the rounded ratio lies as near to the exact one: an `h`
    /// with `h - 1/2 <= 100 * numer / denom < h + 1/2` is the rounded ratio.
    pub proof fn lemma_hundredths_unique(self, h: nat)
        requires
            self.is_defined(),
            (2 * h - 1) * self.denom <= 200 * self.numer,
            200 * self.numer < (2 * h + 1) * self.denom,
        ensures
            h == self.spec_hundredths(),
    {
        lemma_rounded_quotient_unique(100 * (self.numer as nat), self.denom as nat, h);
    }

    /// A ratio of exactly one is a hundred hundredths.
    pub proof fn lemma_one_is_hundred(self)
        requires
            self.is_defined(),
            self.is_one(),
        ensures
            self.spec_hundredths() == 100,
    {
        let h: nat = 100;
        assert((2 * h - 1) * self.denom <= 200 * self.numer < (2 * h + 1) * self.denom)
            by (nonlinear_arith)
            requires
                h == 100,
                self.numer == self.denom,
                self.denom > 0,
        ;
        self.lemma_hundredths_unique(h);
    }

    /// Whether the ratio is exactly one.
    pub fn equals_one(&self) -> (b: bool)
        ensures
            b == self.is_one(),
    {
        self.numer == self.denom
    }

    /// The ratio in hundredths, rounded to the nearest hundredth, halves
    /// upward.
    pub fn hundredths(&self) -> (h: u128)
        requires
            self.is_defined(),
        ensures
            h == self.spec_hundredths(),
    {
        round_div(100 * (self.numer as u128), self.denom as u128)
    }
}

/// The exact value `sqrt(own^2 + base^2) / denom`: the standard deviation of
/// a ratio of two means, whose two sources of error add in quadrature. Two
/// uncertainties are equal where their terms are.
#[derive(Debug, Clone, Copy, PartialEq, Eq, Structural)]
pub struct Uncertainty {
    /// What the result's own standard deviation brings in: that deviation
    /// times the mean of the fastest.
    pub own: u128,
    /// What the standard deviation of the fastest brings in: that deviation
    /// times the result's mean.
    pub base: u128,
    /// The square of the mean of the fastest.
    pub denom: u128,
}

impl Uncertainty {
    /// Whether the uncertainty has a value: its denominator is not zero.
    pub open spec fn is_defined(self) -> bool {
        self.denom > 0
    }

    /// Whether the uncertainty can be rounded within 256 bits: its two
    /// terms, each times two hundred, stay below two to the power of 128
    /// together.
    pub open spec fn is_roundable(self) -> bool {
        200 * self.own + 200 * self.base < u128::MAX
    }

    /// The uncertainty in hundredths, rounded to the nearest hundredth,
    /// halves upward.
    pub open spec fn spec_hundredths(self) -> nat {
        let own = 100 * (self.own as nat);
        let base = 100 * (self.base as nat);
        rounded_root_quotient(own * own + base * base, self.denom as nat)
    }

    /// The rounded uncertainty `h` is the nearest to the exact one: it
    /// holds that `h - 1/2 <= 100 * sqrt(own^2 + base^2) / denom < h + 1/2`.
    /// Both sides are doubled and squared here, so that the statement stays
    /// within whole numbers.
    pub proof fn lemma_hundredths_nearest(self)
        requires
            self.is_defined(),
        ensures
            ({
                let h = self.spec_hundredths();
                let sum = self.own * self.own + self.base * self.base;
                &&& h >= 1 ==> ((2 * h - 1) * self.denom) * ((2 * h - 1) * self.denom) <= 40_000
                    * sum
                &&& 40_000 * sum < ((2 * h + 1) * self.denom) * ((2 * h + 1) * self.denom)
            }),
    {
        self.lemma_scaled_sum();
        let own = 100 * (self.own as nat);
        let base = 100 * (self.base as nat);
        lemma_rounded_root_quotient_nearest(own * own + base * base, self.denom as nat);
    }

    /// No number but the rounded uncertainty lies as near to the exact one:
    /// an `h` with `h - 1/2 <= 100 * sqrt(own^2 + base^2) / denom < h + 1/2`
    /// is the rounded uncertainty.
    pub proof fn lemma_hundredths_unique(self, h: nat)
        requires
            self.is_defined(),
            h >= 1 ==> ((2 * h - 1) * self.denom) * ((2 * h - 1) * self.denom) <= 40_000 * (
            self.own * self.own + self.base * self.base),
            40_000 * (self.own * self.own + self.base * self.base) < ((2 * h + 1) * self.denom) * ((
            2 * h + 1) * self.denom),
        ensures
            h == self.spec_hundredths(),
    {
        self.lemma_scaled_sum();
        let own = 100 * (self.own as nat);
        let base = 100 * (self.base as nat);
        lemma_rounded_root_quotient_unique(own * own + base * base, self.denom as nat, h);
    }

    /// Four times the sum of the squares of the terms in hundredths is forty
    /// thousand times the sum of the squares of the terms.
    proof fn lemma_scaled_sum(self)
        ensures
            4 * ((100 * self.own) * (100 * self.own) + (100 * self.base) * (100 * self.base))
                == 40_000 * (self.own * self.own + self.base * self.base),
    {
        let own = self.own as int;
        let base = self.base as int;
        assert(4 * ((100 * own) * (100 * own) + (100 * base) * (100 * base)) == 40_000 * (own * own
            + base * base)) by (nonlinear_arith);
    }

    /// Whether the uncertainty can be rounded within 256 bits.
    pub fn can_round(&self) -> (b: bool)
        ensures
            b == self.is_roundable(),
    {
        let most: u128 = u128::MAX / 200;
        self.own <= most && self.base <= most && 200 * self.own < u128::MAX - 200 * self.base
    }

    /// The uncertainty in hundredths, rounded to the nearest hundredth,
    /// halves upward.
    pub fn hundredths(&self) -> (h: u128)
        requires
            self.is_defined(),
            self.is_roundable(),
        ensures
            h == self.spec_hundredths(),
    {
        round_hypot_div(100 * self.own, 100 * self.base, self.denom)
    }
}

/// Whether `f` is the index of the fastest of `results`: no result has a
/// smaller mean, and every result before it has a larger one.
pub open spec fn is_fastest(results: Seq<BenchmarkResult>, f: int) -> bool {
    &&& 0 <= f < results.len()
    &&& forall|j: int| 0 <= j < results.len() ==> results[f].mean <= (#[trigger] results[j]).mean
    &&& forall|j: int| 0 <= j < f ==> results[f].mean < (#[trigger] results[j]).mean
}

/// The index of the fastest of `results`: of those with the least mean, the
/// first.
pub open spec fn fastest_index(results: Seq<BenchmarkResult>) -> int {
    choose|f: int| is_fastest(results, f)
}

/// Among results that are not empty one is the fastest.
proof fn lemma_fastest_exists(results: Seq<BenchmarkResult>)
    requires
        results.len() > 0,
    ensures
        exists|f: int| is_fastest(results, f),
    decreases results.len(),
{
    if results.len() == 1 {
        assert(is_fastest(results, 0));
    } else {
        let front = results.drop_last();
        lemma_fastest_exists(front);
        let before = choose|f: int| is_fastest(front, f);
        let last = results.len() - 1;
        assert(forall|j: int| 0 <= j < last ==> front[j] == results[j]);
        if results[last].mean < results[before].mean {
            assert forall|j: int| 0 <= j < results.len() implies results[last].mean <= (
            #[trigger] results[j]).mean by {
                if j < last {
                    assert(front[before].mean <= front[j].mean);
                }
            }
            assert forall|j: int| 0 <= j < last implies results[last].mean < (
            #[trigger] results[j]).mean by {
                assert(front[before].mean <= front[j].mean);
            }
            assert(is_fastest(results, last));
        } else {
            assert forall|j: int| 0 <= j < results.len() implies results[before].mean <= (
            #[trigger] results[j]).mean by {
                if j < last {
                    assert(front[before].mean <= front[j].mean);
                }
            }
            assert forall|j: int| 0 <= j < before implies results[before].mean < (
            #[trigger] results[j]).mean by {
                assert(front[before].mean < front[j].mean);
            }
            assert(is_fastest(results, before));
        }
    }
}

/// `fastest_index` is the index of the fastest result.
pub proof fn lemma_fastest_index(results: Seq<BenchmarkResult>)
    requires
        results.len() > 0,
    ensures
        is_fastest(results, fastest_index(results)),
{
    lemma_fastest_exists(results);
}

/// Only one index is that of the fastest result.
pub proof fn lemma_fastest_unique(results: Seq<BenchmarkResult>, f: int)
    requires
        is_fastest(results, f),
    ensures
        f == fastest_index(results),
{
    lemma_fastest_index(results);
    let g = fastest_index(results);
    if f < g {
        assert(results[g].mean < results[f].mean);
        assert(results[f].mean <= results[g].mean);
    } else if g < f {
        assert(results[f].mean < results[g].mean);
        assert(results[g].mean <= results[f].mean);
    }
}

/// The mean of the result at `i` relative to the mean of the fastest.
pub open spec fn relative_mean(results: Seq<BenchmarkResult>, i: int) -> Ratio {
    Ratio { numer: results[i].mean, denom: results[fastest_index(results)].mean }
}

/// The uncertainty of the relative mean of the result at `i`: known where
/// the standard deviations of that result and of the fastest are both
/// known.
///
/// Both means are taken as independent and normally distributed, so that
/// their relative errors add in quadrature: with `r = mean / fastest_mean`
/// the deviation of `r` is
/// `r * sqrt((stddev / mean)^2 + (fastest_stddev / fastest_mean)^2)`,
/// which is
/// `sqrt((stddev * fastest_mean)^2 + (fastest_stddev * mean)^2) / fastest_mean^2`.
/// Each of the three products is one of two 64-bit numbers, and so fits in
/// 128 bits.
pub open spec fn relative_stddev(results: Seq<BenchmarkResult>, i: int) -> Option<Uncertainty> {
    let fastest = results[fastest_index(results)];
    match (results[i].stddev, fastest.stddev) {
        (Some(own), Some(base)) => Some(
            Uncertainty {
                own: (own * fastest.mean) as u128,
                base: (base * results[i].mean) as u128,
                denom: (fastest.mean * fastest.mean) as u128,
            },
        ),
        _ => None,
    }
}

/// A benchmark result with its speed relative to the fastest result.
#[derive(Debug, Clone, Copy)]
pub struct RelativeSpeedEntry<'a> {
    /// The result that the entry is about.
    pub result: &'a BenchmarkResult,
    /// The mean of the result over the mean of the fastest result.
    pub relative_mean: Ratio,
    /// The standard deviation of `relative_mean`, where it is known.
    pub relative_stddev: Option<Uncertainty>,
}

impl<'a> RelativeSpeedEntry<'a> {
    /// Whether this is the entry of the result at `i` among `results`.
    pub open spec fn is_entry_of(self, results: Seq<BenchmarkResult>, i: int) -> bool {
        &&& *self.result == results[i]
        &&& self.relative_mean == relative_mean(results, i)
        &&& self.relative_stddev == relative_stddev(results, i)
    }

    /// Whether the relative speed can be written down: the relative mean
    /// has a value, and so has its uncertainty, which can be rounded
    /// besides.
    pub open spec fn is_printable(self) -> bool {
        &&& self.relative_mean.is_defined()
        &&& self.relative_stddev matches Some(uncertainty) ==> uncertainty.is_defined()
            && uncertainty.is_roundable()
    }

    /// Whether the relative speed can be written down.
    pub fn can_print(&self) -> (b: bool)
        ensures
            b == self.is_printable(),
    {
        let uncertainty_fits: bool = match self.relative_stddev {
            Some(uncertainty) => uncertainty.denom > 0 && uncertainty.can_round(),
            None => true,
        };
        self.relative_mean.denom > 0 && uncertainty_fits
    }
}

/// Whether the relative speed of the result at `i` among `results` can be
/// written down: the mean of the fastest is not zero, and the uncertainty,
/// where it is known, can be rounded.
pub open spec fn printable_at(results: Seq<BenchmarkResult>, i: int) -> bool {
    &&& relative_mean(results, i).is_defined()
    &&& relative_stddev(results, i) matches Some(uncertainty) ==> uncertainty.is_defined()
        && uncertainty.is_roundable()
}

/// Whether the relative speed of every one of `results` can be written
/// down.
pub open spec fn all_printable(results: Seq<BenchmarkResult>) -> bool {
    forall|i: int| 0 <= i < results.len() ==> #[trigger] printable_at(results, i)
}

/// Whether `entries` are the entries of `results`, one for each result and
/// in the same order.
pub open spec fn are_entries_of(
    entries: Seq<RelativeSpeedEntry<'_>>,
    results: Seq<BenchmarkResult>,
) -> bool {
    &&& entries.len() == results.len()
    &&& forall|i: int| 0 <= i < entries.len() ==> (#[trigger] entries[i]).is_entry_of(results, i)
}

/// Finds the fastest of `results`: of those with the least mean, the first.
pub fn fastest(results: &[BenchmarkResult]) -> (f: usize)
    requires
        results@.len() > 0,
    ensures
        f == fastest_index(results@),
        is_fastest(results@, f as int),
{
    let mut f: usize = 0;
    let mut i: usize = 1;
    while i < results.len()
        invariant
            1 <= i <= results@.len(),
            0 <= f < i,
            forall|j: int| 0 <= j < i ==> results@[f as int].mean <= (#[trigger] results@[j]).mean,
            forall|j: int| 0 <= j < f ==> results@[f as int].mean < (#[trigger] results@[j]).mean,
        decreases results@.len() - i,
    {
        if results[i].mean < results[f].mean {
            f = i;
        }
        i = i + 1;
    }
    proof {
        lemma_fastest_unique(results@, f as int);
    }
    f
}

/// The product of two durations fits in 128 bits.
proof fn lemma_product_fits(x: u64, y: u64)
    ensures
        x * y <= u128::MAX,
{
    assert(x * y <= 0xffff_ffff_ffff_ffff * 0xffff_ffff_ffff_ffff) by (nonlinear_arith)
        requires
            0 <= x <= 0xffff_ffff_ffff_ffff,
            0 <= y <= 0xffff_ffff_ffff_ffff,
    ;
}

/// The product of two durations within the limit is at most the square of
/// the limit.
proof fn lemma_product_within_limit(x: u64, y: u64)
    requires
        x <= MAX_NANOS,
        y <= MAX_NANOS,
    ensures
        x * y <= MAX_NANOS * MAX_NANOS,
{
    assert(x * y <= MAX_NANOS * MAX_NANOS) by (nonlinear_arith)
        requires
            0 <= x <= MAX_NANOS,
            0 <= y <= MAX_NANOS,
    ;
}

/// Relates every result to the fastest: the entries are those of the
/// results, in their order. There are none where there are no results, and
/// only there.
pub fn compute<'a>(results: &'a [BenchmarkResult]) -> (entries: Option<Vec<RelativeSpeedEntry<'a>>>)
    ensures
        entries is None <==> results@.len() == 0,
        entries matches Some(list) ==> are_entries_of(list@, results@),
{
    if results.len() == 0 {
        return None;
    }
    let f: usize = fastest(results);
    let fastest_mean: u64 = results[f].mean;
    let fastest_stddev: Option<u64> = results[f].stddev;
    let mut list: Vec<RelativeSpeedEntry<'a>> = Vec::new();
    let mut i: usize = 0;
    while i < results.len()
        invariant
            i <= results@.len(),
            f == fastest_index(results@),
            0 <= f < results@.len(),
            fastest_mean == results@[f as int].mean,
            fastest_stddev == results@[f as int].stddev,
            list@.len() == i,
            forall|j: int| 0 <= j < i ==> (#[trigger] list@[j]).is_entry_of(results@, j),
        decreases results@.len() - i,
    {
        let result: &'a BenchmarkResult = &results[i];
        let relative_stddev: Option<Uncertainty> = match (result.stddev, fastest_stddev) {
            (Some(own), Some(base)) => {
                proof {
                    lemma_product_fits(own, fastest_mean);
                    lemma_product_fits(base, result.mean);
                    lemma_product_fits(fastest_mean, fastest_mean);
                }
                Some(
                    Uncertainty {
                        own: (own as u128) * (fastest_mean as u128),
                        base: (base as u128) * (result.mean as u128),
                        denom: (fastest_mean as u128) * (fastest_mean as u128),
                    },
                )
            },
            _ => None,
        };
        let entry = RelativeSpeedEntry {
            result,
            relative_mean: Ratio { numer: result.mean, denom: fastest_mean },
            relative_stddev,
        };
        assert(entry.is_entry_of(results@, i as int));
        list.push(entry);
        i = i + 1;
    }
    Some(list)
}

/// Whether the relative speed of every one of `results` can be written
/// down.
pub fn are_printable(results: &[BenchmarkResult]) -> (b: bool)
    ensures
        b == all_printable(results@),
{
    match compute(results) {
        None => true,
        Some(entries) => {
            let mut i: usize = 0;
            while i < entries.len()
                invariant
                    i <= entries@.len(),
                    are_entries_of(entries@, results@),
                    forall|j: int| 0 <= j < i ==> #[trigger] printable_at(results@, j),
                decreases entries@.len() - i,
            {
                assert(entries@[i as int].is_entry_of(results@, i as int));
                if !entries[i].can_print() {
                    assert(!printable_at(results@, i as int));
                    return false;
                }
                i = i + 1;
            }
            true
        },
    }
}

/// Results with positive means, whose means and standard deviations stay
/// within the limit, have relative speeds that can be written down.
pub proof fn lemma_comparable_is_printable(results: Seq<BenchmarkResult>)
    requires
        all_comparable(results),
    ensures
        all_printable(results),
{
    if results.len() > 0 {
        lemma_fastest_index(results);
        let fastest = results[fastest_index(results)];
        assert(fastest.comparable());
        assert forall|i: int| 0 <= i < results.len() implies #[trigger] printable_at(results, i) by {
            let result = results[i];
            assert(result.comparable());
            match (result.stddev, fastest.stddev) {
                (Some(own), Some(base)) => {
                    lemma_product_within_limit(own, fastest.mean);
                    lemma_product_within_limit(base, result.mean);
                    lemma_product_within_limit(fastest.mean, fastest.mean);
                    assert(fastest.mean * fastest.mean > 0) by (nonlinear_arith)
                        requires
                            fastest.mean > 0,
                    ;
                },
                _ => {},
            }
        }
    }
}

/// The entries of results whose relative speeds can be written down can be
/// written down.
pub proof fn lemma_entries_are_printable(
    entries: Seq<RelativeSpeedEntry<'_>>,
    results: Seq<BenchmarkResult>,
)
    requires
        all_printable(results),
        are_entries_of(entries, results),
    ensures
        forall|i: int| 0 <= i < entries.len() ==> (#[trigger] entries[i]).is_printable(),
{
    assert forall|i: int| 0 <= i < entries.len() implies (#[trigger] entries[i]).is_printable() by {
        assert(entries[i].is_entry_of(results, i));
        assert(printable_at(results, i));
    }
}

/// The fastest result has a relative mean of exactly one, no result has a
/// smaller one, and a result has a relative mean of one just where its mean
/// is that of the fastest.
pub proof fn lemma_fastest_normalization(results: Seq<BenchmarkResult>)
    requires
        results.len() > 0,
    ensures
        is_fastest(results, fastest_index(results)),
        relative_mean(results, fastest_index(results)).is_one(),
        forall|i: int|
            0 <= i < results.len() ==> (#[trigger] relative_mean(results, i)).at_least_one(),
        forall|i: int|
            0 <= i < results.len() ==> ((#[trigger] relative_mean(results, i)).is_one()
                <==> results[i].mean == results[fastest_index(results)].mean),
{
    lemma_fastest_index(results);
}

/// Where the least mean occurs once, the fastest result is the only one
/// with a relative mean of one.
pub proof fn lemma_single_fastest(results: Seq<BenchmarkResult>)
    requires
        results.len() > 0,
        forall|j: int|
            0 <= j < results.len() && j != fastest_index(results) ==> (#[trigger] results[j]).mean
                != results[fastest_index(results)].mean,
    ensures
        forall|i: int|
            0 <= i < results.len() ==> ((#[trigger] relative_mean(results, i)).is_one() <==> i
                == fastest_index(results)),
{
    lemma_fastest_index(results);
    let f = fastest_index(results);
    assert forall|i: int| 0 <= i < results.len() implies ((#[trigger] relative_mean(
        results,
        i,
    )).is_one() <==> i == f) by {
        if i < f {
            assert(results[f].mean < results[i].mean);
        } else if f < i {
            assert(results[f].mean != results[i].mean);
        }
    }
}

} // verus!
