use std::collections::BTreeMap;

use bench_report::benchmark::{are_comparable, BenchmarkResult, MAX_NANOS};
use bench_report::relative_speed::{are_printable, compute, fastest, Ratio, Uncertainty};

fn result(command: &str, mean: u64, stddev: Option<u64>) -> BenchmarkResult {
    BenchmarkResult {
        command: command.to_string(),
        mean,
        stddev,
        median: mean,
        user: 0,
        system: 0,
        min: mean,
        max: mean,
        times: None,
        exit_codes: Vec::new(),
        parameters: BTreeMap::new(),
    }
}

#[test]
fn compute_of_nothing_is_unavailable() {
    let none: Vec<BenchmarkResult> = Vec::new();
    assert!(compute(&none).is_none());
}

#[test]
fn uncertainty_of_the_slower_sleep() {
    let results = vec![
        result("sleep 0.1", 105_700_000, Some(1_600_000)),
        result("sleep 2", 2_005_000_000, Some(2_000_000)),
    ];
    let entries = compute(&results).unwrap();
    assert_eq!(entries.len(), 2);
    assert_eq!(entries[1].relative_mean, Ratio { numer: 2_005_000_000, denom: 105_700_000 });
    assert_eq!(entries[1].relative_mean.hundredths(), 1897);
    assert_eq!(
        entries[1].relative_stddev,
        Some(Uncertainty {
            own: 2_000_000 * 105_700_000,
            base: 1_600_000 * 2_005_000_000,
            denom: 105_700_000 * 105_700_000,
        })
    );
    assert_eq!(entries[1].relative_stddev.unwrap().hundredths(), 29);
    assert!(entries[0].relative_mean.equals_one());
    assert_eq!(entries[0].relative_mean.hundredths(), 100);
    assert_eq!(entries[0].relative_stddev.unwrap().hundredths(), 2);
}

#[test]
fn one_fastest_and_none_below_one() {
    let results = vec![
        result("slow", 300, Some(30)),
        result("fast", 200, Some(10)),
        result("medium", 250, Some(0)),
    ];
    assert_eq!(fastest(&results), 1);
    let entries = compute(&results).unwrap();
    let ones: Vec<usize> = (0..3).filter(|&i| entries[i].relative_mean.equals_one()).collect();
    assert_eq!(ones, vec![1]);
    for entry in &entries {
        assert!(entry.relative_mean.numer >= entry.relative_mean.denom);
        assert_eq!(entry.relative_mean.denom, 200);
    }
    assert_eq!(entries[0].relative_mean.hundredths(), 150);
    assert_eq!(entries[2].relative_mean.hundredths(), 125);
    assert_eq!(entries[0].relative_stddev.unwrap().hundredths(), 17);
    assert_eq!(entries[1].relative_stddev.unwrap().hundredths(), 7);
    assert_eq!(entries[2].relative_stddev.unwrap().hundredths(), 6);
}

#[test]
fn entries_keep_the_order_and_the_results() {
    let results = vec![result("c", 3_000, None), result("a", 1_000, None), result("b", 2_000, None)];
    let entries = compute(&results).unwrap();
    let commands: Vec<&str> = entries.iter().map(|e| e.result.command.as_str()).collect();
    assert_eq!(commands, vec!["c", "a", "b"]);
    let hundredths: Vec<u128> = entries.iter().map(|e| e.relative_mean.hundredths()).collect();
    assert_eq!(hundredths, vec![300, 100, 200]);
}

#[test]
fn first_of_equal_means_is_the_fastest() {
    let results = vec![
        result("later", 500, Some(5)),
        result("first", 400, Some(40)),
        result("second", 400, Some(4)),
    ];
    assert_eq!(fastest(&results), 1);
    let entries = compute(&results).unwrap();
    assert!(entries[1].relative_mean.equals_one());
    assert!(entries[2].relative_mean.equals_one());
    // The deviation of the first of the equal means is the one that counts.
    assert_eq!(
        entries[2].relative_stddev,
        Some(Uncertainty { own: 4 * 400, base: 40 * 400, denom: 400 * 400 })
    );
    assert_eq!(entries[2].relative_stddev.unwrap().hundredths(), 10);
    assert_eq!(
        entries[0].relative_stddev,
        Some(Uncertainty { own: 5 * 400, base: 40 * 500, denom: 400 * 400 })
    );
    assert_eq!(entries[0].relative_stddev.unwrap().hundredths(), 13);
}

#[test]
fn unknown_deviation_is_not_taken_as_zero() {
    let results = vec![
        result("fast", 100, None),
        result("slow", 200, Some(10)),
    ];
    let entries = compute(&results).unwrap();
    assert_eq!(entries[0].relative_stddev, None);
    assert_eq!(entries[1].relative_stddev, None);

    let results = vec![
        result("fast", 100, Some(0)),
        result("slow", 200, None),
        result("slower", 400, Some(0)),
    ];
    let entries = compute(&results).unwrap();
    assert_eq!(entries[0].relative_stddev, Some(Uncertainty { own: 0, base: 0, denom: 10_000 }));
    assert_eq!(entries[0].relative_stddev.unwrap().hundredths(), 0);
    assert_eq!(entries[1].relative_stddev, None);
    assert_eq!(entries[2].relative_stddev.unwrap().hundredths(), 0);
}

#[test]
fn uncertainty_adds_in_quadrature() {
    assert_eq!(Uncertainty { own: 4, base: 0, denom: 1 }.hundredths(), 400);
    assert_eq!(Uncertainty { own: 3, base: 4, denom: 1 }.hundredths(), 500);
    assert_eq!(Uncertainty { own: 3, base: 4, denom: 2 }.hundredths(), 250);
    assert_eq!(Uncertainty { own: 3, base: 4, denom: 1_000 }.hundredths(), 1);
    assert_eq!(Uncertainty { own: 3, base: 4, denom: 1_001 }.hundredths(), 0);
    assert_eq!(Uncertainty { own: 1, base: 1, denom: 1 }.hundredths(), 141);
}

#[test]
fn uncertainty_at_the_limit() {
    let limit = MAX_NANOS as u128;
    let results = vec![
        result("a", MAX_NANOS, Some(MAX_NANOS)),
        result("b", MAX_NANOS, Some(MAX_NANOS)),
    ];
    let entries = compute(&results).unwrap();
    assert_eq!(
        entries[1].relative_stddev,
        Some(Uncertainty { own: limit * limit, base: limit * limit, denom: limit * limit })
    );
    assert_eq!(entries[1].relative_stddev.unwrap().hundredths(), 141);
    let results = vec![result("a", 1, Some(MAX_NANOS)), result("b", MAX_NANOS, Some(MAX_NANOS))];
    let entries = compute(&results).unwrap();
    assert_eq!(
        entries[1].relative_stddev.unwrap().hundredths(),
        33230699894622896822595176507008614450
    );
}

#[test]
fn compute_takes_every_result() {
    let results = vec![result("none", 0, Some(0)), result("all", u64::MAX, Some(u64::MAX))];
    let entries = compute(&results).unwrap();
    assert_eq!(entries.len(), 2);
    assert_eq!(entries[0].relative_mean, Ratio { numer: 0, denom: 0 });
    assert_eq!(entries[1].relative_mean, Ratio { numer: u64::MAX, denom: 0 });
    assert_eq!(entries[1].relative_stddev, Some(Uncertainty { own: 0, base: 0, denom: 0 }));
    let results = vec![result("all", u64::MAX, Some(u64::MAX)), result("too", u64::MAX, None)];
    let entries = compute(&results).unwrap();
    let square = (u64::MAX as u128) * (u64::MAX as u128);
    assert_eq!(
        entries[0].relative_stddev,
        Some(Uncertainty { own: square, base: square, denom: square })
    );
    assert_eq!(entries[1].relative_stddev, None);
    assert!(entries[1].relative_mean.equals_one());
}

#[test]
fn comparable_means_are_positive_and_within_the_limit() {
    assert!(result("a", 1, None).is_comparable());
    assert!(result("a", MAX_NANOS, Some(MAX_NANOS)).is_comparable());
    assert!(!result("a", 0, None).is_comparable());
    assert!(!result("a", MAX_NANOS + 1, None).is_comparable());
    assert!(!result("a", 5, Some(MAX_NANOS + 1)).is_comparable());
    assert!(are_comparable(&[]));
    assert!(are_comparable(&[result("a", 1, None), result("b", 2, Some(0))]));
    assert!(!are_comparable(&[result("a", 1, None), result("b", 0, None)]));
}

#[test]
fn printable_where_defined_and_roundable() {
    assert!(are_printable(&[]));
    assert!(are_printable(&[result("a", 1, None)]));
    assert!(!are_printable(&[result("a", 0, None)]));
    assert!(!are_printable(&[result("a", 5, Some(1)), result("b", 0, Some(1))]));
    // Without deviations any positive means will do.
    assert!(are_printable(&[result("a", u64::MAX, None), result("b", u64::MAX - 1, Some(7))]));
    assert!(are_printable(&[result("a", MAX_NANOS, Some(MAX_NANOS)), result("b", MAX_NANOS, Some(MAX_NANOS))]));
    assert!(!are_printable(&[result("a", u64::MAX, Some(u64::MAX)), result("b", u64::MAX, Some(u64::MAX))]));
    let entries_of = [result("a", 3, Some(1)), result("b", 2, Some(1))];
    let entries = compute(&entries_of).unwrap();
    assert!(entries[0].can_print());
    assert!(entries[0].relative_stddev.unwrap().can_round());
    let most = u128::MAX / 200;
    assert!(Uncertainty { own: most, base: 0, denom: 1 }.can_round());
    assert!(!Uncertainty { own: most + 1, base: 0, denom: 1 }.can_round());
    assert!(!Uncertainty { own: 0, base: most + 1, denom: 1 }.can_round());
    assert!(Uncertainty { own: most / 2, base: most / 2, denom: 1 }.can_round());
    assert!(!Uncertainty { own: most / 2 + 1, base: most / 2 + 1, denom: 1 }.can_round());
}

#[test]
fn ordered_run_times() {
    let mut r = result("a", 5, None);
    assert!(r.is_ordered());
    r.min = 4;
    r.max = 6;
    assert!(r.is_ordered());
    r.median = 7;
    assert!(!r.is_ordered());
    r.median = 4;
    r.mean = 3;
    assert!(!r.is_ordered());
}

#[test]
fn ratio_rounds_halves_upward() {
    assert_eq!(Ratio { numer: 201, denom: 200 }.hundredths(), 101);
    assert_eq!(Ratio { numer: 2009, denom: 2000 }.hundredths(), 100);
    assert_eq!(Ratio { numer: 401, denom: 400 }.hundredths(), 100);
    assert_eq!(Ratio { numer: u64::MAX, denom: 1 }.hundredths(), 100 * (u64::MAX as u128));
    assert!(!Ratio { numer: 201, denom: 200 }.equals_one());
}
