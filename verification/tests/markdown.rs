use std::collections::BTreeMap;

use bench_report::benchmark::BenchmarkResult;
use bench_report::markdown::{test_table_header, ExportError, MarkdownExporter};
use bench_report::units::Unit;

/// A duration given in seconds as a whole number of nanoseconds.
fn nanos(seconds: f64) -> u64 {
    (seconds * 1e9).round() as u64
}

fn sleep_short() -> BenchmarkResult {
    BenchmarkResult {
        command: String::from("sleep 0.1"),
        mean: nanos(0.1057),
        stddev: Some(nanos(0.0016)),
        median: nanos(0.1057),
        user: nanos(0.0009),
        system: nanos(0.0011),
        min: nanos(0.1023),
        max: nanos(0.1080),
        times: Some(vec![nanos(0.1), nanos(0.1), nanos(0.1)]),
        exit_codes: vec![Some(0), Some(0), Some(0)],
        parameters: BTreeMap::new(),
    }
}

fn sleep_long() -> BenchmarkResult {
    BenchmarkResult {
        command: String::from("sleep 2"),
        mean: nanos(2.0050),
        stddev: Some(nanos(0.0020)),
        median: nanos(2.0050),
        user: nanos(0.0009),
        system: nanos(0.0012),
        min: nanos(2.0020),
        max: nanos(2.0080),
        times: Some(vec![nanos(2.0), nanos(2.0), nanos(2.0)]),
        exit_codes: vec![Some(0), Some(0), Some(0)],
        parameters: BTreeMap::new(),
    }
}

/// Ensure the markdown output includes the table header and the multiple
/// benchmark results as a table. The list of actual times is not included
/// in the output.
///
/// This also demonstrates that the first entry's units (ms) are used to set
/// the units for all entries when the time unit is not given.
#[test]
fn test_markdown_format_ms() {
    let exporter = MarkdownExporter::default();

    let timing_results = vec![
        BenchmarkResult {
            command: String::from("sleep 0.1"),
            mean: nanos(0.1057),
            stddev: Some(nanos(0.0016)),
            median: nanos(0.1057),
            user: nanos(0.0009),
            system: nanos(0.0011),
            min: nanos(0.1023),
            max: nanos(0.1080),
            times: Some(vec![nanos(0.1), nanos(0.1), nanos(0.1)]),
            exit_codes: vec![Some(0), Some(0), Some(0)],
            parameters: BTreeMap::new(),
        },
        BenchmarkResult {
            command: String::from("sleep 2"),
            mean: nanos(2.0050),
            stddev: Some(nanos(0.0020)),
            median: nanos(2.0050),
            user: nanos(0.0009),
            system: nanos(0.0012),
            min: nanos(2.0020),
            max: nanos(2.0080),
            times: Some(vec![nanos(2.0), nanos(2.0), nanos(2.0)]),
            exit_codes: vec![Some(0), Some(0), Some(0)],
            parameters: BTreeMap::new(),
        },
    ];

    let formatted = String::from_utf8(exporter.serialize(&timing_results, None).unwrap()).unwrap();

    let formatted_expected = format!(
        "{}\
| `sleep 0.1` | 105.7 ± 1.6 | 102.3 | 108.0 | 1.00 |
| `sleep 2` | 2005.0 ± 2.0 | 2002.0 | 2008.0 | 18.97 ± 0.29 |
",
        test_table_header("ms".to_string())
    );

    assert_eq!(formatted_expected, formatted);
}

/// This (again) demonstrates that the first entry's units (s) are used to set
/// the units for all entries when the time unit is not given.
#[test]
fn test_markdown_format_s() {
    let exporter = MarkdownExporter::default();

    let timing_results = vec![
        BenchmarkResult {
            command: String::from("sleep 2"),
            mean: nanos(2.0050),
            stddev: Some(nanos(0.0020)),
            median: nanos(2.0050),
            user: nanos(0.0009),
            system: nanos(0.0012),
            min: nanos(2.0020),
            max: nanos(2.0080),
            times: Some(vec![nanos(2.0), nanos(2.0), nanos(2.0)]),
            exit_codes: vec![Some(0), Some(0), Some(0)],
            parameters: BTreeMap::new(),
        },
        BenchmarkResult {
            command: String::from("sleep 0.1"),
            mean: nanos(0.1057),
            stddev: Some(nanos(0.0016)),
            median: nanos(0.1057),
            user: nanos(0.0009),
            system: nanos(0.0011),
            min: nanos(0.1023),
            max: nanos(0.1080),
            times: Some(vec![nanos(0.1), nanos(0.1), nanos(0.1)]),
            exit_codes: vec![Some(0), Some(0), Some(0)],
            parameters: BTreeMap::new(),
        },
    ];

    let formatted = String::from_utf8(exporter.serialize(&timing_results, None).unwrap()).unwrap();

    let formatted_expected = format!(
        "{}\
| `sleep 2` | 2.005 ± 0.002 | 2.002 | 2.008 | 18.97 ± 0.29 |
| `sleep 0.1` | 0.106 ± 0.002 | 0.102 | 0.108 | 1.00 |
",
        test_table_header("s".to_string())
    );

    assert_eq!(formatted_expected, formatted);
}

/// The given time unit (s) is used to set the units for all entries.
#[test]
fn test_markdown_format_time_unit_s() {
    let exporter = MarkdownExporter::default();

    let timing_results = vec![
        BenchmarkResult {
            command: String::from("sleep 0.1"),
            mean: nanos(0.1057),
            stddev: Some(nanos(0.0016)),
            median: nanos(0.1057),
            user: nanos(0.0009),
            system: nanos(0.0011),
            min: nanos(0.1023),
            max: nanos(0.1080),
            times: Some(vec![nanos(0.1), nanos(0.1), nanos(0.1)]),
            exit_codes: vec![Some(0), Some(0), Some(0)],
            parameters: BTreeMap::new(),
        },
        BenchmarkResult {
            command: String::from("sleep 2"),
            mean: nanos(2.0050),
            stddev: Some(nanos(0.0020)),
            median: nanos(2.0050),
            user: nanos(0.0009),
            system: nanos(0.0012),
            min: nanos(2.0020),
            max: nanos(2.0080),
            times: Some(vec![nanos(2.0), nanos(2.0), nanos(2.0)]),
            exit_codes: vec![Some(0), Some(0), Some(0)],
            parameters: BTreeMap::new(),
        },
    ];

    let formatted = String::from_utf8(
        exporter
            .serialize(&timing_results, Some(Unit::Second))
            .unwrap(),
    )
    .unwrap();

    let formatted_expected = format!(
        "{}\
| `sleep 0.1` | 0.106 ± 0.002 | 0.102 | 0.108 | 1.00 |
| `sleep 2` | 2.005 ± 0.002 | 2.002 | 2.008 | 18.97 ± 0.29 |
",
        test_table_header("s".to_string())
    );

    assert_eq!(formatted_expected, formatted);
}

/// This (again) demonstrates that the given time unit (ms) is used to set
/// the units for all entries.
#[test]
fn test_markdown_format_time_unit_ms() {
    let exporter = MarkdownExporter::default();

    let timing_results = vec![
        BenchmarkResult {
            command: String::from("sleep 2"),
            mean: nanos(2.0050),
            stddev: Some(nanos(0.0020)),
            median: nanos(2.0050),
            user: nanos(0.0009),
            system: nanos(0.0012),
            min: nanos(2.0020),
            max: nanos(2.0080),
            times: Some(vec![nanos(2.0), nanos(2.0), nanos(2.0)]),
            exit_codes: vec![Some(0), Some(0), Some(0)],
            parameters: BTreeMap::new(),
        },
        BenchmarkResult {
            command: String::from("sleep 0.1"),
            mean: nanos(0.1057),
            stddev: Some(nanos(0.0016)),
            median: nanos(0.1057),
            user: nanos(0.0009),
            system: nanos(0.0011),
            min: nanos(0.1023),
            max: nanos(0.1080),
            times: Some(vec![nanos(0.1), nanos(0.1), nanos(0.1)]),
            exit_codes: vec![Some(0), Some(0), Some(0)],
            parameters: BTreeMap::new(),
        },
    ];

    let formatted = String::from_utf8(
        exporter
            .serialize(&timing_results, Some(Unit::MilliSecond))
            .unwrap(),
    )
    .unwrap();

    let formatted_expected = format!(
        "{}\
| `sleep 2` | 2005.0 ± 2.0 | 2002.0 | 2008.0 | 18.97 ± 0.29 |
| `sleep 0.1` | 105.7 ± 1.6 | 102.3 | 108.0 | 1.00 |
",
        test_table_header("ms".to_string())
    );

    assert_eq!(formatted_expected, formatted);
}

#[test]
fn seconds_become_whole_nanoseconds() {
    assert_eq!(nanos(0.1057), 105_700_000);
    assert_eq!(nanos(0.0016), 1_600_000);
    assert_eq!(nanos(2.0050), 2_005_000_000);
    assert_eq!(nanos(0.1023), 102_300_000);
}

#[test]
fn header_names_the_unit_three_times() {
    assert_eq!(
        test_table_header("µs".to_string()),
        "| Command | Mean [µs] | Min [µs] | Max [µs] | Relative |\n|:---|---:|---:|---:|---:|\n"
    );
}

#[test]
fn serialize_of_nothing_fails() {
    let exporter = MarkdownExporter::default();
    let none: Vec<BenchmarkResult> = Vec::new();
    assert_eq!(
        exporter.serialize(&none, None),
        Err(ExportError::RelativeComparisonUnavailable)
    );
    assert_eq!(
        exporter.serialize(&none, Some(Unit::MicroSecond)),
        Err(ExportError::RelativeComparisonUnavailable)
    );
}

#[test]
fn error_message_names_the_export() {
    assert_eq!(
        ExportError::RelativeComparisonUnavailable.message(),
        "Relative speed comparison is not available for Markdown export."
    );
}

#[test]
fn serialize_in_microseconds_encodes_the_unit_in_utf8() {
    let exporter = MarkdownExporter::default();
    let mut quick = sleep_short();
    quick.command = String::from("true");
    quick.mean = 812_340;
    quick.stddev = None;
    quick.min = 790_050;
    quick.max = 840_000;
    let bytes = exporter.serialize(&[quick], None).unwrap();
    let expected = "| Command | Mean [µs] | Min [µs] | Max [µs] | Relative |\n\
|:---|---:|---:|---:|---:|\n\
| `true` | 812.3 | 790.1 | 840.0 | 1.00 |\n";
    assert_eq!(bytes, expected.as_bytes().to_vec());
    // The micro sign takes two bytes.
    assert_eq!(bytes[18], 0xc2);
    assert_eq!(bytes[19], 0xb5);
}

#[test]
fn rows_keep_the_order_of_the_results() {
    let exporter = MarkdownExporter::default();
    let mut middle = sleep_short();
    middle.command = String::from("sleep 1");
    middle.mean = 1_000_000_000;
    middle.stddev = None;
    middle.min = 999_000_000;
    middle.max = 1_001_000_000;
    let results = vec![sleep_long(), sleep_short(), middle];
    let text = String::from_utf8(exporter.serialize(&results, Some(Unit::Second)).unwrap()).unwrap();
    let lines: Vec<&str> = text.lines().collect();
    assert_eq!(lines.len(), 5);
    assert_eq!(lines[2], "| `sleep 2` | 2.005 ± 0.002 | 2.002 | 2.008 | 18.97 ± 0.29 |");
    assert_eq!(lines[3], "| `sleep 0.1` | 0.106 ± 0.002 | 0.102 | 0.108 | 1.00 |");
    assert_eq!(lines[4], "| `sleep 1` | 1.000 | 0.999 | 1.001 | 9.46 |");
    assert!(text.ends_with("|\n"));
}

#[test]
fn forced_unit_leaves_the_relative_column() {
    let exporter = MarkdownExporter::default();
    let results = vec![sleep_short(), sleep_long()];
    let mut columns: Vec<Vec<String>> = Vec::new();
    for unit in [Unit::Second, Unit::MilliSecond, Unit::MicroSecond] {
        let text = String::from_utf8(exporter.serialize(&results, Some(unit)).unwrap()).unwrap();
        let column: Vec<String> = text
            .lines()
            .skip(2)
            .map(|line| line.rsplit(" | ").next().unwrap().to_string())
            .collect();
        columns.push(column);
    }
    assert_eq!(columns[0], vec!["1.00 |".to_string(), "18.97 ± 0.29 |".to_string()]);
    assert_eq!(columns[0], columns[1]);
    assert_eq!(columns[1], columns[2]);
}

#[test]
fn forced_microseconds() {
    let exporter = MarkdownExporter::default();
    let results = vec![sleep_short()];
    let text = String::from_utf8(exporter.serialize(&results, Some(Unit::MicroSecond)).unwrap()).unwrap();
    assert_eq!(
        text,
        format!(
            "{}| `sleep 0.1` | 105700.0 ± 1600.0 | 102300.0 | 108000.0 | 1.00 |\n",
            test_table_header("µs".to_string())
        )
    );
}

#[test]
fn raw_times_and_exit_codes_stay_out() {
    let exporter = MarkdownExporter::default();
    let mut result = sleep_short();
    result.times = Some(vec![777_777_777]);
    result.exit_codes = vec![Some(42), None];
    result.parameters.insert("size".to_string(), "ninety".to_string());
    let text = String::from_utf8(exporter.serialize(&[result], None).unwrap()).unwrap();
    assert!(!text.contains("777"));
    assert!(!text.contains("42"));
    assert!(!text.contains("ninety"));
}
