//! Export of benchmark results as a Markdown table.

use crate::benchmark::BenchmarkResult;
use crate::markup::MarkupType;
use crate::relative_speed::{
    all_printable, compute, lemma_entries_are_printable, RelativeSpeedEntry,
};
use crate::units::{resolve_unit, resolved_unit, Unit};
use vstd::prelude::*;
use vstd::utf8::encode_utf8;

verus! {

/// Why an export failed.
#[derive(Debug, Clone, Copy, PartialEq, Eq, Structural)]
pub enum ExportError {
    /// There is no result, and so no fastest one to compare the others
    /// with.
    RelativeComparisonUnavailable,
}

impl ExportError {
    /// The failure in words.
    pub fn message(&self) -> (text: String)
        ensures
            text@ == "Relative speed comparison is not available for Markdown export."@,
    {
        match self {
            ExportError::RelativeComparisonUnavailable => String::from_str(
                "Relative speed comparison is not available for Markdown export.",
            ),
        }
    }
}

/// What the export of `results` gives: the bytes, in UTF-8, of the Markdown
/// table that compares them, with every duration in the resolved unit; a
/// failure where there are no results.
pub open spec fn serialized(results: Seq<BenchmarkResult>, unit: Option<Unit>) -> Result<
    Seq<u8>,
    ExportError,
> {
    if results.len() == 0 {
        Err(ExportError::RelativeComparisonUnavailable)
    } else {
        Ok(encode_utf8(MarkupType::Markdown.table_text(results, resolved_unit(results, unit))))
    }
}

/// Writes benchmark results as a Markdown table.
#[derive(Debug, Clone, Copy)]
pub struct MarkdownExporter {}

impl Default for MarkdownExporter {
    fn default() -> (exporter: Self)
        ensures
            exporter == (MarkdownExporter {  }),
    {
        MarkdownExporter {  }
    }
}

impl MarkdownExporter {
    /// Serializes `results` as a Markdown table that relates each of them
    /// to the fastest. The durations stand in `unit` where one is given,
    /// else in the unit that suits the mean of the first result.
    ///
    /// The relative speeds must be such as can be written down: the mean of
    /// the fastest result is not zero, and the uncertainties can be
    /// rounded. That holds of all results with positive means whose means
    /// and standard deviations stay within `MAX_NANOS`.
    pub fn serialize(&self, results: &[BenchmarkResult], unit: Option<Unit>) -> (out: Result<
        Vec<u8>,
        ExportError,
    >)
        requires
            all_printable(results@),
        ensures
            match out {
                Ok(bytes) => serialized(results@, unit) == Ok::<Seq<u8>, ExportError>(bytes@),
                Err(error) => serialized(results@, unit) == Err::<Seq<u8>, ExportError>(error),
            },
    {
        let unit: Unit = resolve_unit(results, unit);
        let entries: Vec<RelativeSpeedEntry<'_>> = match compute(results) {
            Some(entries) => entries,
            None => {
                return Err(ExportError::RelativeComparisonUnavailable);
            },
        };
        let kind = MarkupType::Markdown;
        proof {
            lemma_entries_are_printable(entries@, results@);
            kind.lemma_table_of_entries(entries@, results@, unit);
        }
        let table: String = kind.render(entries.as_slice(), unit);
        Ok(table.as_str().as_bytes_vec())
    }
}

/// The head of a Markdown table for durations in the unit of the given
/// name, put together without the markup functions.
pub fn test_table_header(unit_short_name: String) -> (header: String)
    ensures
        header@ == "| Command | Mean ["@ + unit_short_name@ + "] | Min ["@ + unit_short_name@
            + "] | Max ["@ + unit_short_name@ + "] | Relative |\n|:---|---:|---:|---:|---:|\n"@,
        header@ == MarkupType::Markdown.header_text(unit_short_name@),
{
    let unit: &str = unit_short_name.as_str();
    let mut header: String = String::from_str("| Command | Mean [");
    header.append(unit);
    header.append("] | Min [");
    header.append(unit);
    header.append("] | Max [");
    header.append(unit);
    header.append("] | Relative |\n");
    header.append("|:---|---:|---:|---:|---:|\n");
    proof {
        reveal_strlit("] | Relative |\n");
        reveal_strlit("|:---|---:|---:|---:|---:|\n");
        reveal_strlit("] | Relative |\n|:---|---:|---:|---:|---:|\n");
        assert("] | Relative |\n"@ + "|:---|---:|---:|---:|---:|\n"@
            =~= "] | Relative |\n|:---|---:|---:|---:|---:|\n"@);
        assert(header@ =~= "| Command | Mean ["@ + unit_short_name@ + "] | Min ["@
            + unit_short_name@ + "] | Max ["@ + unit_short_name@
            + "] | Relative |\n|:---|---:|---:|---:|---:|\n"@);
    }
    header
}

} // verus!
