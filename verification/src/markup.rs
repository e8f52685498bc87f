//! Benchmark results as a table in a markup dialect.

use crate::benchmark::BenchmarkResult;
use crate::decimal::{fixed_string, fixed_text};
use crate::relative_speed::{
    are_entries_of, relative_mean, relative_stddev, Ratio, RelativeSpeedEntry, Uncertainty,
};
use crate::units::Unit;
use vstd::prelude::*;

verus! {

/// The markup dialects in which a table can be written.
#[derive(Debug, Clone, Copy, PartialEq, Eq, Structural)]
pub enum MarkupType {
    Markdown,
}

impl MarkupType {
    /// A duration with its uncertainty, where that is known: the duration in
    /// `unit`, then ` ± ` and the uncertainty in `unit`.
    pub open spec fn time_text(self, nanos: nat, stddev: Option<nat>, unit: Unit) -> Seq<char> {
        match stddev {
            Some(deviation) => unit.format_text(nanos) + " ± "@ + unit.format_text(deviation),
            None => unit.format_text(nanos),
        }
    }

    /// A relative speed with its uncertainty: the ratio rounded to two
    /// places, then ` ± ` and the uncertainty rounded to two places. A
    /// ratio of exactly one stands alone, as does one whose uncertainty is
    /// not known.
    pub open spec fn relative_text(
        self,
        relative_mean: Ratio,
        relative_stddev: Option<Uncertainty>,
    ) -> Seq<char> {
        match relative_stddev {
            Some(uncertainty) if !relative_mean.is_one() => fixed_text(
                relative_mean.spec_hundredths(),
                2,
            ) + " ± "@ + fixed_text(uncertainty.spec_hundredths(), 2),
            _ => fixed_text(relative_mean.spec_hundredths(), 2),
        }
    }

    /// A command as inline code.
    pub open spec fn command_text(self, command: Seq<char>) -> Seq<char> {
        match self {
            MarkupType::Markdown => "`"@ + command + "`"@,
        }
    }

    /// The head of the table: the line of column titles, with the unit's
    /// name behind each title of a duration, and the line that aligns the
    /// columns.
    pub open spec fn header_text(self, unit_name: Seq<char>) -> Seq<char> {
        match self {
            MarkupType::Markdown => "| Command | Mean ["@ + unit_name + "] | Min ["@ + unit_name
                + "] | Max ["@ + unit_name + "] | Relative |\n|:---|---:|---:|---:|---:|\n"@,
        }
    }

    /// What stands before the first cell of a row.
    pub open spec fn row_start(self) -> Seq<char> {
        match self {
            MarkupType::Markdown => "| "@,
        }
    }

    /// What stands between two cells of a row.
    pub open spec fn cell_break(self) -> Seq<char> {
        match self {
            MarkupType::Markdown => " | "@,
        }
    }

    /// What stands behind the last cell of a row, the end of the line
    /// included.
    pub open spec fn row_end(self) -> Seq<char> {
        match self {
            MarkupType::Markdown => " |\n"@,
        }
    }

    /// A row of the table made of its five cells.
    pub open spec fn row_text(
        self,
        command: Seq<char>,
        mean: Seq<char>,
        min: Seq<char>,
        max: Seq<char>,
        relative: Seq<char>,
    ) -> Seq<char> {
        self.row_start() + command + self.cell_break() + mean + self.cell_break() + min
            + self.cell_break() + max + self.cell_break() + relative + self.row_end()
    }

    /// The row of a result with the given relative speed: the command, the
    /// mean with its standard deviation, the shortest and the longest run
    /// time, and the relative speed with its uncertainty.
    pub open spec fn result_row_text(
        self,
        result: BenchmarkResult,
        relative_mean: Ratio,
        relative_stddev: Option<Uncertainty>,
        unit: Unit,
    ) -> Seq<char> {
        self.row_text(
            self.command_text(result.command@),
            self.time_text(
                result.mean as nat,
                match result.stddev {
                    Some(s) => Some(s as nat),
                    None => None,
                },
                unit,
            ),
            self.time_text(result.min as nat, None, unit),
            self.time_text(result.max as nat, None, unit),
            self.relative_text(relative_mean, relative_stddev),
        )
    }

    /// The row of an entry.
    pub open spec fn entry_row_text(self, entry: RelativeSpeedEntry<'_>, unit: Unit) -> Seq<char> {
        self.result_row_text(*entry.result, entry.relative_mean, entry.relative_stddev, unit)
    }

    /// The rows of `entries`, one behind the other in the order of the
    /// entries.
    pub open spec fn rows_text(self, entries: Seq<RelativeSpeedEntry<'_>>, unit: Unit) -> Seq<char>
        decreases entries.len(),
    {
        if entries.len() == 0 {
            Seq::empty()
        } else {
            self.rows_text(entries.drop_last(), unit) + self.entry_row_text(entries.last(), unit)
        }
    }

    /// The table of `entries`: the head, then the rows.
    pub open spec fn entries_table_text(
        self,
        entries: Seq<RelativeSpeedEntry<'_>>,
        unit: Unit,
    ) -> Seq<char> {
        self.header_text(unit.short_name_text()) + self.rows_text(entries, unit)
    }

    /// The relative-speed cell of the result at `i` among `results`. It
    /// depends on no unit.
    pub open spec fn comparison_cell_text(self, results: Seq<BenchmarkResult>, i: int) -> Seq<char> {
        self.relative_text(relative_mean(results, i), relative_stddev(results, i))
    }

    /// The row of the result at `i` among `results`, which relates it to
    /// the fastest of them.
    pub open spec fn comparison_row_text(
        self,
        results: Seq<BenchmarkResult>,
        i: int,
        unit: Unit,
    ) -> Seq<char> {
        self.result_row_text(
            results[i],
            relative_mean(results, i),
            relative_stddev(results, i),
            unit,
        )
    }

    /// The rows of the results from index `from` up to, but without, index
    /// `to`, in the order of the results.
    pub open spec fn comparison_rows_text(
        self,
        results: Seq<BenchmarkResult>,
        unit: Unit,
        from: int,
        to: int,
    ) -> Seq<char>
        decreases to - from,
    {
        if to <= from {
            Seq::empty()
        } else {
            self.comparison_rows_text(results, unit, from, to - 1) + self.comparison_row_text(
                results,
                to - 1,
                unit,
            )
        }
    }

    /// The table that compares `results`: the head, then the row of each
    /// result, in the order of the results.
    pub open spec fn table_text(self, results: Seq<BenchmarkResult>, unit: Unit) -> Seq<char> {
        self.header_text(unit.short_name_text()) + self.comparison_rows_text(
            results,
            unit,
            0,
            results.len() as int,
        )
    }

    /// The rows of the first `n` entries of results are the rows of the
    /// first `n` results.
    pub proof fn lemma_rows_of_entries(
        self,
        entries: Seq<RelativeSpeedEntry<'_>>,
        results: Seq<BenchmarkResult>,
        unit: Unit,
        n: int,
    )
        requires
            0 <= n <= entries.len(),
            forall|i: int| 0 <= i < n ==> (#[trigger] entries[i]).is_entry_of(results, i),
        ensures
            self.rows_text(entries.take(n), unit) == self.comparison_rows_text(results, unit, 0, n),
        decreases n,
    {
        if n > 0 {
            self.lemma_rows_of_entries(entries, results, unit, n - 1);
            assert(entries.take(n).drop_last() =~= entries.take(n - 1));
            assert(entries.take(n).last() == entries[n - 1]);
            assert(entries[n - 1].is_entry_of(results, n - 1));
        }
    }

    /// The table of the entries of `results` is the table that compares
    /// `results`.
    pub proof fn lemma_table_of_entries(
        self,
        entries: Seq<RelativeSpeedEntry<'_>>,
        results: Seq<BenchmarkResult>,
        unit: Unit,
    )
        requires
            are_entries_of(entries, results),
        ensures
            self.entries_table_text(entries, unit) == self.table_text(results, unit),
    {
        self.lemma_rows_of_entries(entries, results, unit, entries.len() as int);
        assert(entries.take(entries.len() as int) =~= entries);
    }

    /// Rows that follow one another can be cut at any index between them.
    pub proof fn lemma_rows_split(
        self,
        results: Seq<BenchmarkResult>,
        unit: Unit,
        from: int,
        mid: int,
        to: int,
    )
        requires
            from <= mid <= to,
        ensures
            self.comparison_rows_text(results, unit, from, to) == self.comparison_rows_text(
                results,
                unit,
                from,
                mid,
            ) + self.comparison_rows_text(results, unit, mid, to),
        decreases to - mid,
    {
        if mid < to {
            self.lemma_rows_split(results, unit, from, mid, to - 1);
        }
        assert(self.comparison_rows_text(results, unit, from, to) =~= self.comparison_rows_text(
            results,
            unit,
            from,
            mid,
        ) + self.comparison_rows_text(results, unit, mid, to));
    }

    /// The rows of a table stand in the order of the results, whichever of
    /// them is the fastest: behind the head come the rows of the results
    /// before the one at `i`, then its own row, then the rows of those
    /// after it.
    pub proof fn lemma_rows_keep_order(self, results: Seq<BenchmarkResult>, unit: Unit, i: int)
        requires
            0 <= i < results.len(),
        ensures
            self.table_text(results, unit) == self.header_text(unit.short_name_text())
                + self.comparison_rows_text(results, unit, 0, i) + self.comparison_row_text(
                results,
                i,
                unit,
            ) + self.comparison_rows_text(results, unit, i + 1, results.len() as int),
    {
        let n = results.len() as int;
        self.lemma_rows_split(results, unit, 0, i + 1, n);
        assert(self.comparison_rows_text(results, unit, 0, i + 1) == self.comparison_rows_text(
            results,
            unit,
            0,
            i,
        ) + self.comparison_row_text(results, i, unit));
        assert(self.table_text(results, unit) =~= self.header_text(unit.short_name_text())
            + self.comparison_rows_text(results, unit, 0, i) + self.comparison_row_text(
            results,
            i,
            unit,
        ) + self.comparison_rows_text(results, unit, i + 1, n));
    }

    /// A relative speed of exactly one is written as `1.00` and nothing
    /// more, whether its uncertainty is known or not.
    pub proof fn lemma_one_stands_alone(
        self,
        relative_mean: Ratio,
        relative_stddev: Option<Uncertainty>,
    )
        requires
            relative_mean.is_defined(),
            relative_mean.is_one(),
        ensures
            self.relative_text(relative_mean, relative_stddev) == "1.00"@,
    {
        relative_mean.lemma_one_is_hundred();
        reveal_strlit("1.00");
        reveal_with_fuel(crate::decimal::whole_part, 3);
        reveal_with_fuel(crate::decimal::fraction_text, 3);
        assert(fixed_text(100, 2) =~= "1.00"@);
    }

    /// The unit of the durations leaves the relative speeds as they are: in
    /// whichever of two units a table is written, the row of a result ends
    /// with the same relative-speed cell.
    pub proof fn lemma_unit_leaves_relative_speed(
        self,
        results: Seq<BenchmarkResult>,
        i: int,
        first: Unit,
        second: Unit,
    )
        requires
            0 <= i < results.len(),
        ensures
            (self.cell_break() + self.comparison_cell_text(results, i) + self.row_end()).is_suffix_of(
                self.comparison_row_text(results, i, first),
            ),
            (self.cell_break() + self.comparison_cell_text(results, i) + self.row_end()).is_suffix_of(
                self.comparison_row_text(results, i, second),
            ),
    {
        self.lemma_row_ends_with_relative_speed(results, i, first);
        self.lemma_row_ends_with_relative_speed(results, i, second);
    }

    /// A row ends with its relative-speed cell between a cell break and the
    /// end of the row.
    proof fn lemma_row_ends_with_relative_speed(
        self,
        results: Seq<BenchmarkResult>,
        i: int,
        unit: Unit,
    )
        ensures
            (self.cell_break() + self.comparison_cell_text(results, i) + self.row_end()).is_suffix_of(
                self.comparison_row_text(results, i, unit),
            ),
    {
        let tail = self.cell_break() + self.comparison_cell_text(results, i) + self.row_end();
        let row = self.comparison_row_text(results, i, unit);
        assert(row.subrange(row.len() - tail.len(), row.len() as int) =~= tail);
    }

    /// Formats a duration of `value` nanoseconds in `unit`, followed by its
    /// standard deviation where that is given.
    pub fn format_time(&self, value: u64, stddev: Option<u64>, unit: Unit) -> (text: String)
        ensures
            text@ == self.time_text(
                value as nat,
                match stddev {
                    Some(s) => Some(s as nat),
                    None => None,
                },
                unit,
            ),
    {
        let mut text: String = unit.format(value);
        match stddev {
            Some(deviation) => {
                text.append(" ± ");
                text.append(unit.format(deviation).as_str());
            },
            None => {},
        }
        text
    }

    /// Formats a relative speed to two places, followed by its uncertainty
    /// where that is given and the speed is not exactly one.
    pub fn format_relative(&self, relative_mean: Ratio, relative_stddev: Option<Uncertainty>) -> (text:
        String)
        requires
            relative_mean.is_defined(),
            relative_stddev matches Some(uncertainty) ==> uncertainty.is_defined()
                && uncertainty.is_roundable(),
        ensures
            text@ == self.relative_text(relative_mean, relative_stddev),
    {
        let mut text: String = fixed_string(relative_mean.hundredths(), 2);
        match relative_stddev {
            Some(uncertainty) => {
                if !relative_mean.equals_one() {
                    text.append(" ± ");
                    text.append(fixed_string(uncertainty.hundredths(), 2).as_str());
                }
            },
            None => {},
        }
        text
    }

    /// Formats a command as inline code.
    pub fn format_command(&self, command: &str) -> (text: String)
        ensures
            text@ == self.command_text(command@),
    {
        match self {
            MarkupType::Markdown => {
                let mut text: String = String::from_str("`");
                text.append(command);
                text.append("`");
                text
            },
        }
    }

    /// Writes the head of the table for durations in the unit of the given
    /// name.
    pub fn table_header(&self, unit_short_name: &str) -> (text: String)
        ensures
            text@ == self.header_text(unit_short_name@),
    {
        match self {
            MarkupType::Markdown => {
                let mut text: String = String::from_str("| Command | Mean [");
                text.append(unit_short_name);
                text.append("] | Min [");
                text.append(unit_short_name);
                text.append("] | Max [");
                text.append(unit_short_name);
                text.append("] | Relative |\n|:---|---:|---:|---:|---:|\n");
                text
            },
        }
    }

    /// Writes a row of the table from its five cells.
    pub fn table_row(&self, command: &str, mean: &str, min: &str, max: &str, relative: &str) -> (text:
        String)
        ensures
            text@ == self.row_text(command@, mean@, min@, max@, relative@),
    {
        match self {
            MarkupType::Markdown => {
                let mut text: String = String::from_str("| ");
                text.append(command);
                text.append(" | ");
                text.append(mean);
                text.append(" | ");
                text.append(min);
                text.append(" | ");
                text.append(max);
                text.append(" | ");
                text.append(relative);
                text.append(" |\n");
                text
            },
        }
    }

    /// Writes the row of an entry with its durations in `unit`.
    pub fn entry_row(&self, entry: &RelativeSpeedEntry<'_>, unit: Unit) -> (text: String)
        requires
            entry.is_printable(),
        ensures
            text@ == self.entry_row_text(*entry, unit),
    {
        let command: String = self.format_command(entry.result.command.as_str());
        let mean: String = self.format_time(entry.result.mean, entry.result.stddev, unit);
        let min: String = self.format_time(entry.result.min, None, unit);
        let max: String = self.format_time(entry.result.max, None, unit);
        let relative: String = self.format_relative(entry.relative_mean, entry.relative_stddev);
        self.table_row(
            command.as_str(),
            mean.as_str(),
            min.as_str(),
            max.as_str(),
            relative.as_str(),
        )
    }

    /// Renders the table of `entries` with every duration in `unit`: the
    /// head, then one row for each entry, in the order of the entries.
    pub fn render(&self, entries: &[RelativeSpeedEntry<'_>], unit: Unit) -> (text: String)
        requires
            forall|i: int| 0 <= i < entries@.len() ==> (#[trigger] entries@[i]).is_printable(),
        ensures
            text@ == self.entries_table_text(entries@, unit),
    {
        let mut text: String = self.table_header(unit.short_name().as_str());
        let ghost head: Seq<char> = text@;
        let mut i: usize = 0;
        assert(entries@.take(0) =~= Seq::empty());
        while i < entries.len()
            invariant
                i <= entries@.len(),
                head == self.header_text(unit.short_name_text()),
                text@ == head + self.rows_text(entries@.take(i as int), unit),
                forall|i: int| 0 <= i < entries@.len() ==> (#[trigger] entries@[i]).is_printable(),
            decreases entries@.len() - i,
        {
            let row: String = self.entry_row(&entries[i], unit);
            text.append(row.as_str());
            proof {
                let next = entries@.take(i as int + 1);
                assert(next.drop_last() =~= entries@.take(i as int));
                assert(next.last() == entries@[i as int]);
                assert(text@ =~= head + self.rows_text(next, unit));
            }
            i = i + 1;
        }
        assert(entries@.take(i as int) =~= entries@);
        text
    }
}

} // verus!
