//! Relative-speed comparison of benchmark results and its rendering as a
//! markup table.
//!
//! The results of a run of benchmarks, one for each command, come in as
//! [`benchmark::BenchmarkResult`]s, with every duration a whole number of
//! nanoseconds. [`relative_speed::compute`] relates each of them to the
//! fastest: the ratio of the means, kept exactly, and with it the
//! uncertainty that the standard deviations of both means give to that
//! ratio. [`units::resolve_unit`] decides the one unit in which the
//! durations are displayed, [`markup::MarkupType`] writes durations, ratios,
//! rows and the whole table in a markup dialect, and
//! [`markdown::MarkdownExporter`] puts these together and hands out the
//! bytes of a Markdown table.
//!
//! Nothing here computes with floating-point numbers. What is displayed is
//! rounded from exact values ([`rounding`]), and the square root in the
//! uncertainty is taken of a sum of squares of up to 256 bits ([`wide`]).

pub mod benchmark;
pub mod decimal;
pub mod markdown;
pub mod markup;
pub mod relative_speed;
pub mod rounding;
pub mod units;
pub mod wide;
