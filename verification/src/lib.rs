//! Extraction of structured records from plain-text benchmark reports.
//!
//! A report produced by a key-value-store benchmarking harness is a loosely
//! formatted block of text holding a configuration section, a results
//! section, and an optional tail-latency section.  This crate recognizes
//! those sections, coerces the labeled values into typed fields, and either
//! yields fully populated records or fails with an explicit error; it never
//! produces a partially filled record.

use vstd::prelude::*;

mod decimal;
mod errors;
mod fields;
mod latency;
mod num;
mod options;
mod results;
mod scan;

pub use decimal::Decimal;
pub use errors::{res_view, ErrV, Field, ParseError};
pub use latency::{lemma_no_header_is_absent, spec_latency, LatencyResults};
pub use num::NumErr;
pub use options::{
    dist_of_word, fmt_options, format_options, lemma_options_round_trip, spec_options,
    word_of_dist, BenchmarkOptions, KeyDistribution,
};
pub use results::{lemma_missing_throughput, spec_results, BenchmarkResults};
pub use scan::contains_pat;

verus! {

/// One fully parsed benchmark report: its configuration and its results,
/// owned by value.
#[derive(Debug, PartialEq, Eq, Clone, Copy)]
pub struct PiBenchData {
    pub benchmark_options: BenchmarkOptions,
    pub benchmark_results: BenchmarkResults,
}

/// The whole report: the configuration block and the results block of the
/// same text, combined; whichever extractor fails first decides the error,
/// and no partial report is ever produced.
pub open spec fn spec_report(t: Seq<char>) -> Result<PiBenchData, ErrV> {
    match spec_options(t) {
        Err(e) => Err(e),
        Ok(benchmark_options) => match spec_results(t) {
            Err(e) => Err(e),
            Ok(benchmark_results) => Ok(PiBenchData { benchmark_options, benchmark_results }),
        },
    }
}

/// Parses one complete report text as [`spec_report`] describes.  The
/// operation is pure: the same text always yields the same outcome.
pub fn parse(input: &str) -> (r: Result<PiBenchData, ParseError>)
    ensures
        res_view(r) == spec_report(input@),
{
    let benchmark_options = match BenchmarkOptions::from_text(input) {
        Err(e) => {
            return Err(e);
        },
        Ok(o) => o,
    };
    let benchmark_results = match BenchmarkResults::from_text(input) {
        Err(e) => {
            return Err(e);
        },
        Ok(r) => r,
    };
    Ok(PiBenchData { benchmark_options, benchmark_results })
}

} // verus!
