//! The results extractor.
//!
//! The results block holds a mandatory trio of timings and throughput, then
//! hardware-counter lines that a platform without the instrumentation omits
//! altogether, then the optional tail-latency block.  An omitted counter is
//! kept as the explicit absent state: reporting nothing is not the same as
//! reporting zero bytes.

use vstd::prelude::*;
use crate::decimal::Decimal;
use crate::errors::{err_of, res_view, ErrV, Field, ParseError};
use crate::fields::{field_sci_unit, field_u64_opt, read_sci_unit, read_u64_opt};
use crate::latency::{spec_latency, LatencyResults};
use crate::scan::{chars_of, contains_pat, lemma_no_occurrence};

verus! {

/// The outcome of one benchmark run: timings and throughput as exact
/// decimals, the hardware counters that the host platform reported, and the
/// tail-latency summary when sampling was enabled.
#[derive(Debug, PartialEq, Eq, Clone, Copy)]
pub struct BenchmarkResults {
    pub load_time: Decimal,
    pub run_time: Decimal,
    pub throughput: Decimal,
    pub l3_misses: Option<u64>,
    pub dram_reads: Option<u64>,
    pub dram_writes: Option<u64>,
    pub nvm_reads: Option<u64>,
    pub nvm_writes: Option<u64>,
    pub latency: Option<LatencyResults>,
}

/// The results block of `t`: the mandatory `Load time` / `Run time` /
/// `Throughput` trio in order, each with its unit; then the five counter
/// lines, each individually optional, sought after the trio; then the
/// optional tail-latency block.  A missing mandatory line is a shape
/// failure; a numeral out of range is malformed and names its field.
pub open spec fn spec_results(t: Seq<char>) -> Result<BenchmarkResults, ErrV> {
    match field_sci_unit(t, 0, "Load time: "@, " milliseconds"@, Field::LoadTime) {
        Err(e) => Err(e),
        Ok((load_time, p1)) => match field_sci_unit(
            t,
            p1,
            "Run time: "@,
            " milliseconds"@,
            Field::RunTime,
        ) {
            Err(e) => Err(e),
            Ok((run_time, p2)) => match field_sci_unit(
                t,
                p2,
                "Throughput: "@,
                " ops/s"@,
                Field::Throughput,
            ) {
                Err(e) => Err(e),
                Ok((throughput, p3)) => match field_u64_opt(
                    t,
                    p3,
                    "L3 misses: "@,
                    Field::L3Misses,
                ) {
                    Err(e) => Err(e),
                    Ok(l3_misses) => match field_u64_opt(
                        t,
                        p3,
                        "DRAM Reads (bytes): "@,
                        Field::DramReads,
                    ) {
                        Err(e) => Err(e),
                        Ok(dram_reads) => match field_u64_opt(
                            t,
                            p3,
                            "DRAM Writes (bytes): "@,
                            Field::DramWrites,
                        ) {
                            Err(e) => Err(e),
                            Ok(dram_writes) => match field_u64_opt(
                                t,
                                p3,
                                "NVM Reads (bytes): "@,
                                Field::NvmReads,
                            ) {
                                Err(e) => Err(e),
                                Ok(nvm_reads) => match field_u64_opt(
                                    t,
                                    p3,
                                    "NVM Writes (bytes): "@,
                                    Field::NvmWrites,
                                ) {
                                    Err(e) => Err(e),
                                    Ok(nvm_writes) => match spec_latency(t) {
                                        Err(e) => Err(e),
                                        Ok(latency) => Ok(
                                            BenchmarkResults {
                                                load_time,
                                                run_time,
                                                throughput,
                                                l3_misses,
                                                dram_reads,
                                                dram_writes,
                                                nvm_reads,
                                                nvm_writes,
                                                latency,
                                            },
                                        ),
                                    },
                                },
                            },
                        },
                    },
                },
            },
        },
    }
}

impl BenchmarkResults {
    /// Locates and parses the results block of `text` as [`spec_results`]
    /// describes.
    pub fn from_text(text: &str) -> (r: Result<BenchmarkResults, ParseError>)
        ensures
            res_view(r) == spec_results(text@),
    {
        let t = chars_of(text);
        let (load_time, p1) = match read_sci_unit(
            &t,
            0,
            "Load time: ",
            " milliseconds",
            Field::LoadTime,
        ) {
            Err(e) => {
                return Err(err_of(e));
            },
            Ok(v) => v,
        };
        let (run_time, p2) = match read_sci_unit(
            &t,
            p1,
            "Run time: ",
            " milliseconds",
            Field::RunTime,
        ) {
            Err(e) => {
                return Err(err_of(e));
            },
            Ok(v) => v,
        };
        let (throughput, p3) = match read_sci_unit(
            &t,
            p2,
            "Throughput: ",
            " ops/s",
            Field::Throughput,
        ) {
            Err(e) => {
                return Err(err_of(e));
            },
            Ok(v) => v,
        };
        let l3_misses = match read_u64_opt(&t, p3, "L3 misses: ", Field::L3Misses) {
            Err(e) => {
                return Err(err_of(e));
            },
            Ok(v) => v,
        };
        let dram_reads = match read_u64_opt(&t, p3, "DRAM Reads (bytes): ", Field::DramReads) {
            Err(e) => {
                return Err(err_of(e));
            },
            Ok(v) => v,
        };
        let dram_writes = match read_u64_opt(&t, p3, "DRAM Writes (bytes): ", Field::DramWrites) {
            Err(e) => {
                return Err(err_of(e));
            },
            Ok(v) => v,
        };
        let nvm_reads = match read_u64_opt(&t, p3, "NVM Reads (bytes): ", Field::NvmReads) {
            Err(e) => {
                return Err(err_of(e));
            },
            Ok(v) => v,
        };
        let nvm_writes = match read_u64_opt(&t, p3, "NVM Writes (bytes): ", Field::NvmWrites) {
            Err(e) => {
                return Err(err_of(e));
            },
            Ok(v) => v,
        };
        let latency = match LatencyResults::from_text(text) {
            Err(e) => {
                return Err(e);
            },
            Ok(v) => v,
        };
        Ok(
            BenchmarkResults {
                load_time,
                run_time,
                throughput,
                l3_misses,
                dram_reads,
                dram_writes,
                nvm_reads,
                nvm_writes,
                latency,
            },
        )
    }
}

/// A text without a `Throughput` line never yields a record — no default
/// throughput of zero stands in — and the failure is the structural one,
/// except where the load-time or run-time numeral was itself malformed.
pub proof fn lemma_missing_throughput(t: Seq<char>)
    requires
        !contains_pat(t, "Throughput: "@),
    ensures
        spec_results(t) is Err,
        match spec_results(t) {
            Err(ErrV::PatternNotMatched) => true,
            Err(ErrV::MalformedNumber(f)) => f == Field::LoadTime || f == Field::RunTime,
            _ => false,
        },
{
    let r1 = field_sci_unit(t, 0, "Load time: "@, " milliseconds"@, Field::LoadTime);
    if r1 is Ok {
        let p1 = r1->Ok_0.1;
        let r2 = field_sci_unit(t, p1, "Run time: "@, " milliseconds"@, Field::RunTime);
        if r2 is Ok {
            let p2 = r2->Ok_0.1;
            lemma_no_occurrence(t, "Throughput: "@, p2);
        }
    }
}

} // verus!
