//! The tail-latency extractor.
//!
//! A report optionally carries a block opened by a `Latencies` header and
//! followed by eight labeled percentile bounds.  Absence of the header is a
//! normal outcome, not an error; a header whose block is truncated or holds
//! a malformed numeral is an explicit failure.

use vstd::prelude::*;
use crate::errors::{err_of, res_view, ErrV, Field, ParseError};
use crate::fields::{field_i32, read_i32};
use crate::scan::{chars_of, contains_pat, find_from, find_in, lemma_no_occurrence};

verus! {

/// A tail-latency histogram summary: percentile cutoffs in the report's
/// time unit, in file order from the minimum to the maximum.
#[derive(Debug, PartialEq, Eq, Clone, Copy)]
pub struct LatencyResults {
    pub min: i32,
    pub p_50: i32,
    pub p_90: i32,
    pub p_99: i32,
    pub p_99_9: i32,
    pub p_99_99: i32,
    pub p_99_999: i32,
    pub max: i32,
}

/// The tail-latency block of `t`: `Ok(None)` when no `Latencies` header
/// occurs; the eight labeled bounds, in order, after the first header
/// otherwise.  A missing label is a shape failure; a numeral past `i32` is
/// malformed and names its percentile.
pub open spec fn spec_latency(t: Seq<char>) -> Result<Option<LatencyResults>, ErrV> {
    match find_from(t, "Latencies"@, 0) {
        None => Ok(None),
        Some(h) => {
            let p0 = h + "Latencies"@.len();
            match field_i32(t, p0, "min: "@, Field::LatencyMin) {
                Err(e) => Err(e),
                Ok((min, p1)) => match field_i32(t, p1, "50%: "@, Field::LatencyP50) {
                    Err(e) => Err(e),
                    Ok((p_50, p2)) => match field_i32(t, p2, "90%: "@, Field::LatencyP90) {
                        Err(e) => Err(e),
                        Ok((p_90, p3)) => match field_i32(t, p3, "99%: "@, Field::LatencyP99) {
                            Err(e) => Err(e),
                            Ok((p_99, p4)) => match field_i32(
                                t,
                                p4,
                                "99.9%: "@,
                                Field::LatencyP999,
                            ) {
                                Err(e) => Err(e),
                                Ok((p_99_9, p5)) => match field_i32(
                                    t,
                                    p5,
                                    "99.99%: "@,
                                    Field::LatencyP9999,
                                ) {
                                    Err(e) => Err(e),
                                    Ok((p_99_99, p6)) => match field_i32(
                                        t,
                                        p6,
                                        "99.999%: "@,
                                        Field::LatencyP99999,
                                    ) {
                                        Err(e) => Err(e),
                                        Ok((p_99_999, p7)) => match field_i32(
                                            t,
                                            p7,
                                            "max: "@,
                                            Field::LatencyMax,
                                        ) {
                                            Err(e) => Err(e),
                                            Ok((max, _)) => Ok(
                                                Some(
                                                    LatencyResults {
                                                        min,
                                                        p_50,
                                                        p_90,
                                                        p_99,
                                                        p_99_9,
                                                        p_99_99,
                                                        p_99_999,
                                                        max,
                                                    },
                                                ),
                                            ),
                                        },
                                    },
                                },
                            },
                        },
                    },
                },
            }
        },
    }
}

impl LatencyResults {
    /// Locates and parses the tail-latency block of `text` as
    /// [`spec_latency`] describes.
    pub fn from_text(text: &str) -> (r: Result<Option<LatencyResults>, ParseError>)
        ensures
            res_view(r) == spec_latency(text@),
    {
        let t = chars_of(text);
        let h = match find_in(&t, "Latencies", 0) {
            None => {
                return Ok(None);
            },
            Some(h) => h,
        };
        proof {
            crate::scan::lemma_find_from_found(t@, "Latencies"@, 0, h as int);
        }
        let hl = "Latencies".unicode_len();
        let p0 = h + hl;
        let (min, p1) = match read_i32(&t, p0, "min: ", Field::LatencyMin) {
            Err(e) => {
                return Err(err_of(e));
            },
            Ok(v) => v,
        };
        let (p_50, p2) = match read_i32(&t, p1, "50%: ", Field::LatencyP50) {
            Err(e) => {
                return Err(err_of(e));
            },
            Ok(v) => v,
        };
        let (p_90, p3) = match read_i32(&t, p2, "90%: ", Field::LatencyP90) {
            Err(e) => {
                return Err(err_of(e));
            },
            Ok(v) => v,
        };
        let (p_99, p4) = match read_i32(&t, p3, "99%: ", Field::LatencyP99) {
            Err(e) => {
                return Err(err_of(e));
            },
            Ok(v) => v,
        };
        let (p_99_9, p5) = match read_i32(&t, p4, "99.9%: ", Field::LatencyP999) {
            Err(e) => {
                return Err(err_of(e));
            },
            Ok(v) => v,
        };
        let (p_99_99, p6) = match read_i32(&t, p5, "99.99%: ", Field::LatencyP9999) {
            Err(e) => {
                return Err(err_of(e));
            },
            Ok(v) => v,
        };
        let (p_99_999, p7) = match read_i32(&t, p6, "99.999%: ", Field::LatencyP99999) {
            Err(e) => {
                return Err(err_of(e));
            },
            Ok(v) => v,
        };
        let (max, _p8) = match read_i32(&t, p7, "max: ", Field::LatencyMax) {
            Err(e) => {
                return Err(err_of(e));
            },
            Ok(v) => v,
        };
        Ok(Some(LatencyResults { min, p_50, p_90, p_99, p_99_9, p_99_99, p_99_999, max }))
    }

    /// True when the eight bounds are non-decreasing in file order.  The
    /// extractor itself does not enforce this: a block out of order still
    /// parses, and this validator flags it.
    pub open spec fn monotonic(self) -> bool {
        self.min <= self.p_50 <= self.p_90 <= self.p_99 <= self.p_99_9 <= self.p_99_99
            <= self.p_99_999 <= self.max
    }

    /// Whether the eight bounds are non-decreasing in file order.
    pub fn is_monotonic(&self) -> (b: bool)
        ensures
            b == self.monotonic(),
    {
        self.min <= self.p_50 && self.p_50 <= self.p_90 && self.p_90 <= self.p_99 && self.p_99
            <= self.p_99_9 && self.p_99_9 <= self.p_99_99 && self.p_99_99 <= self.p_99_999
            && self.p_99_999 <= self.max
    }
}

/// A text without a `Latencies` header anywhere yields the explicit absent
/// state, never an error.
pub proof fn lemma_no_header_is_absent(t: Seq<char>)
    requires
        !contains_pat(t, "Latencies"@),
    ensures
        spec_latency(t) == Ok::<Option<LatencyResults>, ErrV>(None),
{
    lemma_no_occurrence(t, "Latencies"@, 0);
}

} // verus!
