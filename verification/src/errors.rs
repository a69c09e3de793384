//! The error taxonomy of the extractors.
//!
//! `PatternNotMatched` says the text lacks the structural shape an extractor
//! requires; `MalformedNumber` says a matched substring failed numeric
//! coercion and names the field; `UnknownDistribution` says the
//! key-distribution label is outside the known enumeration and carries the
//! offending word.  No extractor recovers from any of these: a malformed
//! report always surfaces as an explicit failure, never as a partially
//! populated record.

use vstd::prelude::*;

verus! {

/// The labeled fields of a report, named so a malformed numeral can say
/// where it stood.
#[derive(Debug, PartialEq, Eq, Clone, Copy)]
pub enum Field {
    Records,
    Operations,
    Threads,
    Sampling,
    Latency,
    KeySize,
    ValueSize,
    RandomSeed,
    Read,
    Insert,
    Update,
    Delete,
    Scan,
    LoadTime,
    RunTime,
    Throughput,
    L3Misses,
    DramReads,
    DramWrites,
    NvmReads,
    NvmWrites,
    LatencyMin,
    LatencyP50,
    LatencyP90,
    LatencyP99,
    LatencyP999,
    LatencyP9999,
    LatencyP99999,
    LatencyMax,
}

/// Why an extraction failed.
#[derive(Debug, PartialEq, Eq)]
pub enum ParseError {
    /// The text lacks the structural shape the extractor requires.
    PatternNotMatched,
    /// A matched substring could not be coerced to the named field's
    /// numeric type.
    MalformedNumber(Field),
    /// The key-distribution word is outside the known enumeration.
    UnknownDistribution(String),
}

/// The mathematical form of a [`ParseError`]: the offending distribution
/// word as a character sequence.
pub enum ErrV {
    PatternNotMatched,
    MalformedNumber(Field),
    UnknownDistribution(Seq<char>),
}

impl View for ParseError {
    type V = ErrV;

    open spec fn view(&self) -> ErrV {
        match self {
            ParseError::PatternNotMatched => ErrV::PatternNotMatched,
            ParseError::MalformedNumber(f) => ErrV::MalformedNumber(*f),
            ParseError::UnknownDistribution(w) => ErrV::UnknownDistribution(w@),
        }
    }
}

/// An extraction outcome with its error taken to mathematical form.
pub open spec fn res_view<T>(r: Result<T, ParseError>) -> Result<T, ErrV> {
    match r {
        Ok(v) => Ok(v),
        Err(e) => Err(e@),
    }
}

/// The [`ParseError`] denoting `e`, for the variants that carry no text.
pub fn err_of(e: ErrV) -> (r: ParseError)
    requires
        !(e is UnknownDistribution),
    ensures
        r@ == e,
{
    match e {
        ErrV::PatternNotMatched => ParseError::PatternNotMatched,
        ErrV::MalformedNumber(f) => ParseError::MalformedNumber(f),
        ErrV::UnknownDistribution(_) => ParseError::PatternNotMatched,
    }
}

} // verus!
