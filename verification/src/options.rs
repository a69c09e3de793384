//! The configuration extractor.
//!
//! The configuration block lists, in a fixed order, the parameters a
//! benchmark run was invoked with.  Labels may be separated by arbitrary
//! interleaved text — unrecognized lines such as a target path or a scan
//! size fall into the gaps — but each value must immediately follow its own
//! label.  The extractor fails closed: it either fills every field or
//! reports an error, never a partial record.

use vstd::prelude::*;
use crate::decimal::{render_dec, Decimal};
use crate::errors::{err_of, res_view, ErrV, Field, ParseError};
use crate::fields::{
    field_i32, field_i32_unit, field_simple, field_word, lemma_field_i32_piece,
    lemma_field_i32_unit_piece, lemma_field_simple_piece, lemma_field_word_piece,
    lemma_suffix_step, piece_i32, piece_i32_unit, piece_simple, piece_word, read_i32,
    read_i32_unit, read_simple, read_word, string_of,
};
use crate::num::render_u64;
use crate::scan::chars_of;

verus! {

/// The statistical pattern used to pick keys during the benchmark workload.
#[derive(Debug, PartialEq, Eq, Clone, Copy)]
pub enum KeyDistribution {
    UNIFORM,
    ZIPFIAN,
}

/// The configuration a benchmark run was executed with.  All fields are
/// set at extraction and never mutated.  The five workload proportions are
/// meant to sum to one, but the report may round, so the extractor keeps
/// what the text says rather than enforcing the sum.
#[derive(Debug, PartialEq, Eq, Clone, Copy)]
pub struct BenchmarkOptions {
    pub sampling: i32,
    pub latency: Decimal,
    pub key_size: i32,
    pub value_size: i32,
    pub random_seed: i32,
    pub read: Decimal,
    pub insert: Decimal,
    pub update: Decimal,
    pub delete: Decimal,
    pub scan: Decimal,
    pub key_distribution: KeyDistribution,
    pub records: i32,
    pub operations: i32,
    pub threads: i32,
}

impl BenchmarkOptions {
    /// True when each of the five workload proportions lies in `[0, 1]`.
    pub open spec fn proportions_valid(self) -> bool {
        &&& self.read.unit_proportion()
        &&& self.insert.unit_proportion()
        &&& self.update.unit_proportion()
        &&& self.delete.unit_proportion()
        &&& self.scan.unit_proportion()
    }

    /// Whether each of the five workload proportions lies in `[0, 1]`.  The
    /// extractor keeps what the text says; this validator flags a block
    /// whose proportions leave the unit interval.
    pub fn check_proportions(&self) -> (b: bool)
        ensures
            b == self.proportions_valid(),
    {
        self.read.is_unit_proportion() && self.insert.is_unit_proportion()
            && self.update.is_unit_proportion() && self.delete.is_unit_proportion()
            && self.scan.is_unit_proportion()
    }
}

/// The distribution a key-distribution word denotes; any word outside the
/// known enumeration is an explicit failure carrying that word.
pub open spec fn dist_of_word(w: Seq<char>) -> Result<KeyDistribution, ErrV> {
    if w == "UNIFORM"@ {
        Ok(KeyDistribution::UNIFORM)
    } else if w == "ZIPFIAN"@ {
        Ok(KeyDistribution::ZIPFIAN)
    } else {
        Err(ErrV::UnknownDistribution(w))
    }
}

/// The word a distribution is written as.
pub open spec fn word_of_dist(k: KeyDistribution) -> Seq<char> {
    match k {
        KeyDistribution::UNIFORM => "UNIFORM"@,
        KeyDistribution::ZIPFIAN => "ZIPFIAN"@,
    }
}

/// The configuration block of `t`: the fourteen labeled fields in their
/// fixed order, integers as `i32`, proportions and the latency threshold as
/// loose decimals, the sampling interval with its `ms` unit, and the
/// key-distribution word mapped through [`dist_of_word`].
pub open spec fn spec_options(t: Seq<char>) -> Result<BenchmarkOptions, ErrV> {
    match field_i32(t, 0, "# Records: "@, Field::Records) {
        Err(e) => Err(e),
        Ok((records, p1)) => match field_i32(t, p1, "# Operations: "@, Field::Operations) {
            Err(e) => Err(e),
            Ok((operations, p2)) => match field_i32(t, p2, "# Threads: "@, Field::Threads) {
                Err(e) => Err(e),
                Ok((threads, p3)) => match field_i32_unit(
                    t,
                    p3,
                    "Sampling: "@,
                    " ms"@,
                    Field::Sampling,
                ) {
                    Err(e) => Err(e),
                    Ok((sampling, p4)) => match field_simple(t, p4, "Latency: "@, Field::Latency) {
                        Err(e) => Err(e),
                        Ok((latency, p5)) => match field_i32(t, p5, "Key size: "@, Field::KeySize) {
                            Err(e) => Err(e),
                            Ok((key_size, p6)) => match field_i32(
                                t,
                                p6,
                                "Value size: "@,
                                Field::ValueSize,
                            ) {
                                Err(e) => Err(e),
                                Ok((value_size, p7)) => match field_i32(
                                    t,
                                    p7,
                                    "Random seed: "@,
                                    Field::RandomSeed,
                                ) {
                                    Err(e) => Err(e),
                                    Ok((random_seed, p8)) => match field_word(
                                        t,
                                        p8,
                                        "Key distribution: "@,
                                    ) {
                                        Err(e) => Err(e),
                                        Ok((w, p9)) => match dist_of_word(w) {
                                            Err(e) => Err(e),
                                            Ok(key_distribution) => match field_simple(
                                                t,
                                                p9,
                                                "Read: "@,
                                                Field::Read,
                                            ) {
                                                Err(e) => Err(e),
                                                Ok((read, p10)) => match field_simple(
                                                    t,
                                                    p10,
                                                    "Insert: "@,
                                                    Field::Insert,
                                                ) {
                                                    Err(e) => Err(e),
                                                    Ok((insert, p11)) => match field_simple(
                                                        t,
                                                        p11,
                                                        "Update: "@,
                                                        Field::Update,
                                                    ) {
                                                        Err(e) => Err(e),
                                                        Ok((update, p12)) => match field_simple(
                                                            t,
                                                            p12,
                                                            "Delete: "@,
                                                            Field::Delete,
                                                        ) {
                                                            Err(e) => Err(e),
                                                            Ok((delete, p13)) => match field_simple(
                                                                t,
                                                                p13,
                                                                "Scan: "@,
                                                                Field::Scan,
                                                            ) {
                                                                Err(e) => Err(e),
                                                                Ok((scan, _)) => Ok(
                                                                    BenchmarkOptions {
                                                                        sampling,
                                                                        latency,
                                                                        key_size,
                                                                        value_size,
                                                                        random_seed,
                                                                        read,
                                                                        insert,
                                                                        update,
                                                                        delete,
                                                                        scan,
                                                                        key_distribution,
                                                                        records,
                                                                        operations,
                                                                        threads,
                                                                    },
                                                                ),
                                                            },
                                                        },
                                                    },
                                                },
                                            },
                                        },
                                    },
                                },
                            },
                        },
                    },
                },
            },
        },
    }
}

/// Whether the characters of `w` are exactly those of `s`.
fn chars_eq(w: &Vec<char>, s: &str) -> (b: bool)
    ensures
        b == (w@ == s@),
{
    let m = s.unicode_len();
    if w.len() != m {
        proof {
            if w@ == s@ {
                assert(w@.len() == s@.len());
            }
        }
        return false;
    }
    let mut k: usize = 0;
    while k < m
        invariant
            m == s@.len() == w@.len(),
            k <= m,
            forall|j: int| 0 <= j < k ==> w@[j] == s@[j],
        decreases m - k,
    {
        if w[k] != s.get_char(k) {
            return false;
        }
        k = k + 1;
    }
    proof {
        assert(w@ =~= s@);
    }
    true
}

impl BenchmarkOptions {
    /// Locates and parses the configuration block of `text` as
    /// [`spec_options`] describes.
    pub fn from_text(text: &str) -> (r: Result<BenchmarkOptions, ParseError>)
        ensures
            res_view(r) == spec_options(text@),
    {
        let t = chars_of(text);
        let (records, p1) = match read_i32(&t, 0, "# Records: ", Field::Records) {
            Err(e) => {
                return Err(err_of(e));
            },
            Ok(v) => v,
        };
        let (operations, p2) = match read_i32(&t, p1, "# Operations: ", Field::Operations) {
            Err(e) => {
                return Err(err_of(e));
            },
            Ok(v) => v,
        };
        let (threads, p3) = match read_i32(&t, p2, "# Threads: ", Field::Threads) {
            Err(e) => {
                return Err(err_of(e));
            },
            Ok(v) => v,
        };
        let (sampling, p4) = match read_i32_unit(&t, p3, "Sampling: ", " ms", Field::Sampling) {
            Err(e) => {
                return Err(err_of(e));
            },
            Ok(v) => v,
        };
        let (latency, p5) = match read_simple(&t, p4, "Latency: ", Field::Latency) {
            Err(e) => {
                return Err(err_of(e));
            },
            Ok(v) => v,
        };
        let (key_size, p6) = match read_i32(&t, p5, "Key size: ", Field::KeySize) {
            Err(e) => {
                return Err(err_of(e));
            },
            Ok(v) => v,
        };
        let (value_size, p7) = match read_i32(&t, p6, "Value size: ", Field::ValueSize) {
            Err(e) => {
                return Err(err_of(e));
            },
            Ok(v) => v,
        };
        let (random_seed, p8) = match read_i32(&t, p7, "Random seed: ", Field::RandomSeed) {
            Err(e) => {
                return Err(err_of(e));
            },
            Ok(v) => v,
        };
        let (w, p9) = match read_word(&t, p8, "Key distribution: ") {
            Err(e) => {
                return Err(err_of(e));
            },
            Ok(v) => v,
        };
        let key_distribution = if chars_eq(&w, "UNIFORM") {
            KeyDistribution::UNIFORM
        } else if chars_eq(&w, "ZIPFIAN") {
            KeyDistribution::ZIPFIAN
        } else {
            return Err(ParseError::UnknownDistribution(string_of(&w)));
        };
        let (read, p10) = match read_simple(&t, p9, "Read: ", Field::Read) {
            Err(e) => {
                return Err(err_of(e));
            },
            Ok(v) => v,
        };
        let (insert, p11) = match read_simple(&t, p10, "Insert: ", Field::Insert) {
            Err(e) => {
                return Err(err_of(e));
            },
            Ok(v) => v,
        };
        let (update, p12) = match read_simple(&t, p11, "Update: ", Field::Update) {
            Err(e) => {
                return Err(err_of(e));
            },
            Ok(v) => v,
        };
        let (delete, p13) = match read_simple(&t, p12, "Delete: ", Field::Delete) {
            Err(e) => {
                return Err(err_of(e));
            },
            Ok(v) => v,
        };
        let (scan, _p14) = match read_simple(&t, p13, "Scan: ", Field::Scan) {
            Err(e) => {
                return Err(err_of(e));
            },
            Ok(v) => v,
        };
        Ok(
            BenchmarkOptions {
                sampling,
                latency,
                key_size,
                value_size,
                random_seed,
                read,
                insert,
                update,
                delete,
                scan,
                key_distribution,
                records,
                operations,
                threads,
            },
        )
    }
}


impl BenchmarkOptions {
    /// Whether this record can be rendered back to canonical text: the
    /// counts are the non-negative values the block's numerals denote, and
    /// the decimals carry neither sign nor exponent, as the block's loose
    /// numerals never do.
    pub open spec fn formattable(self) -> bool {
        &&& self.records >= 0
        &&& self.operations >= 0
        &&& self.threads >= 0
        &&& self.sampling >= 0
        &&& self.key_size >= 0
        &&& self.value_size >= 0
        &&& self.random_seed >= 0
        &&& !self.latency.neg && self.latency.exp == 0
        &&& !self.read.neg && self.read.exp == 0
        &&& !self.insert.neg && self.insert.exp == 0
        &&& !self.update.neg && self.update.exp == 0
        &&& !self.delete.neg && self.delete.exp == 0
        &&& !self.scan.neg && self.scan.exp == 0
    }
}

/// The canonical text of the configuration block from its `scan` field on.
pub open spec fn tail_scan(o: BenchmarkOptions) -> Seq<char> {
    piece_simple("Scan: "@, o.scan)
}

pub open spec fn tail_delete(o: BenchmarkOptions) -> Seq<char> {
    piece_simple("Delete: "@, o.delete) + tail_scan(o)
}

pub open spec fn tail_update(o: BenchmarkOptions) -> Seq<char> {
    piece_simple("Update: "@, o.update) + tail_delete(o)
}

pub open spec fn tail_insert(o: BenchmarkOptions) -> Seq<char> {
    piece_simple("Insert: "@, o.insert) + tail_update(o)
}

pub open spec fn tail_read(o: BenchmarkOptions) -> Seq<char> {
    piece_simple("Read: "@, o.read) + tail_insert(o)
}

pub open spec fn tail_distribution(o: BenchmarkOptions) -> Seq<char> {
    piece_word("Key distribution: "@, word_of_dist(o.key_distribution)) + tail_read(o)
}

pub open spec fn tail_random_seed(o: BenchmarkOptions) -> Seq<char> {
    piece_i32("Random seed: "@, o.random_seed) + tail_distribution(o)
}

pub open spec fn tail_value_size(o: BenchmarkOptions) -> Seq<char> {
    piece_i32("Value size: "@, o.value_size) + tail_random_seed(o)
}

pub open spec fn tail_key_size(o: BenchmarkOptions) -> Seq<char> {
    piece_i32("Key size: "@, o.key_size) + tail_value_size(o)
}

pub open spec fn tail_latency(o: BenchmarkOptions) -> Seq<char> {
    piece_simple("Latency: "@, o.latency) + tail_key_size(o)
}

pub open spec fn tail_sampling(o: BenchmarkOptions) -> Seq<char> {
    piece_i32_unit("Sampling: "@, o.sampling, " ms"@) + tail_latency(o)
}

pub open spec fn tail_threads(o: BenchmarkOptions) -> Seq<char> {
    piece_i32("# Threads: "@, o.threads) + tail_sampling(o)
}

pub open spec fn tail_operations(o: BenchmarkOptions) -> Seq<char> {
    piece_i32("# Operations: "@, o.operations) + tail_threads(o)
}

pub open spec fn tail_records(o: BenchmarkOptions) -> Seq<char> {
    piece_i32("# Records: "@, o.records) + tail_operations(o)
}

/// The canonical text of a configuration record: each field on a line of
/// its own, in the order the extractor requires.
pub open spec fn fmt_options(o: BenchmarkOptions) -> Seq<char> {
    tail_records(o)
}

/// One step of the round trip: scanning the rendered `records` field.
proof fn lemma_rt_records(t: Seq<char>, pos: int, o: BenchmarkOptions)
    requires
        o.formattable(),
        0 <= pos <= t.len(),
        t.subrange(pos, t.len() as int) == tail_records(o),
    ensures
        field_i32(t, pos, "# Records: "@, Field::Records) == Ok::<_, ErrV>((o.records, pos + (piece_i32("# Records: "@, o.records)).len())),
        t.subrange(pos + (piece_i32("# Records: "@, o.records)).len(), t.len() as int) == tail_operations(o),
        pos + (piece_i32("# Records: "@, o.records)).len() <= t.len(),
{
    reveal_strlit("# Records: ");
    let rest = tail_operations(o);
    assert(rest[0] == '\n');
    lemma_field_i32_piece(t, pos, "# Records: "@, o.records, Field::Records, rest);
    lemma_suffix_step(t, pos, piece_i32("# Records: "@, o.records), rest);
}

/// One step of the round trip: scanning the rendered `operations` field.
proof fn lemma_rt_operations(t: Seq<char>, pos: int, o: BenchmarkOptions)
    requires
        o.formattable(),
        0 <= pos <= t.len(),
        t.subrange(pos, t.len() as int) == tail_operations(o),
    ensures
        field_i32(t, pos, "# Operations: "@, Field::Operations) == Ok::<_, ErrV>((o.operations, pos + (piece_i32("# Operations: "@, o.operations)).len())),
        t.subrange(pos + (piece_i32("# Operations: "@, o.operations)).len(), t.len() as int) == tail_threads(o),
        pos + (piece_i32("# Operations: "@, o.operations)).len() <= t.len(),
{
    reveal_strlit("# Operations: ");
    let rest = tail_threads(o);
    assert(rest[0] == '\n');
    lemma_field_i32_piece(t, pos, "# Operations: "@, o.operations, Field::Operations, rest);
    lemma_suffix_step(t, pos, piece_i32("# Operations: "@, o.operations), rest);
}

/// One step of the round trip: scanning the rendered `threads` field.
proof fn lemma_rt_threads(t: Seq<char>, pos: int, o: BenchmarkOptions)
    requires
        o.formattable(),
        0 <= pos <= t.len(),
        t.subrange(pos, t.len() as int) == tail_threads(o),
    ensures
        field_i32(t, pos, "# Threads: "@, Field::Threads) == Ok::<_, ErrV>((o.threads, pos + (piece_i32("# Threads: "@, o.threads)).len())),
        t.subrange(pos + (piece_i32("# Threads: "@, o.threads)).len(), t.len() as int) == tail_sampling(o),
        pos + (piece_i32("# Threads: "@, o.threads)).len() <= t.len(),
{
    reveal_strlit("# Threads: ");
    let rest = tail_sampling(o);
    assert(rest[0] == '\n');
    lemma_field_i32_piece(t, pos, "# Threads: "@, o.threads, Field::Threads, rest);
    lemma_suffix_step(t, pos, piece_i32("# Threads: "@, o.threads), rest);
}

/// One step of the round trip: scanning the rendered `sampling` field.
proof fn lemma_rt_sampling(t: Seq<char>, pos: int, o: BenchmarkOptions)
    requires
        o.formattable(),
        0 <= pos <= t.len(),
        t.subrange(pos, t.len() as int) == tail_sampling(o),
    ensures
        field_i32_unit(t, pos, "Sampling: "@, " ms"@, Field::Sampling) == Ok::<_, ErrV>((o.sampling, pos + (piece_i32_unit("Sampling: "@, o.sampling, " ms"@)).len())),
        t.subrange(pos + (piece_i32_unit("Sampling: "@, o.sampling, " ms"@)).len(), t.len() as int) == tail_latency(o),
        pos + (piece_i32_unit("Sampling: "@, o.sampling, " ms"@)).len() <= t.len(),
{
    reveal_strlit("Sampling: ");
    reveal_strlit(" ms");
    let rest = tail_latency(o);
    assert(rest[0] == '\n');
    lemma_field_i32_unit_piece(t, pos, "Sampling: "@, o.sampling, " ms"@, Field::Sampling, rest);
    lemma_suffix_step(t, pos, piece_i32_unit("Sampling: "@, o.sampling, " ms"@), rest);
}

/// One step of the round trip: scanning the rendered `latency` field.
proof fn lemma_rt_latency(t: Seq<char>, pos: int, o: BenchmarkOptions)
    requires
        o.formattable(),
        0 <= pos <= t.len(),
        t.subrange(pos, t.len() as int) == tail_latency(o),
    ensures
        field_simple(t, pos, "Latency: "@, Field::Latency) == Ok::<_, ErrV>((o.latency, pos + (piece_simple("Latency: "@, o.latency)).len())),
        t.subrange(pos + (piece_simple("Latency: "@, o.latency)).len(), t.len() as int) == tail_key_size(o),
        pos + (piece_simple("Latency: "@, o.latency)).len() <= t.len(),
{
    reveal_strlit("Latency: ");
    let rest = tail_key_size(o);
    assert(rest[0] == '\n');
    lemma_field_simple_piece(t, pos, "Latency: "@, o.latency, Field::Latency, rest);
    lemma_suffix_step(t, pos, piece_simple("Latency: "@, o.latency), rest);
}

/// One step of the round trip: scanning the rendered `key_size` field.
proof fn lemma_rt_key_size(t: Seq<char>, pos: int, o: BenchmarkOptions)
    requires
        o.formattable(),
        0 <= pos <= t.len(),
        t.subrange(pos, t.len() as int) == tail_key_size(o),
    ensures
        field_i32(t, pos, "Key size: "@, Field::KeySize) == Ok::<_, ErrV>((o.key_size, pos + (piece_i32("Key size: "@, o.key_size)).len())),
        t.subrange(pos + (piece_i32("Key size: "@, o.key_size)).len(), t.len() as int) == tail_value_size(o),
        pos + (piece_i32("Key size: "@, o.key_size)).len() <= t.len(),
{
    reveal_strlit("Key size: ");
    let rest = tail_value_size(o);
    assert(rest[0] == '\n');
    lemma_field_i32_piece(t, pos, "Key size: "@, o.key_size, Field::KeySize, rest);
    lemma_suffix_step(t, pos, piece_i32("Key size: "@, o.key_size), rest);
}

/// One step of the round trip: scanning the rendered `value_size` field.
proof fn lemma_rt_value_size(t: Seq<char>, pos: int, o: BenchmarkOptions)
    requires
        o.formattable(),
        0 <= pos <= t.len(),
        t.subrange(pos, t.len() as int) == tail_value_size(o),
    ensures
        field_i32(t, pos, "Value size: "@, Field::ValueSize) == Ok::<_, ErrV>((o.value_size, pos + (piece_i32("Value size: "@, o.value_size)).len())),
        t.subrange(pos + (piece_i32("Value size: "@, o.value_size)).len(), t.len() as int) == tail_random_seed(o),
        pos + (piece_i32("Value size: "@, o.value_size)).len() <= t.len(),
{
    reveal_strlit("Value size: ");
    let rest = tail_random_seed(o);
    assert(rest[0] == '\n');
    lemma_field_i32_piece(t, pos, "Value size: "@, o.value_size, Field::ValueSize, rest);
    lemma_suffix_step(t, pos, piece_i32("Value size: "@, o.value_size), rest);
}

/// One step of the round trip: scanning the rendered `random_seed` field.
proof fn lemma_rt_random_seed(t: Seq<char>, pos: int, o: BenchmarkOptions)
    requires
        o.formattable(),
        0 <= pos <= t.len(),
        t.subrange(pos, t.len() as int) == tail_random_seed(o),
    ensures
        field_i32(t, pos, "Random seed: "@, Field::RandomSeed) == Ok::<_, ErrV>((o.random_seed, pos + (piece_i32("Random seed: "@, o.random_seed)).len())),
        t.subrange(pos + (piece_i32("Random seed: "@, o.random_seed)).len(), t.len() as int) == tail_distribution(o),
        pos + (piece_i32("Random seed: "@, o.random_seed)).len() <= t.len(),
{
    reveal_strlit("Random seed: ");
    let rest = tail_distribution(o);
    assert(rest[0] == '\n');
    lemma_field_i32_piece(t, pos, "Random seed: "@, o.random_seed, Field::RandomSeed, rest);
    lemma_suffix_step(t, pos, piece_i32("Random seed: "@, o.random_seed), rest);
}

/// One step of the round trip: scanning the rendered `distribution` field.
proof fn lemma_rt_distribution(t: Seq<char>, pos: int, o: BenchmarkOptions)
    requires
        o.formattable(),
        0 <= pos <= t.len(),
        t.subrange(pos, t.len() as int) == tail_distribution(o),
    ensures
        field_word(t, pos, "Key distribution: "@) == Ok::<_, ErrV>((word_of_dist(o.key_distribution), pos + (piece_word("Key distribution: "@, word_of_dist(o.key_distribution))).len())),
        t.subrange(pos + (piece_word("Key distribution: "@, word_of_dist(o.key_distribution))).len(), t.len() as int) == tail_read(o),
        pos + (piece_word("Key distribution: "@, word_of_dist(o.key_distribution))).len() <= t.len(),
{
    reveal_strlit("Key distribution: ");
    let w = word_of_dist(o.key_distribution);
    reveal_strlit("UNIFORM");
    reveal_strlit("ZIPFIAN");
    assert(w.len() == 7);
    assert forall|k: int| 0 <= k < w.len() implies crate::scan::is_word_char(w[k]) by {
        assert(crate::scan::is_word_char(w[0]));
        assert(crate::scan::is_word_char(w[1]));
        assert(crate::scan::is_word_char(w[2]));
        assert(crate::scan::is_word_char(w[3]));
        assert(crate::scan::is_word_char(w[4]));
        assert(crate::scan::is_word_char(w[5]));
        assert(crate::scan::is_word_char(w[6]));
    }
    let rest = tail_read(o);
    assert(rest[0] == '\n');
    lemma_field_word_piece(t, pos, "Key distribution: "@, word_of_dist(o.key_distribution), rest);
    lemma_suffix_step(t, pos, piece_word("Key distribution: "@, word_of_dist(o.key_distribution)), rest);
}

/// One step of the round trip: scanning the rendered `read` field.
proof fn lemma_rt_read(t: Seq<char>, pos: int, o: BenchmarkOptions)
    requires
        o.formattable(),
        0 <= pos <= t.len(),
        t.subrange(pos, t.len() as int) == tail_read(o),
    ensures
        field_simple(t, pos, "Read: "@, Field::Read) == Ok::<_, ErrV>((o.read, pos + (piece_simple("Read: "@, o.read)).len())),
        t.subrange(pos + (piece_simple("Read: "@, o.read)).len(), t.len() as int) == tail_insert(o),
        pos + (piece_simple("Read: "@, o.read)).len() <= t.len(),
{
    reveal_strlit("Read: ");
    let rest = tail_insert(o);
    assert(rest[0] == '\n');
    lemma_field_simple_piece(t, pos, "Read: "@, o.read, Field::Read, rest);
    lemma_suffix_step(t, pos, piece_simple("Read: "@, o.read), rest);
}

/// One step of the round trip: scanning the rendered `insert` field.
proof fn lemma_rt_insert(t: Seq<char>, pos: int, o: BenchmarkOptions)
    requires
        o.formattable(),
        0 <= pos <= t.len(),
        t.subrange(pos, t.len() as int) == tail_insert(o),
    ensures
        field_simple(t, pos, "Insert: "@, Field::Insert) == Ok::<_, ErrV>((o.insert, pos + (piece_simple("Insert: "@, o.insert)).len())),
        t.subrange(pos + (piece_simple("Insert: "@, o.insert)).len(), t.len() as int) == tail_update(o),
        pos + (piece_simple("Insert: "@, o.insert)).len() <= t.len(),
{
    reveal_strlit("Insert: ");
    let rest = tail_update(o);
    assert(rest[0] == '\n');
    lemma_field_simple_piece(t, pos, "Insert: "@, o.insert, Field::Insert, rest);
    lemma_suffix_step(t, pos, piece_simple("Insert: "@, o.insert), rest);
}

/// One step of the round trip: scanning the rendered `update` field.
proof fn lemma_rt_update(t: Seq<char>, pos: int, o: BenchmarkOptions)
    requires
        o.formattable(),
        0 <= pos <= t.len(),
        t.subrange(pos, t.len() as int) == tail_update(o),
    ensures
        field_simple(t, pos, "Update: "@, Field::Update) == Ok::<_, ErrV>((o.update, pos + (piece_simple("Update: "@, o.update)).len())),
        t.subrange(pos + (piece_simple("Update: "@, o.update)).len(), t.len() as int) == tail_delete(o),
        pos + (piece_simple("Update: "@, o.update)).len() <= t.len(),
{
    reveal_strlit("Update: ");
    let rest = tail_delete(o);
    assert(rest[0] == '\n');
    lemma_field_simple_piece(t, pos, "Update: "@, o.update, Field::Update, rest);
    lemma_suffix_step(t, pos, piece_simple("Update: "@, o.update), rest);
}

/// One step of the round trip: scanning the rendered `delete` field.
proof fn lemma_rt_delete(t: Seq<char>, pos: int, o: BenchmarkOptions)
    requires
        o.formattable(),
        0 <= pos <= t.len(),
        t.subrange(pos, t.len() as int) == tail_delete(o),
    ensures
        field_simple(t, pos, "Delete: "@, Field::Delete) == Ok::<_, ErrV>((o.delete, pos + (piece_simple("Delete: "@, o.delete)).len())),
        t.subrange(pos + (piece_simple("Delete: "@, o.delete)).len(), t.len() as int) == tail_scan(o),
        pos + (piece_simple("Delete: "@, o.delete)).len() <= t.len(),
{
    reveal_strlit("Delete: ");
    let rest = tail_scan(o);
    assert(rest[0] == '\n');
    lemma_field_simple_piece(t, pos, "Delete: "@, o.delete, Field::Delete, rest);
    lemma_suffix_step(t, pos, piece_simple("Delete: "@, o.delete), rest);
}

/// One step of the round trip: scanning the rendered `scan` field.
proof fn lemma_rt_scan(t: Seq<char>, pos: int, o: BenchmarkOptions)
    requires
        o.formattable(),
        0 <= pos <= t.len(),
        t.subrange(pos, t.len() as int) == tail_scan(o),
    ensures
        field_simple(t, pos, "Scan: "@, Field::Scan) == Ok::<_, ErrV>((o.scan, pos + (piece_simple("Scan: "@, o.scan)).len())),
        pos + (piece_simple("Scan: "@, o.scan)).len() == t.len(),
{
    reveal_strlit("Scan: ");
    let rest = Seq::<char>::empty();
    assert(tail_scan(o) =~= (piece_simple("Scan: "@, o.scan)) + rest);
    lemma_field_simple_piece(t, pos, "Scan: "@, o.scan, Field::Scan, rest);
    lemma_suffix_step(t, pos, piece_simple("Scan: "@, o.scan), rest);
}

/// The fourteen field facts, with abstract positions, force the outcome
/// of the whole configuration scan.
proof fn lemma_options_chain(
    t: Seq<char>,
    o: BenchmarkOptions,
    w: Seq<char>,
    q1: int,
    q2: int,
    q3: int,
    q4: int,
    q5: int,
    q6: int,
    q7: int,
    q8: int,
    q9: int,
    q10: int,
    q11: int,
    q12: int,
    q13: int,
    q14: int,
)
    requires
        field_i32(t, 0, "# Records: "@, Field::Records) == Ok::<_, ErrV>((o.records, q1)),
        field_i32(t, q1, "# Operations: "@, Field::Operations) == Ok::<_, ErrV>(
            (o.operations, q2),
        ),
        field_i32(t, q2, "# Threads: "@, Field::Threads) == Ok::<_, ErrV>((o.threads, q3)),
        field_i32_unit(t, q3, "Sampling: "@, " ms"@, Field::Sampling) == Ok::<_, ErrV>(
            (o.sampling, q4),
        ),
        field_simple(t, q4, "Latency: "@, Field::Latency) == Ok::<_, ErrV>((o.latency, q5)),
        field_i32(t, q5, "Key size: "@, Field::KeySize) == Ok::<_, ErrV>((o.key_size, q6)),
        field_i32(t, q6, "Value size: "@, Field::ValueSize) == Ok::<_, ErrV>((o.value_size, q7)),
        field_i32(t, q7, "Random seed: "@, Field::RandomSeed) == Ok::<_, ErrV>(
            (o.random_seed, q8),
        ),
        field_word(t, q8, "Key distribution: "@) == Ok::<_, ErrV>((w, q9)),
        dist_of_word(w) == Ok::<KeyDistribution, ErrV>(o.key_distribution),
        field_simple(t, q9, "Read: "@, Field::Read) == Ok::<_, ErrV>((o.read, q10)),
        field_simple(t, q10, "Insert: "@, Field::Insert) == Ok::<_, ErrV>((o.insert, q11)),
        field_simple(t, q11, "Update: "@, Field::Update) == Ok::<_, ErrV>((o.update, q12)),
        field_simple(t, q12, "Delete: "@, Field::Delete) == Ok::<_, ErrV>((o.delete, q13)),
        field_simple(t, q13, "Scan: "@, Field::Scan) == Ok::<_, ErrV>((o.scan, q14)),
    ensures
        spec_options(t) == Ok::<BenchmarkOptions, ErrV>(o),
{
}

/// Round trip: parsing the canonical text of any formattable
/// configuration record yields exactly that record — every field survives
/// unchanged.
#[verifier::rlimit(100)]
#[verifier::spinoff_prover]
pub proof fn lemma_options_round_trip(o: BenchmarkOptions)
    requires
        o.formattable(),
    ensures
        spec_options(fmt_options(o)) == Ok::<BenchmarkOptions, ErrV>(o),
{
    let t = fmt_options(o);
    let q0 = 0int;
    assert(t.subrange(0, t.len() as int) =~= t);
    lemma_rt_records(t, q0, o);
    let q1 = q0 + (piece_i32("# Records: "@, o.records)).len();
    lemma_rt_operations(t, q1, o);
    let q2 = q1 + (piece_i32("# Operations: "@, o.operations)).len();
    lemma_rt_threads(t, q2, o);
    let q3 = q2 + (piece_i32("# Threads: "@, o.threads)).len();
    lemma_rt_sampling(t, q3, o);
    let q4 = q3 + (piece_i32_unit("Sampling: "@, o.sampling, " ms"@)).len();
    lemma_rt_latency(t, q4, o);
    let q5 = q4 + (piece_simple("Latency: "@, o.latency)).len();
    lemma_rt_key_size(t, q5, o);
    let q6 = q5 + (piece_i32("Key size: "@, o.key_size)).len();
    lemma_rt_value_size(t, q6, o);
    let q7 = q6 + (piece_i32("Value size: "@, o.value_size)).len();
    lemma_rt_random_seed(t, q7, o);
    let q8 = q7 + (piece_i32("Random seed: "@, o.random_seed)).len();
    lemma_rt_distribution(t, q8, o);
    let q9 = q8 + (piece_word("Key distribution: "@, word_of_dist(o.key_distribution))).len();
    lemma_rt_read(t, q9, o);
    let q10 = q9 + (piece_simple("Read: "@, o.read)).len();
    lemma_rt_insert(t, q10, o);
    let q11 = q10 + (piece_simple("Insert: "@, o.insert)).len();
    lemma_rt_update(t, q11, o);
    let q12 = q11 + (piece_simple("Update: "@, o.update)).len();
    lemma_rt_delete(t, q12, o);
    let q13 = q12 + (piece_simple("Delete: "@, o.delete)).len();
    lemma_rt_scan(t, q13, o);
    let q14 = q13 + (piece_simple("Scan: "@, o.scan)).len();
    let w = word_of_dist(o.key_distribution);
    reveal_strlit("UNIFORM");
    reveal_strlit("ZIPFIAN");
    assert(dist_of_word(w) == Ok::<KeyDistribution, ErrV>(o.key_distribution)) by {
        if o.key_distribution is ZIPFIAN {
            assert(w[0] == 'Z');
            assert("UNIFORM"@[0] == 'U');
        }
    }
    lemma_options_chain(
        t, o, w, q1, q2, q3, q4, q5, q6, q7, q8, q9, q10, q11, q12, q13, q14,
    );
}


/// Appends the characters of `s` to `v`.
fn push_chars(v: &mut Vec<char>, s: &str)
    ensures
        final(v)@ == old(v)@ + s@,
{
    let n = s.unicode_len();
    let mut i: usize = 0;
    while i < n
        invariant
            n == s@.len(),
            i <= n,
            v@ == old(v)@ + s@.take(i as int),
        decreases n - i,
    {
        let c = s.get_char(i);
        v.push(c);
        assert(v@ =~= old(v)@ + s@.take(i + 1));
        i = i + 1;
    }
    assert(v@ =~= old(v)@ + s@);
}

/// Appends a rendered `i32` field.
fn push_piece_i32(v: &mut Vec<char>, label: &str, val: i32)
    requires
        val >= 0,
    ensures
        final(v)@ == old(v)@ + piece_i32(label@, val),
{
    v.push('\n');
    push_chars(v, label);
    let mut d = render_u64(val as u64);
    v.append(&mut d);
    assert(v@ =~= old(v)@ + piece_i32(label@, val));
}

/// Appends a rendered loose decimal field.
fn push_piece_simple(v: &mut Vec<char>, label: &str, d: &Decimal)
    requires
        !d.neg,
        d.exp == 0,
    ensures
        final(v)@ == old(v)@ + piece_simple(label@, *d),
{
    v.push('\n');
    push_chars(v, label);
    let mut f = render_dec(d);
    v.append(&mut f);
    assert(v@ =~= old(v)@ + piece_simple(label@, *d));
}

/// The canonical text, flattened left to right.
#[verifier::rlimit(100)]
#[verifier::spinoff_prover]
proof fn lemma_fmt_flat(o: BenchmarkOptions)
    ensures
        fmt_options(o) == piece_i32("# Records: "@, o.records) + piece_i32(
            "# Operations: "@,
            o.operations,
        ) + piece_i32("# Threads: "@, o.threads) + piece_i32("Sampling: "@, o.sampling) + " ms"@
            + piece_simple("Latency: "@, o.latency) + piece_i32("Key size: "@, o.key_size)
            + piece_i32("Value size: "@, o.value_size) + piece_i32("Random seed: "@, o.random_seed)
            + seq!['\n'] + "Key distribution: "@ + word_of_dist(o.key_distribution) + piece_simple(
            "Read: "@,
            o.read,
        ) + piece_simple("Insert: "@, o.insert) + piece_simple("Update: "@, o.update)
            + piece_simple("Delete: "@, o.delete) + piece_simple("Scan: "@, o.scan),
{
    assert(fmt_options(o) =~= piece_i32("# Records: "@, o.records) + piece_i32(
        "# Operations: "@,
        o.operations,
    ) + piece_i32("# Threads: "@, o.threads) + piece_i32("Sampling: "@, o.sampling) + " ms"@
        + piece_simple("Latency: "@, o.latency) + piece_i32("Key size: "@, o.key_size) + piece_i32(
        "Value size: "@,
        o.value_size,
    ) + piece_i32("Random seed: "@, o.random_seed) + seq!['\n'] + "Key distribution: "@
        + word_of_dist(o.key_distribution) + piece_simple("Read: "@, o.read) + piece_simple(
        "Insert: "@,
        o.insert,
    ) + piece_simple("Update: "@, o.update) + piece_simple("Delete: "@, o.delete) + piece_simple(
        "Scan: "@,
        o.scan,
    ));
}

/// Renders a configuration record back to its canonical text, the form
/// [`lemma_options_round_trip`] speaks of.
#[verifier::rlimit(100)]
#[verifier::spinoff_prover]
pub fn format_options(o: &BenchmarkOptions) -> (s: String)
    requires
        o.formattable(),
    ensures
        s@ == fmt_options(*o),
{
    let mut v: Vec<char> = Vec::new();
    push_piece_i32(&mut v, "# Records: ", o.records);
    proof {
        assert(v@ =~= piece_i32("# Records: "@, o.records));
    }
    push_piece_i32(&mut v, "# Operations: ", o.operations);
    push_piece_i32(&mut v, "# Threads: ", o.threads);
    push_piece_i32(&mut v, "Sampling: ", o.sampling);
    push_chars(&mut v, " ms");
    push_piece_simple(&mut v, "Latency: ", &o.latency);
    push_piece_i32(&mut v, "Key size: ", o.key_size);
    push_piece_i32(&mut v, "Value size: ", o.value_size);
    push_piece_i32(&mut v, "Random seed: ", o.random_seed);
    let ghost pre = v@;
    v.push('\n');
    proof {
        assert(v@ =~= pre + seq!['\n']);
    }
    push_chars(&mut v, "Key distribution: ");
    match o.key_distribution {
        KeyDistribution::UNIFORM => push_chars(&mut v, "UNIFORM"),
        KeyDistribution::ZIPFIAN => push_chars(&mut v, "ZIPFIAN"),
    }
    proof {
        assert(word_of_dist(o.key_distribution) == match o.key_distribution {
            KeyDistribution::UNIFORM => "UNIFORM"@,
            KeyDistribution::ZIPFIAN => "ZIPFIAN"@,
        });
    }
    push_piece_simple(&mut v, "Read: ", &o.read);
    push_piece_simple(&mut v, "Insert: ", &o.insert);
    push_piece_simple(&mut v, "Update: ", &o.update);
    push_piece_simple(&mut v, "Delete: ", &o.delete);
    push_piece_simple(&mut v, "Scan: ", &o.scan);
    proof {
        lemma_fmt_flat(*o);
    }
    string_of(&v)
}

} // verus!
