//! Labeled-field scanning: each extractor finds a label and coerces the
//! value that immediately follows it, reporting structural and numeric
//! failures through the shared error taxonomy.

use vstd::prelude::*;
use crate::decimal::{fmt_dec, scan_simple_at, scan_sci_at, take_simple, take_sci, Decimal};
use crate::errors::{ErrV, Field};
use crate::num::{dec_digits_of, lemma_dec_digits_of, scan_i32_at, scan_u64_at, take_i32, take_u64, NumErr};
use crate::scan::{digits_val, find_from, find_in, is_match_at, match_at, word_run_end, word_end};

verus! {

/// Relies on `String::push`: it appends the given character to the end of
/// the string.
pub assume_specification[ String::push ](s: &mut String, c: char)
    ensures
        final(s)@ == old(s)@.push(c),
;

/// The `String` holding exactly the characters of `v`.
pub fn string_of(v: &Vec<char>) -> (s: String)
    ensures
        s@ == v@,
{
    let mut s = String::new();
    let mut i: usize = 0;
    while i < v.len()
        invariant
            i <= v@.len(),
            s@ == v@.take(i as int),
        decreases v@.len() - i,
    {
        s.push(v[i]);
        assert(s@ =~= v@.take(i + 1));
        i = i + 1;
    }
    assert(s@ =~= v@);
    s
}

/// The first occurrence of `label` at or after `from`, with the `i32`
/// numeral that immediately follows it: the value and the index just past
/// it.  A missing label or a label without digits is a shape failure; a
/// numeral above `i32::MAX` is malformed and names the field.
pub open spec fn field_i32(t: Seq<char>, from: int, label: Seq<char>, name: Field) -> Result<
    (i32, int),
    ErrV,
> {
    match find_from(t, label, from) {
        None => Err(ErrV::PatternNotMatched),
        Some(i) => match scan_i32_at(t, i + label.len()) {
            Err(NumErr::Shape) => Err(ErrV::PatternNotMatched),
            Err(NumErr::TooBig) => Err(ErrV::MalformedNumber(name)),
            Ok((v, e)) => Ok((v, e)),
        },
    }
}

/// [`field_i32`], additionally requiring the literal `unit` immediately
/// after the numeral; the yielded index lies just past the unit.
pub open spec fn field_i32_unit(
    t: Seq<char>,
    from: int,
    label: Seq<char>,
    unit: Seq<char>,
    name: Field,
) -> Result<(i32, int), ErrV> {
    match field_i32(t, from, label, name) {
        Err(e) => Err(e),
        Ok((v, e)) => if is_match_at(t, unit, e) {
            Ok((v, e + unit.len()))
        } else {
            Err(ErrV::PatternNotMatched)
        },
    }
}

/// The first occurrence of `label` at or after `from`, with the loose
/// decimal numeral that immediately follows it.  A missing label is a shape
/// failure; a numeral without digits, or one past the mantissa range, is
/// malformed and names the field.
pub open spec fn field_simple(t: Seq<char>, from: int, label: Seq<char>, name: Field) -> Result<
    (Decimal, int),
    ErrV,
> {
    match find_from(t, label, from) {
        None => Err(ErrV::PatternNotMatched),
        Some(i) => match scan_simple_at(t, i + label.len()) {
            Err(_) => Err(ErrV::MalformedNumber(name)),
            Ok((d, e)) => Ok((d, e)),
        },
    }
}

/// The first occurrence of `label` at or after `from`, with the strict
/// decimal numeral that immediately follows it and the literal `unit` just
/// past the numeral.  A missing label, a numeral in the wrong shape, or a
/// missing unit is a shape failure; a numeral past the mantissa or exponent
/// range is malformed and names the field.
pub open spec fn field_sci_unit(
    t: Seq<char>,
    from: int,
    label: Seq<char>,
    unit: Seq<char>,
    name: Field,
) -> Result<(Decimal, int), ErrV> {
    match find_from(t, label, from) {
        None => Err(ErrV::PatternNotMatched),
        Some(i) => match scan_sci_at(t, i + label.len()) {
            Err(NumErr::Shape) => Err(ErrV::PatternNotMatched),
            Err(NumErr::TooBig) => Err(ErrV::MalformedNumber(name)),
            Ok((d, e)) => if is_match_at(t, unit, e) {
                Ok((d, e + unit.len()))
            } else {
                Err(ErrV::PatternNotMatched)
            },
        },
    }
}

/// An optional counter: absence of `label` at or after `from` is the
/// explicit absent state, not an error; a present label whose numeral lacks
/// digits or exceeds `u64::MAX` is malformed and names the field.
pub open spec fn field_u64_opt(t: Seq<char>, from: int, label: Seq<char>, name: Field) -> Result<
    Option<u64>,
    ErrV,
> {
    match find_from(t, label, from) {
        None => Ok(None),
        Some(i) => match scan_u64_at(t, i + label.len()) {
            Err(_) => Err(ErrV::MalformedNumber(name)),
            Ok((v, e)) => Ok(Some(v)),
        },
    }
}

/// The first occurrence of `label` at or after `from`, with the word
/// (letters, digits, underscores) that immediately follows it: the word and
/// the index just past it.  A missing label or an empty word is a shape
/// failure.
pub open spec fn field_word(t: Seq<char>, from: int, label: Seq<char>) -> Result<
    (Seq<char>, int),
    ErrV,
> {
    match find_from(t, label, from) {
        None => Err(ErrV::PatternNotMatched),
        Some(i) => {
            let s = i + label.len();
            let e = word_run_end(t, s);
            if e == s {
                Err(ErrV::PatternNotMatched)
            } else {
                Ok((t.subrange(s, e), e))
            }
        },
    }
}

/// Reads an `i32` field as [`field_i32`] describes.
pub fn read_i32(t: &Vec<char>, from: usize, label: &str, name: Field) -> (r: Result<
    (i32, usize),
    ErrV,
>)
    requires
        from <= t@.len(),
    ensures
        match r {
            Ok((v, e)) => field_i32(t@, from as int, label@, name) == Ok::<_, ErrV>((v, e as int))
                && e <= t@.len(),
            Err(err) => field_i32(t@, from as int, label@, name) == Err::<(i32, int), _>(err),
        },
{
    match find_in(t, label, from) {
        None => Err(ErrV::PatternNotMatched),
        Some(i) => {
            let ll = label.unicode_len();
            let n = t.len();
            proof {
                crate::scan::lemma_find_from_found(t@, label@, from as int, i as int);
                assert(i + ll <= n);
            }
            match take_i32(t, i + ll) {
                Err(NumErr::Shape) => Err(ErrV::PatternNotMatched),
                Err(NumErr::TooBig) => Err(ErrV::MalformedNumber(name)),
                Ok((v, e)) => {
                    proof {
                        crate::scan::lemma_digit_run_end(t@, i + label@.len());
                    }
                    Ok((v, e))
                },
            }
        },
    }
}

/// Reads an `i32` field with a required unit as [`field_i32_unit`]
/// describes.
pub fn read_i32_unit(t: &Vec<char>, from: usize, label: &str, unit: &str, name: Field) -> (r:
    Result<(i32, usize), ErrV>)
    requires
        from <= t@.len(),
    ensures
        match r {
            Ok((v, e)) => field_i32_unit(t@, from as int, label@, unit@, name) == Ok::<_, ErrV>(
                (v, e as int),
            ) && e <= t@.len(),
            Err(err) => field_i32_unit(t@, from as int, label@, unit@, name) == Err::<
                (i32, int),
                _,
            >(err),
        },
{
    match read_i32(t, from, label, name) {
        Err(e) => Err(e),
        Ok((v, e)) => {
            if match_at(t, unit, e) {
                let ul = unit.unicode_len();
                let n = t.len();
                proof {
                    assert(e + ul <= n);
                }
                Ok((v, e + ul))
            } else {
                Err(ErrV::PatternNotMatched)
            }
        },
    }
}

/// Reads a loose decimal field as [`field_simple`] describes.
pub fn read_simple(t: &Vec<char>, from: usize, label: &str, name: Field) -> (r: Result<
    (Decimal, usize),
    ErrV,
>)
    requires
        from <= t@.len(),
    ensures
        match r {
            Ok((d, e)) => field_simple(t@, from as int, label@, name) == Ok::<_, ErrV>(
                (d, e as int),
            ) && e <= t@.len(),
            Err(err) => field_simple(t@, from as int, label@, name) == Err::<(Decimal, int), _>(
                err,
            ),
        },
{
    match find_in(t, label, from) {
        None => Err(ErrV::PatternNotMatched),
        Some(i) => {
            let ll = label.unicode_len();
            let n = t.len();
            proof {
                crate::scan::lemma_find_from_found(t@, label@, from as int, i as int);
                assert(i + ll <= n);
            }
            match take_simple(t, i + ll) {
                Err(_) => Err(ErrV::MalformedNumber(name)),
                Ok((d, e)) => {
                    proof {
                        crate::decimal::lemma_scan_simple_end(t@, i + ll);
                    }
                    Ok((d, e))
                },
            }
        },
    }
}

/// Reads a strict decimal field with a required unit as [`field_sci_unit`]
/// describes.
pub fn read_sci_unit(t: &Vec<char>, from: usize, label: &str, unit: &str, name: Field) -> (r:
    Result<(Decimal, usize), ErrV>)
    requires
        from <= t@.len(),
    ensures
        match r {
            Ok((d, e)) => field_sci_unit(t@, from as int, label@, unit@, name) == Ok::<_, ErrV>(
                (d, e as int),
            ) && e <= t@.len(),
            Err(err) => field_sci_unit(t@, from as int, label@, unit@, name) == Err::<
                (Decimal, int),
                _,
            >(err),
        },
{
    match find_in(t, label, from) {
        None => Err(ErrV::PatternNotMatched),
        Some(i) => {
            let ll = label.unicode_len();
            let n = t.len();
            proof {
                crate::scan::lemma_find_from_found(t@, label@, from as int, i as int);
                assert(i + ll <= n);
            }
            match take_sci(t, i + ll) {
                Err(NumErr::Shape) => Err(ErrV::PatternNotMatched),
                Err(NumErr::TooBig) => Err(ErrV::MalformedNumber(name)),
                Ok((d, e)) => {
                    if match_at(t, unit, e) {
                        let ul = unit.unicode_len();
                        let n = t.len();
                        proof {
                            assert(e + ul <= n);
                        }
                        Ok((d, e + ul))
                    } else {
                        Err(ErrV::PatternNotMatched)
                    }
                },
            }
        },
    }
}

/// Reads an optional counter field as [`field_u64_opt`] describes.
pub fn read_u64_opt(t: &Vec<char>, from: usize, label: &str, name: Field) -> (r: Result<
    Option<u64>,
    ErrV,
>)
    requires
        from <= t@.len(),
    ensures
        match r {
            Ok(v) => field_u64_opt(t@, from as int, label@, name) == Ok::<_, ErrV>(v),
            Err(err) => field_u64_opt(t@, from as int, label@, name) == Err::<Option<u64>, _>(err),
        },
{
    match find_in(t, label, from) {
        None => Ok(None),
        Some(i) => {
            let ll = label.unicode_len();
            let n = t.len();
            proof {
                crate::scan::lemma_find_from_found(t@, label@, from as int, i as int);
                assert(i + ll <= n);
            }
            match take_u64(t, i + ll) {
                Err(_) => Err(ErrV::MalformedNumber(name)),
                Ok((v, _)) => Ok(Some(v)),
            }
        },
    }
}

/// Reads a word field as [`field_word`] describes.
pub fn read_word(t: &Vec<char>, from: usize, label: &str) -> (r: Result<(Vec<char>, usize), ErrV>)
    requires
        from <= t@.len(),
    ensures
        match r {
            Ok((w, e)) => field_word(t@, from as int, label@) == Ok::<_, ErrV>((w@, e as int))
                && e <= t@.len(),
            Err(err) => field_word(t@, from as int, label@) == Err::<(Seq<char>, int), _>(err),
        },
{
    match find_in(t, label, from) {
        None => Err(ErrV::PatternNotMatched),
        Some(i) => {
            let ll = label.unicode_len();
            let n = t.len();
            proof {
                crate::scan::lemma_find_from_found(t@, label@, from as int, i as int);
                assert(i + ll <= n);
            }
            let s = i + ll;
            let e = word_end(t, s);
            if e == s {
                Err(ErrV::PatternNotMatched)
            } else {
                let mut w: Vec<char> = Vec::new();
                let mut j: usize = s;
                while j < e
                    invariant
                        s <= j <= e <= t@.len(),
                        w@ == t@.subrange(s as int, j as int),
                    decreases e - j,
                {
                    w.push(t[j]);
                    assert(w@ =~= t@.subrange(s as int, j + 1));
                    j = j + 1;
                }
                Ok((w, e))
            }
        },
    }
}

/// The rendered form of an `i32` field: a line break, the label, then the
/// canonical numeral.
pub open spec fn piece_i32(label: Seq<char>, v: i32) -> Seq<char> {
    seq!['\n'] + label + dec_digits_of(v as nat)
}

/// The rendered form of an `i32` field with its unit.
pub open spec fn piece_i32_unit(label: Seq<char>, v: i32, unit: Seq<char>) -> Seq<char> {
    seq!['\n'] + label + dec_digits_of(v as nat) + unit
}

/// The rendered form of a loose decimal field.
pub open spec fn piece_simple(label: Seq<char>, d: Decimal) -> Seq<char> {
    seq!['\n'] + label + fmt_dec(d)
}

/// The rendered form of a word field.
pub open spec fn piece_word(label: Seq<char>, w: Seq<char>) -> Seq<char> {
    seq!['\n'] + label + w
}

/// One character of a known suffix of `t`, read back in `t` itself.
pub proof fn lemma_suffix_index(t: Seq<char>, pos: int, u: Seq<char>, k: int)
    requires
        0 <= pos <= t.len(),
        t.subrange(pos, t.len() as int) == u,
        0 <= k < u.len(),
    ensures
        t[pos + k] == u[k],
{
    assert(t.subrange(pos, t.len() as int)[k] == t[pos + k]);
}

/// A suffix that opens with `a + b` continues past `a` with `b`.
pub proof fn lemma_suffix_step(t: Seq<char>, pos: int, a: Seq<char>, b: Seq<char>)
    requires
        0 <= pos <= t.len(),
        t.subrange(pos, t.len() as int) == a + b,
    ensures
        pos + a.len() + b.len() == t.len(),
        t.subrange(pos + a.len(), t.len() as int) == b,
{
    assert(t.subrange(pos, t.len() as int).len() == t.len() - pos);
    assert forall|k: int| 0 <= k < b.len() implies t.subrange(
        pos + a.len(),
        t.len() as int,
    )[k] == b[k] by {
        assert(t.subrange(pos + a.len(), t.len() as int)[k] == t[pos + a.len() + k]);
        lemma_suffix_index(t, pos, a + b, a.len() + k);
        assert((a + b)[a.len() + k] == b[k]);
    }
    assert(t.subrange(pos + a.len(), t.len() as int) =~= b);
}

/// Scanning a rendered `i32` field from the break before it yields its
/// value and stops just past the numeral.
pub proof fn lemma_field_i32_piece(
    t: Seq<char>,
    pos: int,
    label: Seq<char>,
    v: i32,
    name: Field,
    rest: Seq<char>,
)
    requires
        0 <= pos <= t.len(),
        v >= 0,
        label.len() > 0,
        label[0] != '\n',
        t.subrange(pos, t.len() as int) == piece_i32(label, v) + rest,
        rest.len() > 0 ==> !crate::scan::is_digit(rest[0]),
    ensures
        field_i32(t, pos, label, name) == Ok::<_, ErrV>((v, pos + piece_i32(label, v).len())),
{
    let piece = piece_i32(label, v);
    let digs = dec_digits_of(v as nat);
    let u = piece + rest;
    lemma_dec_digits_of(v as nat);
    assert(t.subrange(pos, t.len() as int).len() == t.len() - pos);
    // the label matches right after the line break and nowhere earlier
    lemma_suffix_index(t, pos, u, 0);
    assert(u[0] == '\n');
    assert(t[pos] == '\n');
    assert(!is_match_at(t, label, pos));
    assert(is_match_at(t, label, pos + 1)) by {
        assert forall|k: int| 0 <= k < label.len() implies t[pos + 1 + k] == label[k] by {
            lemma_suffix_index(t, pos, u, 1 + k);
            assert(u[1 + k] == label[k]);
            assert(t[pos + (1 + k)] == t[pos + 1 + k]);
        }
    }
    crate::scan::lemma_find_from_exact(t, label, pos, pos + 1);
    // the numeral follows, stopped by `rest` or the end of the text
    let s = pos + 1 + label.len();
    let e = s + digs.len();
    assert forall|j: int| s <= j < e implies crate::scan::is_digit(t[j]) by {
        lemma_suffix_index(t, pos, u, j - pos);
        assert(u[j - pos] == digs[j - pos - 1 - label.len()]);
    }
    assert(e == t.len() || !crate::scan::is_digit(t[e])) by {
        if e < t.len() {
            lemma_suffix_index(t, pos, u, piece.len() as int);
            assert(u[piece.len() as int] == rest[0]);
            assert(t[pos + piece.len()] == rest[0]);
        }
    }
    crate::scan::lemma_digit_run_end_exact(t, s, e);
    assert(t.subrange(s, e) =~= digs) by {
        assert forall|k: int| 0 <= k < digs.len() implies t.subrange(s, e)[k] == digs[k] by {
            assert(t.subrange(s, e)[k] == t[s + k]);
            lemma_suffix_index(t, pos, u, 1 + label.len() + k);
            assert(u[1 + label.len() + k] == digs[k]);
            assert(t[pos + (1 + label.len() + k)] == t[s + k]);
        }
    }
    assert(digits_val(t.subrange(s, e)) == v);
}

/// Scanning a rendered `i32` field with its unit from the break before it
/// yields its value and stops just past the unit.
pub proof fn lemma_field_i32_unit_piece(
    t: Seq<char>,
    pos: int,
    label: Seq<char>,
    v: i32,
    unit: Seq<char>,
    name: Field,
    rest: Seq<char>,
)
    requires
        0 <= pos <= t.len(),
        v >= 0,
        label.len() > 0,
        label[0] != '\n',
        unit.len() > 0,
        !crate::scan::is_digit(unit[0]),
        t.subrange(pos, t.len() as int) == piece_i32_unit(label, v, unit) + rest,
    ensures
        field_i32_unit(t, pos, label, unit, name) == Ok::<_, ErrV>(
            (v, pos + piece_i32_unit(label, v, unit).len()),
        ),
{
    let piece = piece_i32_unit(label, v, unit);
    let inner = piece_i32(label, v);
    assert(piece =~= inner + unit);
    assert((inner + unit) + rest =~= inner + (unit + rest));
    assert(unit + rest =~= (unit + rest));
    assert((unit + rest)[0] == unit[0]);
    lemma_field_i32_piece(t, pos, label, v, name, unit + rest);
    let e = pos + inner.len();
    lemma_suffix_step(t, pos, inner, unit + rest);
    assert(is_match_at(t, unit, e)) by {
        assert forall|k: int| 0 <= k < unit.len() implies t[e + k] == unit[k] by {
            lemma_suffix_index(t, e, unit + rest, k);
            assert((unit + rest)[k] == unit[k]);
        }
    }
}

/// Scanning a rendered loose decimal field from the break before it yields
/// its decimal and stops just past the numeral.
pub proof fn lemma_field_simple_piece(
    t: Seq<char>,
    pos: int,
    label: Seq<char>,
    d: Decimal,
    name: Field,
    rest: Seq<char>,
)
    requires
        0 <= pos <= t.len(),
        !d.neg,
        d.exp == 0,
        label.len() > 0,
        label[0] != '\n',
        t.subrange(pos, t.len() as int) == piece_simple(label, d) + rest,
        rest.len() > 0 ==> !crate::scan::is_digit(rest[0]) && rest[0] != '.',
    ensures
        field_simple(t, pos, label, name) == Ok::<_, ErrV>(
            (d, pos + piece_simple(label, d).len()),
        ),
{
    let piece = piece_simple(label, d);
    let f = fmt_dec(d);
    let u = piece + rest;
    assert(t.subrange(pos, t.len() as int).len() == t.len() - pos);
    lemma_suffix_index(t, pos, u, 0);
    assert(u[0] == '\n');
    assert(t[pos] == '\n');
    assert(!is_match_at(t, label, pos));
    assert(is_match_at(t, label, pos + 1)) by {
        assert forall|k: int| 0 <= k < label.len() implies t[pos + 1 + k] == label[k] by {
            lemma_suffix_index(t, pos, u, 1 + k);
            assert(u[1 + k] == label[k]);
            assert(t[pos + (1 + k)] == t[pos + 1 + k]);
        }
    }
    crate::scan::lemma_find_from_exact(t, label, pos, pos + 1);
    let s = pos + 1 + label.len();
    assert(t.subrange(s, s + f.len()) =~= f) by {
        assert forall|k: int| 0 <= k < f.len() implies t.subrange(s, s + f.len())[k] == f[k] by {
            assert(t.subrange(s, s + f.len())[k] == t[s + k]);
            lemma_suffix_index(t, pos, u, 1 + label.len() + k);
            assert(u[1 + label.len() + k] == f[k]);
            assert(t[pos + (1 + label.len() + k)] == t[s + k]);
        }
    }
    assert(s + f.len() < t.len() ==> {
        let c = t[s + f.len()];
        !crate::scan::is_digit(c) && c != '.'
    }) by {
        if s + f.len() < t.len() {
            lemma_suffix_index(t, pos, u, piece.len() as int);
            assert(u[piece.len() as int] == rest[0]);
            assert(t[pos + piece.len()] == rest[0]);
            assert(pos + piece.len() == s + f.len());
        }
    }
    crate::decimal::lemma_scan_simple_fmt(t, s, d);
}

/// Scanning a rendered word field from the break before it yields the word
/// and stops just past it.
pub proof fn lemma_field_word_piece(
    t: Seq<char>,
    pos: int,
    label: Seq<char>,
    w: Seq<char>,
    rest: Seq<char>,
)
    requires
        0 <= pos <= t.len(),
        label.len() > 0,
        label[0] != '\n',
        w.len() > 0,
        forall|k: int| 0 <= k < w.len() ==> crate::scan::is_word_char(w[k]),
        t.subrange(pos, t.len() as int) == piece_word(label, w) + rest,
        rest.len() > 0 ==> !crate::scan::is_word_char(rest[0]),
    ensures
        field_word(t, pos, label) == Ok::<_, ErrV>((w, pos + piece_word(label, w).len())),
{
    let piece = piece_word(label, w);
    let u = piece + rest;
    assert(t.subrange(pos, t.len() as int).len() == t.len() - pos);
    lemma_suffix_index(t, pos, u, 0);
    assert(u[0] == '\n');
    assert(t[pos] == '\n');
    assert(!is_match_at(t, label, pos));
    assert(is_match_at(t, label, pos + 1)) by {
        assert forall|k: int| 0 <= k < label.len() implies t[pos + 1 + k] == label[k] by {
            lemma_suffix_index(t, pos, u, 1 + k);
            assert(u[1 + k] == label[k]);
            assert(t[pos + (1 + k)] == t[pos + 1 + k]);
        }
    }
    crate::scan::lemma_find_from_exact(t, label, pos, pos + 1);
    let s = pos + 1 + label.len();
    let e = s + w.len();
    assert forall|j: int| s <= j < e implies crate::scan::is_word_char(t[j]) by {
        lemma_suffix_index(t, pos, u, j - pos);
        assert(u[j - pos] == w[j - pos - 1 - label.len()]);
    }
    assert(e == t.len() || !crate::scan::is_word_char(t[e])) by {
        if e < t.len() {
            lemma_suffix_index(t, pos, u, piece.len() as int);
            assert(u[piece.len() as int] == rest[0]);
            assert(t[pos + piece.len()] == rest[0]);
        }
    }
    crate::scan::lemma_word_run_end_exact(t, s, e);
    assert(t.subrange(s, e) =~= w) by {
        assert forall|k: int| 0 <= k < w.len() implies t.subrange(s, e)[k] == w[k] by {
            assert(t.subrange(s, e)[k] == t[s + k]);
            lemma_suffix_index(t, pos, u, 1 + label.len() + k);
            assert(u[1 + label.len() + k] == w[k]);
            assert(t[pos + (1 + label.len() + k)] == t[s + k]);
        }
    }
}

} // verus!
