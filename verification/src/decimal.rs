//! Exact decimal numerals.
//!
//! The report carries timings, throughput and workload proportions as
//! decimal text (`90801.3`, `0.2`, optionally with a sign and a power-of-ten
//! exponent).  A [`Decimal`] keeps exactly what the text says, as plain
//! integers: the digit string with the point removed (`mantissa`), the
//! number of fractional digits (`scale`), the sign, and the exponent.  The
//! denoted value is `(-1)^neg * mantissa * 10^(exp - scale)`.  Numerals
//! whose digit string exceeds a 64-bit mantissa, or whose exponent exceeds
//! `i32::MAX`, are rejected as malformed.

use vstd::prelude::*;
use crate::num::{
    scan_u64_at, NumErr, dec_digits_of, padded_digits_of, pow10, lemma_dec_digits_of,
    lemma_padded_digits_of, lemma_digits_val_concat, lemma_pow10_pos, take_u64, render_u64,
    render_padded,
};
use crate::scan::{
    digit_run_end, digits_val, is_digit, lemma_digit_run_end, lemma_digit_run_end_exact,
    lemma_digits_val_push, digit_end, accum_digits,
};

verus! {

/// A decimal numeral, kept exactly: `(-1)^neg * mantissa * 10^(exp - scale)`.
#[derive(Debug, PartialEq, Eq, Clone, Copy)]
pub struct Decimal {
    /// True when the numeral carries a leading minus sign.
    pub neg: bool,
    /// The digits of the numeral with the decimal point removed.
    pub mantissa: u64,
    /// How many of the mantissa's digits lie behind the decimal point.
    pub scale: u32,
    /// The power-of-ten exponent of scientific notation, zero when absent.
    pub exp: i32,
}

impl Decimal {
    /// The unsigned decimal `mantissa / 10^scale`, without sign or exponent.
    pub fn plain(mantissa: u64, scale: u32) -> (d: Decimal)
        ensures
            d == (Decimal { neg: false, mantissa, scale, exp: 0 }),
    {
        Decimal { neg: false, mantissa, scale, exp: 0 }
    }

    /// True when the numeral is plain — no sign, no exponent — and denotes
    /// at most one: `mantissa / 10^scale <= 1`.
    pub open spec fn unit_proportion(self) -> bool {
        &&& !self.neg
        &&& self.exp == 0
        &&& self.mantissa <= pow10(self.scale as nat)
    }

    /// Whether the numeral is a plain proportion in `[0, 1]`.
    pub fn is_unit_proportion(&self) -> (b: bool)
        ensures
            b == self.unit_proportion(),
    {
        if self.neg || self.exp != 0 {
            return false;
        }
        match pow10_checked(self.scale) {
            Some(p) => self.mantissa <= p,
            None => true,
        }
    }
}

/// The unsigned numeral of `t` beginning at `s`, in the loose shape the
/// configuration block allows: digits, an optional point, more digits.  A
/// numeral without any digit is a shape failure.  Yields the value and the
/// index just past it.
pub open spec fn scan_simple_at(t: Seq<char>, s: int) -> Result<(Decimal, int), NumErr> {
    let ie = digit_run_end(t, s);
    if ie < t.len() && t[ie] == '.' {
        let fe = digit_run_end(t, ie + 1);
        let digs = t.subrange(s, ie) + t.subrange(ie + 1, fe);
        if digs.len() == 0 {
            Err(NumErr::Shape)
        } else if digits_val(digs) > u64::MAX || fe - (ie + 1) > u32::MAX {
            Err(NumErr::TooBig)
        } else {
            Ok(
                (
                    Decimal {
                        neg: false,
                        mantissa: digits_val(digs) as u64,
                        scale: (fe - (ie + 1)) as u32,
                        exp: 0,
                    },
                    fe,
                ),
            )
        }
    } else {
        match scan_u64_at(t, s) {
            Err(e) => Err(e),
            Ok((v, e)) => Ok((Decimal { neg: false, mantissa: v, scale: 0, exp: 0 }, e)),
        }
    }
}

/// The exponent part at `q`: `e` or `E`, an optional sign, then digits.
/// Absence of `e`/`E` is a zero exponent ending at `q`; `e`/`E` without
/// digits is a shape failure; a value above `i32::MAX` is an overflow.
pub open spec fn scan_exp_at(t: Seq<char>, q: int) -> Result<(i32, int), NumErr> {
    if q < t.len() && (t[q] == 'e' || t[q] == 'E') {
        let eneg = q + 1 < t.len() && t[q + 1] == '-';
        let r = if q + 1 < t.len() && (t[q + 1] == '+' || t[q + 1] == '-') {
            q + 2
        } else {
            q + 1
        };
        let ee = digit_run_end(t, r);
        if ee == r {
            Err(NumErr::Shape)
        } else if digits_val(t.subrange(r, ee)) > i32::MAX {
            Err(NumErr::TooBig)
        } else {
            Ok(
                (
                    (if eneg {
                        -digits_val(t.subrange(r, ee))
                    } else {
                        digits_val(t.subrange(r, ee)) as int
                    }) as i32,
                    ee,
                ),
            )
        }
    } else {
        Ok((0, q))
    }
}

/// The signed numeral of `t` beginning at `s`, in the strict shape the
/// results block requires: an optional sign, an integer part without a
/// leading zero, an optional point with optional digits, and an optional
/// exponent.  Yields the value and the index just past it.
pub open spec fn scan_sci_at(t: Seq<char>, s: int) -> Result<(Decimal, int), NumErr> {
    let neg = s < t.len() && t[s] == '-';
    let p = if s < t.len() && (t[s] == '+' || t[s] == '-') {
        s + 1
    } else {
        s
    };
    if !(p < t.len() && is_digit(t[p])) {
        Err(NumErr::Shape)
    } else if t[p] == '0' && p + 1 < t.len() && is_digit(t[p + 1]) {
        Err(NumErr::Shape)
    } else {
        let ie = digit_run_end(t, p);
        let dotted = ie < t.len() && t[ie] == '.';
        let fs = if dotted {
            ie + 1
        } else {
            ie
        };
        let fe = if dotted {
            digit_run_end(t, ie + 1)
        } else {
            ie
        };
        let digs = t.subrange(p, ie) + t.subrange(fs, fe);
        if digits_val(digs) > u64::MAX || fe - fs > u32::MAX {
            Err(NumErr::TooBig)
        } else {
            match scan_exp_at(t, fe) {
                Err(e) => Err(e),
                Ok((ex, end)) => Ok(
                    (
                        Decimal {
                            neg,
                            mantissa: digits_val(digs) as u64,
                            scale: (fe - fs) as u32,
                            exp: ex,
                        },
                        end,
                    ),
                ),
            }
        }
    }
}

/// Reads the loose numeral shape beginning at `s`.
pub fn take_simple(t: &Vec<char>, s: usize) -> (r: Result<(Decimal, usize), NumErr>)
    requires
        s <= t@.len(),
    ensures
        match r {
            Ok((d, e)) => scan_simple_at(t@, s as int) == Ok::<_, NumErr>((d, e as int)),
            Err(err) => scan_simple_at(t@, s as int) == Err::<(Decimal, int), _>(err),
        },
{
    let ie = digit_end(t, s);
    proof {
        lemma_digit_run_end(t@, s as int);
    }
    if ie < t.len() && t[ie] == '.' {
        let fe = digit_end(t, ie + 1);
        proof {
            lemma_digit_run_end(t@, ie + 1);
        }
        if ie == s && fe == ie + 1 {
            proof {
                assert(t@.subrange(s as int, ie as int) + t@.subrange(ie + 1, fe as int)
                    =~= Seq::<char>::empty());
            }
            return Err(NumErr::Shape);
        }
        if fe - (ie + 1) > u32::MAX as usize {
            proof {
                let digs = t@.subrange(s as int, ie as int) + t@.subrange(ie + 1, fe as int);
                assert(digs.len() > 0);
            }
            return Err(NumErr::TooBig);
        }
        proof {
            assert(Seq::<char>::empty() + t@.subrange(s as int, ie as int) =~= t@.subrange(
                s as int,
                ie as int,
            ));
        }
        let iv = accum_digits(t, s, ie, 0, Ghost(Seq::<char>::empty()));
        match iv {
            None => {
                proof {
                    let idigs = t@.subrange(s as int, ie as int);
                    let digs = idigs + t@.subrange(ie + 1, fe as int);
                    crate::scan::lemma_digits_val_extend(idigs, t@.subrange(ie + 1, fe as int));
                }
                Err(NumErr::TooBig)
            },
            Some(v) => {
                let ghost idigs = t@.subrange(s as int, ie as int);
                let mv = accum_digits(t, ie + 1, fe, v, Ghost(idigs));
                match mv {
                    None => Err(NumErr::TooBig),
                    Some(m) => {
                        let d = Decimal {
                            neg: false,
                            mantissa: m,
                            scale: (fe - (ie + 1)) as u32,
                            exp: 0,
                        };
                        Ok((d, fe))
                    },
                }
            },
        }
    } else {
        match take_u64(t, s) {
            Err(err) => Err(err),
            Ok((v, e)) => Ok((Decimal { neg: false, mantissa: v, scale: 0, exp: 0 }, e)),
        }
    }
}

/// Reads the exponent part beginning at `q`.
pub fn take_exp(t: &Vec<char>, q: usize) -> (r: Result<(i32, usize), NumErr>)
    requires
        q <= t@.len(),
    ensures
        match r {
            Ok((x, e)) => scan_exp_at(t@, q as int) == Ok::<_, NumErr>((x, e as int)),
            Err(err) => scan_exp_at(t@, q as int) == Err::<(i32, int), _>(err),
        },
{
    if q < t.len() && (t[q] == 'e' || t[q] == 'E') {
        let mut eneg = false;
        let mut r: usize = q + 1;
        if q + 1 < t.len() && (t[q + 1] == '+' || t[q + 1] == '-') {
            eneg = t[q + 1] == '-';
            r = q + 2;
        }
        match take_u64(t, r) {
            Err(err) => Err(err),
            Ok((v, ee)) => {
                if v > i32::MAX as u64 {
                    Err(NumErr::TooBig)
                } else {
                    let x = if eneg {
                        (-(v as i64)) as i32
                    } else {
                        v as i32
                    };
                    Ok((x, ee))
                }
            },
        }
    } else {
        Ok((0, q))
    }
}

/// Reads the strict numeral shape beginning at `s`.
#[verifier::rlimit(60)]
#[verifier::spinoff_prover]
pub fn take_sci(t: &Vec<char>, s: usize) -> (r: Result<(Decimal, usize), NumErr>)
    requires
        s <= t@.len(),
    ensures
        match r {
            Ok((d, e)) => scan_sci_at(t@, s as int) == Ok::<_, NumErr>((d, e as int)),
            Err(err) => scan_sci_at(t@, s as int) == Err::<(Decimal, int), _>(err),
        },
{
    let mut neg = false;
    let mut p: usize = s;
    if s < t.len() && (t[s] == '+' || t[s] == '-') {
        neg = t[s] == '-';
        p = s + 1;
    }
    if !(p < t.len()) {
        return Err(NumErr::Shape);
    }
    let c0 = t[p] as u32;
    if !(48 <= c0 && c0 <= 57) {
        return Err(NumErr::Shape);
    }
    if t[p] == '0' && p + 1 < t.len() {
        let c1 = t[p + 1] as u32;
        if 48 <= c1 && c1 <= 57 {
            return Err(NumErr::Shape);
        }
    }
    let ie = digit_end(t, p);
    proof {
        lemma_digit_run_end(t@, p as int);
    }
    let dotted = ie < t.len() && t[ie] == '.';
    let fs = if dotted {
        ie + 1
    } else {
        ie
    };
    let fe = if dotted {
        digit_end(t, ie + 1)
    } else {
        ie
    };
    proof {
        lemma_digit_run_end(t@, fs as int);
        if !dotted {
            assert(t@.subrange(fs as int, fe as int) =~= Seq::<char>::empty());
        }
    }
    if fe - fs > u32::MAX as usize {
        return Err(NumErr::TooBig);
    }
    proof {
        assert(Seq::<char>::empty() + t@.subrange(p as int, ie as int) =~= t@.subrange(
            p as int,
            ie as int,
        ));
    }
    let iv = accum_digits(t, p, ie, 0, Ghost(Seq::<char>::empty()));
    let ghost idigs = t@.subrange(p as int, ie as int);
    match iv {
        None => {
            proof {
                crate::scan::lemma_digits_val_extend(idigs, t@.subrange(fs as int, fe as int));
            }
            Err(NumErr::TooBig)
        },
        Some(v) => {
            let mv = accum_digits(t, fs, fe, v, Ghost(idigs));
            match mv {
                None => Err(NumErr::TooBig),
                Some(m) => {
                    match take_exp(t, fe) {
                        Err(err) => Err(err),
                        Ok((ex, end)) => {
                            let d = Decimal { neg, mantissa: m, scale: (fe - fs) as u32, exp: ex };
                            Ok((d, end))
                        },
                    }
                },
            }
        },
    }
}

/// A successful loose scan ends inside the text.
pub proof fn lemma_scan_simple_end(t: Seq<char>, s: int)
    requires
        0 <= s <= t.len(),
        scan_simple_at(t, s) is Ok,
    ensures
        s <= scan_simple_at(t, s)->Ok_0.1 <= t.len(),
{
    lemma_digit_run_end(t, s);
    let ie = digit_run_end(t, s);
    if ie < t.len() && t[ie] == '.' {
        lemma_digit_run_end(t, ie + 1);
    }
}

/// The canonical text of an unsigned, exponent-free decimal: the integer
/// part, then, when `scale` is positive, a point and `scale` fractional
/// digits.
pub open spec fn fmt_dec(d: Decimal) -> Seq<char> {
    if d.scale == 0 {
        dec_digits_of(d.mantissa as nat)
    } else {
        dec_digits_of((d.mantissa as nat) / pow10(d.scale as nat)) + seq!['.']
            + padded_digits_of(d.mantissa as nat, d.scale as nat)
    }
}

/// Scanning the canonical text of an unsigned, exponent-free decimal gives
/// that decimal back, provided the text is followed by nothing a numeral
/// could continue with (a digit, or a point after a scale-free numeral).
pub proof fn lemma_scan_simple_fmt(t: Seq<char>, pos: int, d: Decimal)
    requires
        !d.neg,
        d.exp == 0,
        0 <= pos,
        pos + fmt_dec(d).len() <= t.len(),
        t.subrange(pos, pos + fmt_dec(d).len()) == fmt_dec(d),
        pos + fmt_dec(d).len() < t.len() ==> {
            let c = t[pos + fmt_dec(d).len()];
            !is_digit(c) && c != '.'
        },
    ensures
        scan_simple_at(t, pos) == Ok::<_, NumErr>((d, pos + fmt_dec(d).len())),
{
    let m = d.mantissa as nat;
    let sc = d.scale as nat;
    let f = fmt_dec(d);
    let end = pos + f.len();
    if d.scale == 0 {
        let ip = dec_digits_of(m);
        lemma_dec_digits_of(m);
        assert(forall|j: int| pos <= j < end ==> t[j] == ip[j - pos]);
        lemma_digit_run_end_exact(t, pos, end);
        assert(t.subrange(pos, end) =~= ip);
        assert(digits_val(t.subrange(pos, end)) == m);
    } else {
        let p = pow10(sc);
        lemma_pow10_pos(sc);
        let ip = dec_digits_of(m / p);
        let fp = padded_digits_of(m, sc);
        lemma_dec_digits_of(m / p);
        lemma_padded_digits_of(m, sc);
        let ie = pos + ip.len();
        let fs = ie + 1;
        assert(forall|j: int| pos <= j < end ==> t[j] == f[j - pos]);
        assert(forall|j: int| pos <= j < ie ==> t[j] == ip[j - pos]);
        assert(t[ie] == '.');
        assert(forall|j: int| fs <= j < end ==> t[j] == fp[j - fs]);
        lemma_digit_run_end_exact(t, pos, ie);
        lemma_digit_run_end_exact(t, fs, end);
        assert(t.subrange(pos, ie) =~= ip);
        assert(t.subrange(fs, end) =~= fp);
        let digs = t.subrange(pos, ie) + t.subrange(fs, end);
        lemma_digits_val_concat(ip, fp);
        assert(digits_val(digs) == (m / p) * p + m % p);
        vstd::arithmetic::div_mod::lemma_fundamental_div_mod(m as int, p as int);
        assert((m / p) * p + m % p == p * (m / p) + m % p) by (nonlinear_arith);
        assert(digits_val(digs) == m);
        assert(end - fs == sc);
    }
}

/// Renders an unsigned, exponent-free decimal as its canonical text.
pub fn render_dec(d: &Decimal) -> (v: Vec<char>)
    requires
        !d.neg,
        d.exp == 0,
    ensures
        v@ == fmt_dec(*d),
{
    if d.scale == 0 {
        render_u64(d.mantissa)
    } else {
        let whole = match pow10_checked(d.scale) {
            Some(p) => {
                proof {
                    lemma_pow10_pos(d.scale as nat);
                }
                d.mantissa / p
            },
            None => {
                proof {
                    vstd::arithmetic::div_mod::lemma_basic_div(
                        d.mantissa as int,
                        pow10(d.scale as nat) as int,
                    );
                }
                0u64
            },
        };
        let mut v = render_u64(whole);
        v.push('.');
        let mut f = render_padded(d.mantissa, d.scale);
        v.append(&mut f);
        proof {
            assert(v@ =~= fmt_dec(*d));
        }
        v
    }
}

/// `10^n` when it fits in `u64`.
fn pow10_checked(n: u32) -> (r: Option<u64>)
    ensures
        match r {
            Some(p) => p == pow10(n as nat),
            None => pow10(n as nat) > u64::MAX,
        },
{
    let mut i: u32 = 0;
    let mut acc: u64 = 1;
    while i < n
        invariant
            i <= n,
            acc == pow10(i as nat),
        decreases n - i,
    {
        match acc.checked_mul(10) {
            Some(next) => {
                acc = next;
            },
            None => {
                proof {
                    lemma_pow10_mono((i + 1) as nat, n as nat);
                }
                return None;
            },
        }
        i = i + 1;
    }
    Some(acc)
}

/// `pow10` is monotone.
pub proof fn lemma_pow10_mono(a: nat, b: nat)
    requires
        a <= b,
    ensures
        pow10(a) <= pow10(b),
    decreases b,
{
    if a < b {
        lemma_pow10_mono(a, (b - 1) as nat);
        lemma_pow10_pos((b - 1) as nat);
    }
}

} // verus!
