//! Integer coercion of digit runs, and the canonical digit rendering used to
//! state round-trip laws.

use vstd::prelude::*;
use crate::scan::{
    digit_run_end, digit_val, digits_val, is_digit, lemma_digit_run_end, lemma_digits_val_push,
    digit_end, accum_digits,
};

verus! {

/// Why a numeral failed to coerce: the text lacks the required digit shape,
/// or the value does not fit the target type.
#[derive(Debug, PartialEq, Eq, Clone, Copy)]
pub enum NumErr {
    Shape,
    TooBig,
}

/// The digit run of `t` beginning at `s`, coerced to `u64`: its value and
/// the index just past it.  An empty run is a shape failure; a value above
/// `u64::MAX` is an overflow failure.
pub open spec fn scan_u64_at(t: Seq<char>, s: int) -> Result<(u64, int), NumErr> {
    let e = digit_run_end(t, s);
    if e == s {
        Err(NumErr::Shape)
    } else if digits_val(t.subrange(s, e)) > u64::MAX {
        Err(NumErr::TooBig)
    } else {
        Ok((digits_val(t.subrange(s, e)) as u64, e))
    }
}

/// The digit run of `t` beginning at `s`, coerced to `i32` (decimal text is
/// never negative, so the bound is `i32::MAX`).
pub open spec fn scan_i32_at(t: Seq<char>, s: int) -> Result<(i32, int), NumErr> {
    match scan_u64_at(t, s) {
        Err(e) => Err(e),
        Ok((v, e)) => if v > i32::MAX as u64 {
            Err(NumErr::TooBig)
        } else {
            Ok((v as i32, e))
        },
    }
}

/// Reads the digit run beginning at `s` as a `u64`.
pub fn take_u64(t: &Vec<char>, s: usize) -> (r: Result<(u64, usize), NumErr>)
    requires
        s <= t@.len(),
    ensures
        match r {
            Ok((v, e)) => scan_u64_at(t@, s as int) == Ok::<_, NumErr>((v, e as int)),
            Err(err) => scan_u64_at(t@, s as int) == Err::<(u64, int), _>(err),
        },
{
    let e = digit_end(t, s);
    if e == s {
        return Err(NumErr::Shape);
    }
    proof {
        lemma_digit_run_end(t@, s as int);
        assert(Seq::<char>::empty() + t@.subrange(s as int, e as int) =~= t@.subrange(
            s as int,
            e as int,
        ));
    }
    match accum_digits(t, s, e, 0, Ghost(Seq::<char>::empty())) {
        None => Err(NumErr::TooBig),
        Some(v) => Ok((v, e)),
    }
}

/// Reads the digit run beginning at `s` as an `i32`.
pub fn take_i32(t: &Vec<char>, s: usize) -> (r: Result<(i32, usize), NumErr>)
    requires
        s <= t@.len(),
    ensures
        match r {
            Ok((v, e)) => scan_i32_at(t@, s as int) == Ok::<_, NumErr>((v, e as int)),
            Err(err) => scan_i32_at(t@, s as int) == Err::<(i32, int), _>(err),
        },
{
    match take_u64(t, s) {
        Err(err) => Err(err),
        Ok((v, e)) => {
            if v > i32::MAX as u64 {
                Err(NumErr::TooBig)
            } else {
                Ok((v as i32, e))
            }
        },
    }
}

/// The decimal digit character for a value below ten.
pub open spec fn digit_char(d: nat) -> char {
    ((d + 48) as u8) as char
}

/// The canonical decimal numeral of `n`: no sign, no leading zero except for
/// the numeral `0` itself.
pub open spec fn dec_digits_of(n: nat) -> Seq<char>
    decreases n,
{
    if n < 10 {
        seq![digit_char(n)]
    } else {
        dec_digits_of(n / 10).push(digit_char((n % 10) as nat))
    }
}

/// The canonical numeral holds only digits and reads back as its value.
pub proof fn lemma_dec_digits_of(n: nat)
    ensures
        dec_digits_of(n).len() >= 1,
        forall|j: int| 0 <= j < dec_digits_of(n).len() ==> is_digit(dec_digits_of(n)[j]),
        digits_val(dec_digits_of(n)) == n,
    decreases n,
{
    if n < 10 {
        assert(dec_digits_of(n) =~= seq![digit_char(n)]);
        assert(digits_val(dec_digits_of(n)) == digits_val(
            dec_digits_of(n).drop_last(),
        ) * 10 + digit_val(digit_char(n)));
        assert(dec_digits_of(n).drop_last() =~= Seq::<char>::empty());
        assert(digit_val(digit_char(n)) == n);
    } else {
        lemma_dec_digits_of(n / 10);
        lemma_digits_val_push(dec_digits_of(n / 10), digit_char((n % 10) as nat));
        assert(digit_val(digit_char((n % 10) as nat)) == n % 10);
    }
}

/// Renders `n` as its canonical decimal numeral.
pub fn render_u64(n: u64) -> (v: Vec<char>)
    ensures
        v@ == dec_digits_of(n as nat),
    decreases n,
{
    if n < 10 {
        let mut v: Vec<char> = Vec::new();
        let c = ((n as u8) + 48) as char;
        v.push(c);
        proof {
            assert(c == digit_char(n as nat));
            assert(v@ =~= seq![digit_char(n as nat)]);
        }
        v
    } else {
        let mut v = render_u64(n / 10);
        let c = (((n % 10) as u8) + 48) as char;
        v.push(c);
        proof {
            assert(c == digit_char((n as nat) % 10));
        }
        v
    }
}

/// Renders the last `w` digits of `n`, zero padded on the left to width `w`.
pub fn render_padded(n: u64, w: u32) -> (v: Vec<char>)
    ensures
        v@ == padded_digits_of(n as nat, w as nat),
    decreases w,
{
    if w == 0 {
        let v: Vec<char> = Vec::new();
        proof {
            assert(v@ =~= padded_digits_of(n as nat, 0));
        }
        v
    } else {
        let mut v = render_padded(n / 10, w - 1);
        let c = (((n % 10) as u8) + 48) as char;
        v.push(c);
        proof {
            assert(c == digit_char((n as nat) % 10));
        }
        v
    }
}

/// The last `w` decimal digits of `n`, zero padded on the left to width `w`.
pub open spec fn padded_digits_of(n: nat, w: nat) -> Seq<char>
    decreases w,
{
    if w == 0 {
        Seq::empty()
    } else {
        padded_digits_of(n / 10, (w - 1) as nat).push(digit_char((n % 10) as nat))
    }
}

/// Ten to the `n`.
pub open spec fn pow10(n: nat) -> nat
    decreases n,
{
    if n == 0 {
        1
    } else {
        10 * pow10((n - 1) as nat)
    }
}

/// `pow10` is positive.
pub proof fn lemma_pow10_pos(n: nat)
    ensures
        pow10(n) >= 1,
    decreases n,
{
    if n > 0 {
        lemma_pow10_pos((n - 1) as nat);
    }
}

/// Reading two digit sequences as one numeral shifts the first by the
/// length of the second.
pub proof fn lemma_digits_val_concat(a: Seq<char>, b: Seq<char>)
    ensures
        digits_val(a + b) == digits_val(a) * pow10(b.len()) + digits_val(b),
    decreases b.len(),
{
    if b.len() == 0 {
        assert(a + b =~= a);
        assert(pow10(0) == 1);
    } else {
        let b1 = b.drop_last();
        let c = b.last();
        lemma_digits_val_concat(a, b1);
        assert((a + b).drop_last() =~= a + b1);
        assert(digits_val(a + b) == digits_val(a + b1) * 10 + digit_val(c));
        assert(pow10(b.len()) == 10 * pow10(b1.len()));
        assert((digits_val(a) * pow10(b1.len()) + digits_val(b1)) * 10 == digits_val(a) * (10
            * pow10(b1.len())) + digits_val(b1) * 10) by (nonlinear_arith);
    }
}

/// The padded numeral holds exactly `w` digits and reads back as
/// `n % pow10(w)`.
pub proof fn lemma_padded_digits_of(n: nat, w: nat)
    ensures
        padded_digits_of(n, w).len() == w,
        forall|j: int| 0 <= j < w ==> is_digit(padded_digits_of(n, w)[j]),
        digits_val(padded_digits_of(n, w)) == n % pow10(w),
    decreases w,
{
    if w == 0 {
        assert(pow10(0) == 1);
    } else {
        let q = n / 10;
        let r = (n % 10) as nat;
        let w1 = (w - 1) as nat;
        lemma_padded_digits_of(q, w1);
        lemma_digits_val_push(padded_digits_of(q, w1), digit_char(r));
        assert(digit_val(digit_char(r)) == r);
        lemma_pow10_pos(w1);
        // n % pow10(w) == (q % pow10(w1)) * 10 + r
        let p1 = pow10(w1);
        let p = pow10(w);
        assert(p == 10 * p1);
        let qq = q / p1;
        let qr = q % p1;
        vstd::arithmetic::div_mod::lemma_fundamental_div_mod(q as int, p1 as int);
        assert(q == p1 * qq + qr);
        assert(n == 10 * q + r) by {
            vstd::arithmetic::div_mod::lemma_fundamental_div_mod(n as int, 10);
        }
        assert(n == 10 * (p1 * qq + qr) + r);
        assert(10 * (p1 * qq + qr) + r == p * qq + (qr * 10 + r)) by (nonlinear_arith)
            requires
                p == 10 * p1,
        ;
        assert(qr * 10 + r < p) by (nonlinear_arith)
            requires
                qr < p1,
                r < 10,
                p == 10 * p1,
                p1 >= 1,
        ;
        vstd::arithmetic::div_mod::lemma_fundamental_div_mod_converse(
            n as int,
            p as int,
            qq as int,
            (qr * 10 + r) as int,
        );
        assert(n % p == qr * 10 + r);
    }
}

} // verus!
