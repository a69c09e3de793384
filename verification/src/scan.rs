//! Character-level scanning primitives shared by the extractors: substring
//! search, digit runs, and the numeric value of a digit sequence.

use vstd::prelude::*;

verus! {

/// True when `pat` occurs in `t` starting exactly at index `i`.
pub open spec fn is_match_at(t: Seq<char>, pat: Seq<char>, i: int) -> bool {
    &&& 0 <= i
    &&& i + pat.len() <= t.len()
    &&& forall|k: int| 0 <= k < pat.len() ==> t[i + k] == pat[k]
}

/// True when `pat` occurs somewhere in `t`.
pub open spec fn contains_pat(t: Seq<char>, pat: Seq<char>) -> bool {
    exists|i: int| is_match_at(t, pat, i)
}

/// Index of the first occurrence of `pat` in `t` at or after `from`.
pub open spec fn find_from(t: Seq<char>, pat: Seq<char>, from: int) -> Option<int>
    decreases t.len() - from,
{
    if from + pat.len() > t.len() {
        None
    } else if is_match_at(t, pat, from) {
        Some(from)
    } else {
        find_from(t, pat, from + 1)
    }
}

/// A found index is a match, and no earlier index at or after `from` matches.
pub proof fn lemma_find_from_found(t: Seq<char>, pat: Seq<char>, from: int, i: int)
    requires
        find_from(t, pat, from) == Some(i),
    ensures
        from <= i,
        is_match_at(t, pat, i),
        forall|j: int| from <= j < i ==> !is_match_at(t, pat, j),
    decreases t.len() - from,
{
    if from + pat.len() > t.len() {
    } else if is_match_at(t, pat, from) {
    } else {
        lemma_find_from_found(t, pat, from + 1, i);
    }
}

/// When the search fails, no index at or after `from` matches.
pub proof fn lemma_find_from_none(t: Seq<char>, pat: Seq<char>, from: int)
    requires
        find_from(t, pat, from) is None,
    ensures
        forall|j: int| from <= j ==> !is_match_at(t, pat, j),
    decreases t.len() - from,
{
    if from + pat.len() > t.len() {
    } else if is_match_at(t, pat, from) {
    } else {
        lemma_find_from_none(t, pat, from + 1);
    }
}

/// A match at `i`, with no match between `from` and `i`, is what the search
/// from `from` finds.
pub proof fn lemma_find_from_exact(t: Seq<char>, pat: Seq<char>, from: int, i: int)
    requires
        from <= i,
        is_match_at(t, pat, i),
        forall|j: int| from <= j < i ==> !is_match_at(t, pat, j),
    ensures
        find_from(t, pat, from) == Some(i),
    decreases i - from,
{
    if from < i {
        lemma_find_from_exact(t, pat, from + 1, i);
    }
}

/// A text without any occurrence of `pat` makes every search fail.
pub proof fn lemma_no_occurrence(t: Seq<char>, pat: Seq<char>, from: int)
    requires
        !contains_pat(t, pat),
    ensures
        find_from(t, pat, from) is None,
{
    if find_from(t, pat, from) is Some {
        let i = find_from(t, pat, from)->Some_0;
        lemma_find_from_found(t, pat, from, i);
        assert(is_match_at(t, pat, i));
    }
}

/// True for the ten decimal digit characters.
pub open spec fn is_digit(c: char) -> bool {
    48 <= c as u32 <= 57
}

/// The numeric value of a digit character.
pub open spec fn digit_val(c: char) -> nat {
    (c as u32 - 48) as nat
}

/// Index of the first non-digit character at or after `i` (or the end of `t`).
pub open spec fn digit_run_end(t: Seq<char>, i: int) -> int
    decreases t.len() - i,
{
    if 0 <= i < t.len() && is_digit(t[i]) {
        digit_run_end(t, i + 1)
    } else {
        i
    }
}

/// The digit run stays inside `t`, holds only digits, and stops at a
/// non-digit or at the end.
pub proof fn lemma_digit_run_end(t: Seq<char>, i: int)
    requires
        0 <= i <= t.len(),
    ensures
        i <= digit_run_end(t, i) <= t.len(),
        forall|j: int| i <= j < digit_run_end(t, i) ==> is_digit(t[j]),
        digit_run_end(t, i) < t.len() ==> !is_digit(t[digit_run_end(t, i)]),
    decreases t.len() - i,
{
    if 0 <= i < t.len() && is_digit(t[i]) {
        lemma_digit_run_end(t, i + 1);
    }
}

/// A run known to hold digits in `[a, b)` and to stop at `b` ends at `b`.
pub proof fn lemma_digit_run_end_exact(t: Seq<char>, a: int, b: int)
    requires
        0 <= a <= b <= t.len(),
        forall|j: int| a <= j < b ==> is_digit(t[j]),
        b == t.len() || !is_digit(t[b]),
    ensures
        digit_run_end(t, a) == b,
    decreases b - a,
{
    if a < b {
        lemma_digit_run_end_exact(t, a + 1, b);
    }
}

/// True for the word characters of the report grammar: letters, digits and
/// the underscore.
pub open spec fn is_word_char(c: char) -> bool {
    ||| 97 <= c as u32 <= 122
    ||| 65 <= c as u32 <= 90
    ||| is_digit(c)
    ||| c as u32 == 95
}

/// Index of the first non-word character at or after `i` (or the end of `t`).
pub open spec fn word_run_end(t: Seq<char>, i: int) -> int
    decreases t.len() - i,
{
    if 0 <= i < t.len() && is_word_char(t[i]) {
        word_run_end(t, i + 1)
    } else {
        i
    }
}

/// A run known to hold word characters in `[a, b)` and to stop at `b` ends
/// at `b`.
pub proof fn lemma_word_run_end_exact(t: Seq<char>, a: int, b: int)
    requires
        0 <= a <= b <= t.len(),
        forall|j: int| a <= j < b ==> is_word_char(t[j]),
        b == t.len() || !is_word_char(t[b]),
    ensures
        word_run_end(t, a) == b,
    decreases b - a,
{
    if a < b {
        lemma_word_run_end_exact(t, a + 1, b);
    }
}

/// Index of the first non-word character at or after `from`.
pub fn word_end(t: &Vec<char>, from: usize) -> (e: usize)
    requires
        from <= t@.len(),
    ensures
        e == word_run_end(t@, from as int),
        from <= e <= t@.len(),
{
    let mut i: usize = from;
    loop
        invariant
            from <= i <= t@.len(),
            word_run_end(t@, from as int) == word_run_end(t@, i as int),
        decreases t@.len() - i,
    {
        if i >= t.len() {
            return i;
        }
        let c = t[i] as u32;
        let word = (97 <= c && c <= 122) || (65 <= c && c <= 90) || (48 <= c && c <= 57) || c == 95;
        if !word {
            return i;
        }
        i = i + 1;
    }
}

/// The value of a digit sequence read as a decimal numeral.
pub open spec fn digits_val(s: Seq<char>) -> nat
    decreases s.len(),
{
    if s.len() == 0 {
        0
    } else {
        digits_val(s.drop_last()) * 10 + digit_val(s.last())
    }
}

/// Appending one digit multiplies the value by ten and adds the digit.
pub proof fn lemma_digits_val_push(s: Seq<char>, c: char)
    ensures
        digits_val(s.push(c)) == digits_val(s) * 10 + digit_val(c),
{
    assert(s.push(c).drop_last() =~= s);
}

/// Extending a digit sequence on the right never lowers its value.
pub proof fn lemma_digits_val_extend(s: Seq<char>, ext: Seq<char>)
    ensures
        digits_val(s) <= digits_val(s + ext),
    decreases ext.len(),
{
    if ext.len() == 0 {
        assert(s + ext =~= s);
    } else {
        lemma_digits_val_extend(s, ext.drop_last());
        assert((s + ext).drop_last() =~= s + ext.drop_last());
        assert(digits_val(s + ext) == digits_val(s + ext.drop_last()) * 10 + digit_val(
            (s + ext).last(),
        ));
    }
}

/// The characters of `text`, in order.
pub fn chars_of(text: &str) -> (r: Vec<char>)
    ensures
        r@ == text@,
{
    let n = text.unicode_len();
    let mut v: Vec<char> = Vec::new();
    let mut i: usize = 0;
    while i < n
        invariant
            n == text@.len(),
            i <= n,
            v@ == text@.take(i as int),
        decreases n - i,
    {
        let c = text.get_char(i);
        v.push(c);
        assert(v@ =~= text@.take(i + 1));
        i = i + 1;
    }
    assert(v@ =~= text@);
    v
}

/// Whether `pat` occurs in `t` starting exactly at `i`.
pub fn match_at(t: &Vec<char>, pat: &str, i: usize) -> (b: bool)
    ensures
        b == is_match_at(t@, pat@, i as int),
{
    let m = pat.unicode_len();
    if m > t.len() || i > t.len() - m {
        return false;
    }
    let n = t.len();
    let mut k: usize = 0;
    while k < m
        invariant
            m == pat@.len(),
            n == t@.len(),
            i + m <= n,
            k <= m,
            forall|j: int| 0 <= j < k ==> t@[i + j] == pat@[j],
        decreases m - k,
    {
        if t[i + k] != pat.get_char(k) {
            return false;
        }
        k = k + 1;
    }
    true
}

/// Index of the first occurrence of `pat` in `t` at or after `from`.
pub fn find_in(t: &Vec<char>, pat: &str, from: usize) -> (r: Option<usize>)
    requires
        from <= t@.len(),
    ensures
        match r {
            Some(i) => {
                &&& find_from(t@, pat@, from as int) == Some(i as int)
                &&& from <= i <= t@.len()
            },
            None => find_from(t@, pat@, from as int) is None,
        },
{
    let m = pat.unicode_len();
    if m > t.len() || from > t.len() - m {
        return None;
    }
    let mut i: usize = from;
    while i <= t.len() - m
        invariant
            m == pat@.len(),
            m <= t@.len(),
            from <= i <= t@.len() - m + 1,
            find_from(t@, pat@, from as int) == find_from(t@, pat@, i as int),
        decreases t@.len() - i,
    {
        if match_at(t, pat, i) {
            return Some(i);
        }
        i = i + 1;
    }
    None
}

/// Index of the first non-digit character at or after `from`.
pub fn digit_end(t: &Vec<char>, from: usize) -> (e: usize)
    requires
        from <= t@.len(),
    ensures
        e == digit_run_end(t@, from as int),
        from <= e <= t@.len(),
{
    let mut i: usize = from;
    loop
        invariant
            from <= i <= t@.len(),
            digit_run_end(t@, from as int) == digit_run_end(t@, i as int),
        decreases t@.len() - i,
    {
        if i >= t.len() {
            return i;
        }
        let c = t[i] as u32;
        if c < 48 || c > 57 {
            return i;
        }
        i = i + 1;
    }
}

/// Appends the digits of `t` in `[from, to)` to an accumulated value, or
/// reports that the combined numeral exceeds `u64::MAX`.
///
/// `prefix` is the digit sequence already accumulated into `acc`.
pub fn accum_digits(
    t: &Vec<char>,
    from: usize,
    to: usize,
    acc: u64,
    Ghost(prefix): Ghost<Seq<char>>,
) -> (r: Option<u64>)
    requires
        from <= to <= t@.len(),
        forall|j: int| from <= j < to ==> is_digit(t@[j]),
        acc == digits_val(prefix),
    ensures
        match r {
            Some(v) => v == digits_val(prefix + t@.subrange(from as int, to as int)),
            None => digits_val(prefix + t@.subrange(from as int, to as int)) > u64::MAX,
        },
{
    let mut i: usize = from;
    let mut a: u64 = acc;
    while i < to
        invariant
            from <= i <= to <= t@.len(),
            forall|j: int| from <= j < to ==> is_digit(t@[j]),
            a == digits_val(prefix + t@.subrange(from as int, i as int)),
        decreases to - i,
    {
        let ghost digs = prefix + t@.subrange(from as int, i as int);
        let c = t[i];
        let d: u64 = ((c as u32) - 48) as u64;
        proof {
            lemma_digits_val_push(digs, c);
            assert(prefix + t@.subrange(from as int, i + 1) =~= digs.push(c));
        }
        let m = a.checked_mul(10);
        match m {
            None => {
                proof {
                    lemma_digits_val_extend(digs.push(c), t@.subrange(i + 1, to as int));
                    assert(digs.push(c) + t@.subrange(i + 1, to as int) =~= prefix + t@.subrange(
                        from as int,
                        to as int,
                    ));
                }
                return None;
            },
            Some(a10) => {
                let s = a10.checked_add(d);
                match s {
                    None => {
                        proof {
                            lemma_digits_val_extend(digs.push(c), t@.subrange(i + 1, to as int));
                            assert(digs.push(c) + t@.subrange(i + 1, to as int) =~= prefix
                                + t@.subrange(from as int, to as int));
                        }
                        return None;
                    },
                    Some(next) => {
                        a = next;
                    },
                }
            },
        }
        i = i + 1;
    }
    Some(a)
}

} // verus!
