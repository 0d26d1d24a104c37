//! Parsing a captured numeric token (digits with at most one dot) into a
//! fixed-point reading in hundredths of a unit.
//!
//! Readings are held as integer hundredths so that the two-decimal display
//! precision is exact.  Fractional digits beyond the second round half up; a
//! value beyond what fits in `u64` hundredths saturates at `u64::MAX`.

use vstd::prelude::*;
use vstd::string::StrSliceExecFns;
use crate::text::{is_digit_char, is_num_char};

verus! {

/// The numeric value of a digit character (0 for any other character).
pub open spec fn digit_val(c: char) -> int {
    if c == '0' {
        0
    } else if c == '1' {
        1
    } else if c == '2' {
        2
    } else if c == '3' {
        3
    } else if c == '4' {
        4
    } else if c == '5' {
        5
    } else if c == '6' {
        6
    } else if c == '7' {
        7
    } else if c == '8' {
        8
    } else if c == '9' {
        9
    } else {
        0
    }
}

/// How many dots a token holds.
pub open spec fn dot_count(t: Seq<char>) -> nat
    decreases t.len(),
{
    if t.len() == 0 {
        0
    } else {
        dot_count(t.drop_last()) + if t.last() == '.' {
            1nat
        } else {
            0nat
        }
    }
}

/// A token the parser accepts: numeric characters only, at most one dot,
/// at least one digit.
pub open spec fn well_formed_token(t: Seq<char>) -> bool {
    &&& forall|k: int| 0 <= k < t.len() ==> is_num_char(t[k])
    &&& dot_count(t) <= 1
    &&& exists|k: int| 0 <= k < t.len() && is_digit_char(t[k])
}

/// The index of the first dot in `t` at or after `i`, or `t.len()` if there
/// is none.
pub open spec fn first_dot_from(t: Seq<char>, i: int) -> int
    decreases t.len() - i when 0 <= i <= t.len()
{
    if i < 0 || i >= t.len() {
        t.len() as int
    } else if t[i] == '.' {
        i
    } else {
        first_dot_from(t, i + 1)
    }
}

/// The index of the first dot in `t`, or `t.len()` if there is none.
pub open spec fn first_dot(t: Seq<char>) -> int {
    first_dot_from(t, 0)
}

/// What `first_dot_from` returns: the leftmost dot position.
pub proof fn lemma_first_dot_from(t: Seq<char>, i: int)
    requires
        0 <= i <= t.len(),
    ensures
        i <= first_dot_from(t, i) <= t.len(),
        first_dot_from(t, i) < t.len() ==> t[first_dot_from(t, i)] == '.',
        forall|k: int| i <= k < first_dot_from(t, i) ==> t[k] != '.',
    decreases t.len() - i,
{
    if i < t.len() && t[i] != '.' {
        lemma_first_dot_from(t, i + 1);
    }
}

/// The integer digits of `t`: everything before the first dot.
pub open spec fn int_digits(t: Seq<char>) -> Seq<char> {
    t.take(first_dot(t))
}

/// The fractional digits of `t`: everything after the first dot.
pub open spec fn frac_digits(t: Seq<char>) -> Seq<char> {
    if first_dot(t) < t.len() {
        t.subrange(first_dot(t) + 1, t.len() as int)
    } else {
        Seq::empty()
    }
}

/// The value of a digit sequence read as a decimal numeral.
pub open spec fn digits_val(ds: Seq<char>) -> int
    decreases ds.len(),
{
    if ds.len() == 0 {
        0
    } else {
        digits_val(ds.drop_last()) * 10 + digit_val(ds.last())
    }
}

/// A decimal numeral is never negative.
pub proof fn lemma_digits_val_nonneg(ds: Seq<char>)
    ensures
        digits_val(ds) >= 0,
    decreases ds.len(),
{
    if ds.len() > 0 {
        lemma_digits_val_nonneg(ds.drop_last());
    }
}

/// The value of the fractional digits in hundredths, truncated to two
/// digits.
pub open spec fn frac_centi(fs: Seq<char>) -> int {
    if fs.len() == 0 {
        0
    } else if fs.len() == 1 {
        digit_val(fs[0]) * 10
    } else {
        digit_val(fs[0]) * 10 + digit_val(fs[1])
    }
}

/// One extra hundredth when the third fractional digit rounds up.
pub open spec fn round_bit(fs: Seq<char>) -> int {
    if fs.len() >= 3 && digit_val(fs[2]) >= 5 {
        1
    } else {
        0
    }
}

/// The mathematical value of a well-formed token, in hundredths, rounded
/// half up at the second fractional digit.
pub open spec fn token_centi(t: Seq<char>) -> int {
    digits_val(int_digits(t)) * 100 + frac_centi(frac_digits(t)) + round_bit(frac_digits(t))
}

/// What parsing a token yields: `None` for a malformed token, otherwise the
/// value in hundredths, saturated at `u64::MAX`.
pub open spec fn parse_spec(t: Seq<char>) -> Option<u64> {
    if !well_formed_token(t) {
        None
    } else if token_centi(t) > u64::MAX {
        Some(u64::MAX)
    } else {
        Some(token_centi(t) as u64)
    }
}

/// A sequence of digit characters holds no dot.
pub proof fn lemma_dot_count_of_digits(ds: Seq<char>)
    requires
        forall|k: int| 0 <= k < ds.len() ==> is_digit_char(#[trigger] ds[k]),
    ensures
        dot_count(ds) == 0,
    decreases ds.len(),
{
    if ds.len() > 0 {
        lemma_dot_count_of_digits(ds.drop_last());
    }
}

/// The numeric value of a digit character.
pub fn digit_val_exec(c: char) -> (d: u64)
    ensures
        d == digit_val(c),
{
    if c == '0' {
        0
    } else if c == '1' {
        1
    } else if c == '2' {
        2
    } else if c == '3' {
        3
    } else if c == '4' {
        4
    } else if c == '5' {
        5
    } else if c == '6' {
        6
    } else if c == '7' {
        7
    } else if c == '8' {
        8
    } else if c == '9' {
        9
    } else {
        0
    }
}

/// Parse a numeric token into hundredths of a unit.
///
/// Returns `None` exactly when the token is malformed: a character other
/// than a digit or a dot, a second dot, or no digit at all.  A well-formed
/// token always parses; a value too large for `u64` hundredths comes back as
/// `u64::MAX`.
pub fn parse_centi(tok: &str) -> (r: Option<u64>)
    ensures
        r == parse_spec(tok@),
{
    let l = tok.unicode_len();
    let ghost t = tok@;

    // One scan: every character numeric, at most one dot, some digit.
    let mut seen_dot = false;
    let mut seen_digit = false;
    let mut fd: usize = l;
    let mut i: usize = 0;
    while i < l
        invariant
            0 <= i <= l,
            l == t.len(),
            t == tok@,
            forall|k: int| 0 <= k < i ==> is_num_char(t[k]),
            seen_dot <==> dot_count(t.take(i as int)) > 0,
            dot_count(t.take(i as int)) <= 1,
            seen_dot ==> fd < i && t[fd as int] == '.' && (forall|k: int|
                0 <= k < i && k != fd ==> t[k] != '.'),
            !seen_dot ==> fd == l && (forall|k: int| 0 <= k < i ==> t[k] != '.'),
            seen_digit <==> exists|k: int| 0 <= k < i && is_digit_char(t[k]),
        decreases l - i,
    {
        let c = tok.get_char(i);
        proof {
            assert(t.take(i + 1).drop_last() =~= t.take(i as int));
            assert(t.take(i + 1).last() == t[i as int]);
        }
        if c == '.' {
            if seen_dot {
                assert(dot_count(t.take(i + 1)) > 1);
                assert(!well_formed_token(t)) by {
                    lemma_dot_count_prefix(t, i + 1);
                }
                return None;
            }
            seen_dot = true;
            fd = i;
        } else if is_digit_char_exec(c) {
            seen_digit = true;
        } else {
            assert(!is_num_char(t[i as int]));
            return None;
        }
        i = i + 1;
    }
    proof {
        assert(t.take(l as int) =~= t);
    }
    if !seen_digit {
        return None;
    }
    assert(well_formed_token(t));

    // `fd` is the first dot.
    proof {
        lemma_first_dot_from(t, 0);
        if seen_dot {
            assert(first_dot(t) == fd);
        } else {
            assert(first_dot(t) == l);
        }
    }

    // Accumulate the integer digits, saturating past `u64::MAX`.
    let ghost ids = int_digits(t);
    let mut acc: u64 = 0;
    let mut sat = false;
    let mut k: usize = 0;
    while k < fd
        invariant
            0 <= k <= fd <= l,
            l == t.len(),
            t == tok@,
            fd == first_dot(t),
            ids == int_digits(t),
            forall|m: int| 0 <= m < fd ==> is_num_char(t[m]) && t[m] != '.',
            !sat ==> acc == digits_val(t.take(k as int)),
            sat ==> digits_val(t.take(k as int)) > u64::MAX,
        decreases fd - k,
    {
        let c = tok.get_char(k);
        let d = digit_val_exec(c);
        proof {
            assert(t.take(k + 1).drop_last() =~= t.take(k as int));
            assert(t.take(k + 1).last() == t[k as int]);
            lemma_digits_val_nonneg(t.take(k as int));
        }
        if sat {
            assert(digits_val(t.take(k + 1)) > u64::MAX);
        } else {
            if acc > (u64::MAX - d) / 10 {
                assert(acc * 10 + d > u64::MAX) by {
                    lemma_div_mul_bound(u64::MAX as int, d as int, acc as int);
                }
                sat = true;
            } else {
                assert(acc * 10 + d <= u64::MAX) by {
                    lemma_div_mul_bound(u64::MAX as int, d as int, acc as int);
                }
                acc = acc * 10 + d;
            }
        }
        k = k + 1;
    }
    proof {
        assert(t.take(fd as int) =~= ids);
    }

    // Fractional digits: two kept, the third rounds.
    let ghost fs = frac_digits(t);
    let mut f: u64 = 0;
    let mut r: u64 = 0;
    if fd < l {
        assert(fs =~= t.subrange(fd + 1, l as int));
        if fd + 1 < l {
            f = digit_val_exec(tok.get_char(fd + 1)) * 10;
            if fd + 2 < l {
                f = f + digit_val_exec(tok.get_char(fd + 2));
                if fd + 3 < l {
                    if digit_val_exec(tok.get_char(fd + 3)) >= 5 {
                        r = 1;
                    }
                }
            }
        }
    }
    assert(f == frac_centi(fs) && r == round_bit(fs));

    // Combine, saturating.
    proof {
        lemma_digits_val_nonneg(ids);
    }
    if sat {
        assert(token_centi(t) > u64::MAX) by {
            lemma_digits_val_nonneg(ids);
            assert(digits_val(ids) * 100 >= digits_val(ids)) by (nonlinear_arith)
                requires
                    digits_val(ids) >= 0,
            ;
        }
        return Some(u64::MAX);
    }
    let wide: u128 = (acc as u128) * 100 + (f as u128) + (r as u128);
    assert(wide == token_centi(t));
    if wide > u64::MAX as u128 {
        Some(u64::MAX)
    } else {
        Some(wide as u64)
    }
}

/// Is `c` a decimal digit?
pub fn is_digit_char_exec(c: char) -> (b: bool)
    ensures
        b == is_digit_char(c),
{
    c == '0' || c == '1' || c == '2' || c == '3' || c == '4' || c == '5' || c == '6' || c == '7'
        || c == '8' || c == '9'
}

/// A prefix with more than one dot keeps the whole token from being
/// well formed.
proof fn lemma_dot_count_prefix(t: Seq<char>, i: int)
    requires
        0 <= i <= t.len(),
    ensures
        dot_count(t) >= dot_count(t.take(i)),
    decreases t.len() - i,
{
    if i < t.len() {
        lemma_dot_count_prefix(t, i + 1);
        assert(t.take(i + 1).drop_last() =~= t.take(i));
    } else {
        assert(t.take(i) =~= t);
    }
}

/// For `0 <= d <= 9`: `a > (m - d) / 10` exactly when `a * 10 + d > m`.
proof fn lemma_div_mul_bound(m: int, d: int, a: int)
    requires
        0 <= d <= 9,
        0 <= a,
        d <= m,
    ensures
        a > (m - d) / 10 ==> a * 10 + d > m,
        a <= (m - d) / 10 ==> a * 10 + d <= m,
{
    let q = (m - d) / 10;
    assert(10 * q <= m - d < 10 * q + 10) by (nonlinear_arith)
        requires
            q == (m - d) / 10,
            m - d >= 0,
    ;
    if a > q {
        assert(a * 10 >= (q + 1) * 10) by (nonlinear_arith)
            requires
                a >= q + 1,
        ;
    } else {
        assert(a * 10 <= q * 10) by (nonlinear_arith)
            requires
                a <= q,
        ;
    }
}

} // verus!
