//! Formatting a complete sample for the full-screen display.
//!
//! The chosen layout is three lines — fan speed, CPU die temperature, GPU
//! die temperature, in that order, with no header or divider — each showing
//! the reading with exactly two decimal digits and its unit suffix.  Each
//! line reuses the prefix and unit of the corresponding input pattern.

use vstd::prelude::*;
use vstd::string::StrSliceExecFns;
use crate::parser::{Sample, FieldKind, field_prefix, field_suffix};
use crate::number::{digit_val, digits_val};
use crate::text::is_digit_char;

verus! {

/// The digit character for a value below ten (arbitrary above).
pub open spec fn digit_char(d: int) -> char {
    if d == 0 {
        '0'
    } else if d == 1 {
        '1'
    } else if d == 2 {
        '2'
    } else if d == 3 {
        '3'
    } else if d == 4 {
        '4'
    } else if d == 5 {
        '5'
    } else if d == 6 {
        '6'
    } else if d == 7 {
        '7'
    } else if d == 8 {
        '8'
    } else {
        '9'
    }
}

/// The decimal numeral of a non-negative number, most significant digit
/// first, without leading zeros (a single zero for zero itself).
pub open spec fn dec_chars(n: int) -> Seq<char>
    decreases n when n >= 0
{
    if n < 10 {
        seq![digit_char(n)]
    } else {
        dec_chars(n / 10).push(digit_char(n % 10))
    }
}

/// A reading in hundredths, written with exactly two decimal digits:
/// the whole part, a dot, then the two fractional digits.
pub open spec fn format_centi_chars(v: u64) -> Seq<char> {
    dec_chars(v as int / 100) + seq!['.', digit_char((v as int % 100) / 10), digit_char(v as int % 10)]
}

/// The reading of `smp` for field `k`.
pub open spec fn sample_field(smp: Sample, k: FieldKind) -> u64 {
    match k {
        FieldKind::Fan => smp.fan_centi,
        FieldKind::Cpu => smp.cpu_centi,
        FieldKind::Gpu => smp.gpu_centi,
    }
}

/// The display line for field `k` of sample `smp`: the field's label, the
/// reading with two decimal digits, and the field's unit.
pub open spec fn rendered_line(smp: Sample, k: FieldKind) -> Seq<char> {
    field_prefix(k) + format_centi_chars(sample_field(smp, k)) + field_suffix(k)
}

/// A decimal numeral is never empty and holds digit characters only.
pub proof fn lemma_dec_chars_digits(n: int)
    requires
        n >= 0,
    ensures
        dec_chars(n).len() >= 1,
        forall|k: int| 0 <= k < dec_chars(n).len() ==> is_digit_char(#[trigger] dec_chars(n)[k]),
    decreases n,
{
    if n >= 10 {
        lemma_dec_chars_digits(n / 10);
    }
}

/// A decimal numeral reads back as the number it was written from.
pub proof fn lemma_dec_chars_val(n: int)
    requires
        n >= 0,
    ensures
        digits_val(dec_chars(n)) == n,
    decreases n,
{
    if n < 10 {
        assert(dec_chars(n).drop_last() =~= Seq::<char>::empty());
        assert(dec_chars(n).last() == digit_char(n));
        assert(digit_val(digit_char(n)) == n);
        assert(digits_val(Seq::<char>::empty()) == 0);
        assert(digits_val(dec_chars(n)) == digits_val(dec_chars(n).drop_last()) * 10 + digit_val(
            dec_chars(n).last(),
        ));
    } else {
        lemma_dec_chars_val(n / 10);
        let ds = dec_chars(n);
        assert(ds == dec_chars(n / 10).push(digit_char(n % 10)));
        assert(ds.drop_last() =~= dec_chars(n / 10));
        assert(ds.last() == digit_char(n % 10));
        assert(digit_val(digit_char(n % 10)) == n % 10);
        vstd::arithmetic::div_mod::lemma_fundamental_div_mod(n, 10);
        assert(digits_val(ds) == digits_val(dec_chars(n / 10)) * 10 + (n % 10));
    }
}

/// The digit character of a value below ten.
fn digit_char_exec(d: u64) -> (c: char)
    requires
        d < 10,
    ensures
        c == digit_char(d as int),
{
    if d == 0 {
        '0'
    } else if d == 1 {
        '1'
    } else if d == 2 {
        '2'
    } else if d == 3 {
        '3'
    } else if d == 4 {
        '4'
    } else if d == 5 {
        '5'
    } else if d == 6 {
        '6'
    } else if d == 7 {
        '7'
    } else if d == 8 {
        '8'
    } else {
        '9'
    }
}

/// The decimal numeral of `n`, most significant digit first.
fn dec_chars_exec(n: u64) -> (r: Vec<char>)
    ensures
        r@ == dec_chars(n as int),
    decreases n,
{
    if n < 10 {
        let mut v: Vec<char> = Vec::new();
        v.push(digit_char_exec(n));
        proof {
            assert(v@ =~= dec_chars(n as int));
        }
        v
    } else {
        let mut v = dec_chars_exec(n / 10);
        v.push(digit_char_exec(n % 10));
        proof {
            assert(v@ =~= dec_chars(n as int));
        }
        v
    }
}

/// Append the characters of `s` to `v`.
fn push_str_chars(v: &mut Vec<char>, s: &str)
    ensures
        final(v)@ == old(v)@ + s@,
{
    let l = s.unicode_len();
    let mut k: usize = 0;
    while k < l
        invariant
            0 <= k <= l,
            l == s@.len(),
            v@ == old(v)@ + s@.take(k as int),
        decreases l - k,
    {
        v.push(s.get_char(k));
        proof {
            assert(old(v)@ + s@.take(k + 1) =~= (old(v)@ + s@.take(k as int)).push(s@[k as int]));
        }
        k = k + 1;
    }
    proof {
        assert(s@.take(l as int) =~= s@);
    }
}

/// A reading in hundredths written with exactly two decimal digits.
pub fn format_centi(v: u64) -> (r: Vec<char>)
    ensures
        r@ == format_centi_chars(v),
{
    let mut out = dec_chars_exec(v / 100);
    out.push('.');
    out.push(digit_char_exec((v % 100) / 10));
    out.push(digit_char_exec(v % 10));
    proof {
        assert(out@ =~= format_centi_chars(v));
    }
    out
}

/// The three display lines for one complete sample, in the fixed layout:
/// fan speed, CPU die temperature, GPU die temperature.
pub fn render_lines(smp: &Sample) -> (r: Vec<Vec<char>>)
    ensures
        r@.len() == 3,
        r@[0]@ == rendered_line(*smp, FieldKind::Fan),
        r@[1]@ == rendered_line(*smp, FieldKind::Cpu),
        r@[2]@ == rendered_line(*smp, FieldKind::Gpu),
{
    let fan = field_line(smp.fan_centi, "Fan: ", " rpm");
    let cpu = field_line(smp.cpu_centi, "CPU die temperature: ", " C");
    let gpu = field_line(smp.gpu_centi, "GPU die temperature: ", " C");
    proof {
        assert(fan@ =~= rendered_line(*smp, FieldKind::Fan));
        assert(cpu@ =~= rendered_line(*smp, FieldKind::Cpu));
        assert(gpu@ =~= rendered_line(*smp, FieldKind::Gpu));
    }
    let mut out: Vec<Vec<char>> = Vec::new();
    out.push(fan);
    out.push(cpu);
    out.push(gpu);
    out
}

/// One display line: label, reading, unit.
fn field_line(v: u64, label: &str, unit: &str) -> (r: Vec<char>)
    ensures
        r@ == label@ + format_centi_chars(v) + unit@,
{
    let mut out: Vec<char> = Vec::new();
    push_str_chars(&mut out, label);
    let mut num = format_centi(v);
    out.append(&mut num);
    push_str_chars(&mut out, unit);
    proof {
        assert(out@ =~= label@ + format_centi_chars(v) + unit@);
    }
    out
}

} // verus!
