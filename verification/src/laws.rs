//! The stated laws of the parser: what one section yields, what survives a
//! section boundary, when nothing is emitted, and what a stream end does.

use vstd::prelude::*;
use crate::parser::{
    ParserState, Sample, StepOutcome, RunEnd, FieldKind, section_marker, generic_marker,
    field_prefix, field_suffix, field_of, set_field, initial_state, line_update, spec_step,
    spec_run,
};
use crate::text::{
    contains_seq, pat_capture, first_pat_match, first_pat_match_from, pat_match_at, has_seq_at,
    is_digit_char, is_num_char, lemma_num_run_end_is, lemma_no_prefix_no_pat_match,
    lemma_pinned_char_no_occurrence,
};
use crate::number::{
    parse_spec, well_formed_token, token_centi, int_digits, frac_digits, digits_val, frac_centi,
    round_bit, dot_count, first_dot, lemma_dot_count_of_digits, lemma_first_dot_from,
};
use crate::render::{format_centi_chars, dec_chars, digit_char, rendered_line, sample_field,
    lemma_dec_chars_digits, lemma_dec_chars_val};

verus! {

/// All three accumulators hold a value.
pub open spec fn complete(s: ParserState) -> bool {
    s.fan is Some && s.cpu is Some && s.gpu is Some
}

/// `line` is a data line for field `k` with value `v` and nothing else: it
/// holds no marker, its `k` pattern captures a token whose value is `v`, and
/// neither of the other two field patterns matches it.
pub open spec fn is_data_line(line: Seq<char>, k: FieldKind, v: u64) -> bool {
    &&& !contains_seq(line, section_marker())
    &&& !contains_seq(line, generic_marker())
    &&& match pat_capture(line, field_prefix(k), field_suffix(k)) {
        Some(tok) => parse_spec(tok) == Some(v),
        None => false,
    }
    &&& forall|k2: FieldKind|
        k2 != k ==> first_pat_match(line, field_prefix(k2), field_suffix(k2)) is None
}

/// Reading a field accumulator after setting one: the set field holds the
/// new value, the others are untouched, and the section flag is kept.
pub proof fn lemma_set_field(s: ParserState, k: FieldKind, v: u64)
    ensures
        field_of(set_field(s, k, v), k) == Some(v),
        forall|t: FieldKind| t != k ==> field_of(set_field(s, k, v), t) == field_of(s, t),
        set_field(s, k, v).in_section == s.in_section,
{
}

/// A data line for field `k` updates exactly that accumulator.
pub proof fn lemma_data_line_update(s: ParserState, line: Seq<char>, k: FieldKind, v: u64)
    requires
        is_data_line(line, k, v),
    ensures
        line_update(s, line) == Some(set_field(s, k, v)),
{
    match k {
        FieldKind::Fan => {},
        FieldKind::Cpu => {
            assert(first_pat_match(line, field_prefix(FieldKind::Fan), field_suffix(FieldKind::Fan))
                is None);
        },
        FieldKind::Gpu => {
            assert(first_pat_match(line, field_prefix(FieldKind::Fan), field_suffix(FieldKind::Fan))
                is None);
            assert(first_pat_match(line, field_prefix(FieldKind::Cpu), field_suffix(FieldKind::Cpu))
                is None);
        },
    }
}

/// One data line inside the section: the named accumulator takes the value;
/// if that completes the triple the sample is emitted and the accumulators
/// reset, otherwise the line is quiet.
pub proof fn lemma_data_step(s: ParserState, line: Seq<char>, k: FieldKind, v: u64)
    requires
        s.in_section,
        is_data_line(line, k, v),
    ensures
        complete(set_field(s, k, v)) ==> spec_step(s, line) == (
            ParserState { fan: None, cpu: None, gpu: None, in_section: s.in_section },
            StepOutcome::Emit(
                Sample {
                    fan_centi: field_of(set_field(s, k, v), FieldKind::Fan).unwrap(),
                    cpu_centi: field_of(set_field(s, k, v), FieldKind::Cpu).unwrap(),
                    gpu_centi: field_of(set_field(s, k, v), FieldKind::Gpu).unwrap(),
                },
            ),
        ),
        !complete(set_field(s, k, v)) ==> spec_step(s, line) == (
            set_field(s, k, v),
            StepOutcome::Quiet,
        ),
{
    lemma_data_line_update(s, line, k, v);
}

/// A section-start marker line only raises the section flag: every
/// accumulated value survives into the new section.  This is the documented
/// carry-over behaviour across section boundaries.
pub proof fn lemma_section_start_carries_over(s: ParserState, line: Seq<char>)
    requires
        contains_seq(line, section_marker()),
    ensures
        spec_step(s, line) == (ParserState { in_section: true, ..s }, StepOutcome::Quiet),
        field_of(spec_step(s, line).0, FieldKind::Fan) == s.fan,
        field_of(spec_step(s, line).0, FieldKind::Cpu) == s.cpu,
        field_of(spec_step(s, line).0, FieldKind::Gpu) == s.gpu,
{
}

/// A generic closing marker met before any section-start marker has no
/// effect: with the section flag down the line is ignored entirely.
pub proof fn lemma_close_before_open_ignored(s: ParserState, line: Seq<char>)
    requires
        !s.in_section,
        !contains_seq(line, section_marker()),
    ensures
        spec_step(s, line) == (s, StepOutcome::Quiet),
{
}

/// A line inside the section that matches none of the three field patterns
/// updates no accumulator and raises no error.
pub proof fn lemma_unmatched_line_ignored(s: ParserState, line: Seq<char>)
    requires
        s.in_section,
        !contains_seq(line, section_marker()),
        !contains_seq(line, generic_marker()),
        forall|k: FieldKind| first_pat_match(line, field_prefix(k), field_suffix(k)) is None,
    ensures
        line_update(s, line) == Some(s),
        !complete(s) ==> spec_step(s, line) == (s, StepOutcome::Quiet),
{
    assert(first_pat_match(line, field_prefix(FieldKind::Fan), field_suffix(FieldKind::Fan))
        is None);
    assert(first_pat_match(line, field_prefix(FieldKind::Cpu), field_suffix(FieldKind::Cpu))
        is None);
    assert(first_pat_match(line, field_prefix(FieldKind::Gpu), field_suffix(FieldKind::Gpu))
        is None);
}

/// Whenever a step emits a sample, the new state has all three
/// accumulators reset; and a step never leaves a complete triple behind.
pub proof fn lemma_emit_resets(s: ParserState, line: Seq<char>)
    ensures
        spec_step(s, line).1 is Emit ==> spec_step(s, line).0.fan is None
            && spec_step(s, line).0.cpu is None && spec_step(s, line).0.gpu is None,
        !complete(s) ==> !complete(spec_step(s, line).0),
{
}

/// At the end of the stream, whatever partial triple has accumulated is
/// discarded silently: nothing more is emitted and the run ends without
/// error.
pub proof fn lemma_stream_end_discards_partial(s: ParserState)
    ensures
        spec_run(s, Seq::empty()) == (s, Seq::<Sample>::empty(), RunEnd::StreamEnd),
{
}

/// While no line of the stream matches the pattern of field `m`, and `m` is
/// not yet accumulated, no sample at all is emitted, and `m` is still
/// missing at the end: fewer than three distinct fields never complete a
/// sample.
pub proof fn lemma_missing_field_no_sample(s: ParserState, lines: Seq<Seq<char>>, m: FieldKind)
    requires
        field_of(s, m) is None,
        forall|i: int|
            0 <= i < lines.len() ==> first_pat_match(
                #[trigger] lines[i],
                field_prefix(m),
                field_suffix(m),
            ) is None,
    ensures
        spec_run(s, lines).1 == Seq::<Sample>::empty(),
        field_of(spec_run(s, lines).0, m) is None,
    decreases lines.len(),
{
    if lines.len() > 0 {
        let line = lines[0];
        let r = spec_step(s, line);
        assert(field_of(r.0, m) is None && !(r.1 is Emit)) by {
            lemma_step_keeps_missing_field(s, line, m);
        }
        match r.1 {
            StepOutcome::Quiet => {
                assert(forall|i: int|
                    0 <= i < lines.drop_first().len() ==> first_pat_match(
                        #[trigger] lines.drop_first()[i],
                        field_prefix(m),
                        field_suffix(m),
                    ) is None);
                lemma_missing_field_no_sample(r.0, lines.drop_first(), m);
            },
            _ => {},
        }
    }
}

/// One step cannot set field `m` from a line whose `m` pattern does not
/// match, and without `m` no sample can be emitted.
pub proof fn lemma_step_keeps_missing_field(s: ParserState, line: Seq<char>, m: FieldKind)
    requires
        field_of(s, m) is None,
        first_pat_match(line, field_prefix(m), field_suffix(m)) is None,
    ensures
        field_of(spec_step(s, line).0, m) is None,
        !(spec_step(s, line).1 is Emit),
{
    match m {
        FieldKind::Fan => {},
        FieldKind::Cpu => {},
        FieldKind::Gpu => {},
    }
}

/// A reading written with two decimal digits parses back to exactly the
/// same reading: displayed values are faithful to the formatted precision.
pub proof fn lemma_format_parse_round_trip(v: u64)
    ensures
        parse_spec(format_centi_chars(v)) == Some(v),
{
    let x = v as int;
    let n = x / 100;
    let c1 = digit_char((x % 100) / 10);
    let c2 = digit_char(x % 10);
    let a = dec_chars(n);
    let t = format_centi_chars(v);
    lemma_dec_chars_digits(n);
    lemma_dec_chars_val(n);
    let p = a.len() as int;
    assert(t.len() == p + 3);
    assert(forall|k: int| 0 <= k < p ==> t[k] == a[k]);
    assert(t[p] == '.' && t[p + 1] == c1 && t[p + 2] == c2);

    // The token is well formed: numeric characters, one dot, digits around
    // it.
    assert(forall|k: int| 0 <= k < t.len() ==> is_num_char(#[trigger] t[k]));
    lemma_dot_count_of_digits(a);
    assert(t.drop_last().drop_last().drop_last() =~= a);
    assert(t.last() == c2 && c2 != '.');
    assert(dot_count(t) == dot_count(t.drop_last()));
    assert(t.drop_last().last() == c1 && c1 != '.');
    assert(dot_count(t.drop_last()) == dot_count(t.drop_last().drop_last()));
    assert(t.drop_last().drop_last().last() == '.');
    assert(dot_count(t.drop_last().drop_last()) == dot_count(a) + 1);
    assert(dot_count(t) == 1);
    assert(is_digit_char(t[0]));
    assert(well_formed_token(t));

    // The dot splits the token exactly where it was written.
    lemma_first_dot_from(t, 0);
    let fd = first_dot(t);
    if fd < p {
        assert(is_digit_char(t[fd]));
        assert(false);
    }
    if fd > p {
        assert(t[p] == '.');
        assert(false);
    }
    assert(int_digits(t) =~= a);
    assert(frac_digits(t) =~= seq![c1, c2]);

    // Both halves evaluate back to the split value.
    assert(digits_val(int_digits(t)) == n);
    assert(0 <= (x % 100) / 10 < 10 && 0 <= x % 10 < 10);
    assert(frac_centi(frac_digits(t)) == ((x % 100) / 10) * 10 + x % 10);
    assert(round_bit(frac_digits(t)) == 0);
    vstd::arithmetic::div_mod::lemma_fundamental_div_mod(x, 100);
    vstd::arithmetic::div_mod::lemma_fundamental_div_mod(x % 100, 10);
    vstd::arithmetic::div_mod::lemma_mod_mod(x, 10, 10);
    assert(token_centi(t) == x);
}

/// A line built as prefix + numeric token + suffix matches its own field
/// pattern at the very start and captures exactly the token.
proof fn lemma_built_line_captures(pre: Seq<char>, fmt: Seq<char>, suf: Seq<char>)
    requires
        fmt.len() > 0,
        forall|j: int| 0 <= j < fmt.len() ==> is_num_char(#[trigger] fmt[j]),
        suf.len() > 0,
        !is_num_char(suf[0]),
    ensures
        first_pat_match(pre + fmt + suf, pre, suf) == Some(0int),
        pat_capture(pre + fmt + suf, pre, suf) == Some(fmt),
{
    let line = pre + fmt + suf;
    let p = pre.len() as int;
    let q = p + fmt.len();
    assert(forall|k: int| p <= k < q ==> is_num_char(#[trigger] line[k]));
    assert(line[q] == suf[0]);
    lemma_num_run_end_is(line, p, q);
    assert(has_seq_at(line, pre, 0));
    assert(has_seq_at(line, suf, q));
    assert(pat_match_at(line, pre, suf, 0));
    assert(first_pat_match_from(line, pre, suf, 0) == Some(0int));
    assert(line.subrange(p, q) =~= fmt);
}

/// A character that is not numeric and occurs in neither the prefix nor the
/// suffix occurs nowhere in a line built as prefix + numeric token + suffix.
proof fn lemma_built_line_avoids(pre: Seq<char>, fmt: Seq<char>, suf: Seq<char>, c: char)
    requires
        forall|j: int| 0 <= j < pre.len() ==> pre[j] != c,
        forall|j: int| 0 <= j < fmt.len() ==> is_num_char(#[trigger] fmt[j]),
        !is_num_char(c),
        forall|j: int| 0 <= j < suf.len() ==> suf[j] != c,
    ensures
        forall|j: int| 0 <= j < (pre + fmt + suf).len() ==> (pre + fmt + suf)[j] != c,
{
    let line = pre + fmt + suf;
    assert forall|j: int| 0 <= j < line.len() implies line[j] != c by {
        if j < pre.len() {
            assert(line[j] == pre[j]);
        } else if j < pre.len() + fmt.len() {
            assert(line[j] == fmt[j - pre.len()]);
        } else {
            assert(line[j] == suf[j - pre.len() - fmt.len()]);
        }
    }
}

/// Feeding a rendered display line back to the parser yields a data line
/// for the same field with the same reading: the display is faithful to
/// what the parser accepts.
pub proof fn lemma_rendered_line_reparses(smp: Sample, k: FieldKind)
    ensures
        is_data_line(rendered_line(smp, k), k, sample_field(smp, k)),
{
    let v = sample_field(smp, k);
    let fmt = format_centi_chars(v);
    let pre = field_prefix(k);
    let suf = field_suffix(k);
    let line = rendered_line(smp, k);
    assert(line == pre + fmt + suf);

    lemma_format_parse_round_trip(v);
    lemma_dec_chars_digits(v as int / 100);
    assert forall|j: int| 0 <= j < fmt.len() implies is_num_char(#[trigger] fmt[j]) by {
        if j < dec_chars(v as int / 100).len() {
            assert(fmt[j] == dec_chars(v as int / 100)[j]);
        }
    }

    reveal_strlit("Fan: ");
    reveal_strlit(" rpm");
    reveal_strlit("CPU die temperature: ");
    reveal_strlit("GPU die temperature: ");
    reveal_strlit(" C");
    reveal_strlit("**** SMC sensors ****");
    reveal_strlit("****");

    match k {
        FieldKind::Fan => {
            lemma_built_line_avoids(pre, fmt, suf, '*');
            lemma_pinned_char_no_occurrence(line, generic_marker(), 0);
            lemma_pinned_char_no_occurrence(line, section_marker(), 0);
            lemma_built_line_avoids(pre, fmt, suf, 'U');
            lemma_pinned_char_no_occurrence(line, field_prefix(FieldKind::Cpu), 2);
            lemma_no_prefix_no_pat_match(
                line,
                field_prefix(FieldKind::Cpu),
                field_suffix(FieldKind::Cpu),
            );
            lemma_pinned_char_no_occurrence(line, field_prefix(FieldKind::Gpu), 2);
            lemma_no_prefix_no_pat_match(
                line,
                field_prefix(FieldKind::Gpu),
                field_suffix(FieldKind::Gpu),
            );
        },
        FieldKind::Cpu => {
            lemma_built_line_avoids(pre, fmt, suf, '*');
            lemma_pinned_char_no_occurrence(line, generic_marker(), 0);
            lemma_pinned_char_no_occurrence(line, section_marker(), 0);
            lemma_built_line_avoids(pre, fmt, suf, 'F');
            lemma_pinned_char_no_occurrence(line, field_prefix(FieldKind::Fan), 0);
            lemma_no_prefix_no_pat_match(
                line,
                field_prefix(FieldKind::Fan),
                field_suffix(FieldKind::Fan),
            );
            lemma_built_line_avoids(pre, fmt, suf, 'G');
            lemma_pinned_char_no_occurrence(line, field_prefix(FieldKind::Gpu), 0);
            lemma_no_prefix_no_pat_match(
                line,
                field_prefix(FieldKind::Gpu),
                field_suffix(FieldKind::Gpu),
            );
        },
        FieldKind::Gpu => {
            lemma_built_line_avoids(pre, fmt, suf, '*');
            lemma_pinned_char_no_occurrence(line, generic_marker(), 0);
            lemma_pinned_char_no_occurrence(line, section_marker(), 0);
            lemma_built_line_avoids(pre, fmt, suf, 'F');
            lemma_pinned_char_no_occurrence(line, field_prefix(FieldKind::Fan), 0);
            lemma_no_prefix_no_pat_match(
                line,
                field_prefix(FieldKind::Fan),
                field_suffix(FieldKind::Fan),
            );
            // The one capital C of a GPU line is its final character, too
            // close to the end for the CPU label to start there.
            assert forall|j: int|
                0 <= j < line.len() && line[j] == field_prefix(FieldKind::Cpu)[0] implies j
                + field_prefix(FieldKind::Cpu).len() - 0 > line.len() by {
                if j < pre.len() {
                    assert(line[j] == pre[j]);
                    assert(false);
                } else if j < pre.len() + fmt.len() {
                    assert(is_num_char(line[j]));
                    assert(false);
                } else {
                    assert(line[j] == suf[j - pre.len() - fmt.len()]);
                    assert(j == line.len() - 1);
                }
            }
            lemma_pinned_char_no_occurrence(line, field_prefix(FieldKind::Cpu), 0);
            lemma_no_prefix_no_pat_match(
                line,
                field_prefix(FieldKind::Cpu),
                field_suffix(FieldKind::Cpu),
            );
        },
    }

    assert(!is_num_char(suf[0]));
    lemma_built_line_captures(pre, fmt, suf);
}

/// The value among `v1, v2, v3` whose kind is `target`.
pub open spec fn value_for(
    target: FieldKind,
    k1: FieldKind,
    v1: u64,
    k2: FieldKind,
    v2: u64,
    k3: FieldKind,
    v3: u64,
) -> u64 {
    if k1 == target {
        v1
    } else if k2 == target {
        v2
    } else {
        v3
    }
}

/// One section start, three data lines covering the three fields in any
/// order, then a closing marker: exactly one sample is emitted, holding the
/// three parsed values, the run stops at the closing marker, and the parser
/// is left inside the section with empty accumulators.
pub proof fn lemma_one_section_one_sample(
    open_line: Seq<char>,
    l1: Seq<char>,
    l2: Seq<char>,
    l3: Seq<char>,
    close_line: Seq<char>,
    k1: FieldKind,
    v1: u64,
    k2: FieldKind,
    v2: u64,
    k3: FieldKind,
    v3: u64,
)
    requires
        contains_seq(open_line, section_marker()),
        contains_seq(close_line, generic_marker()),
        !contains_seq(close_line, section_marker()),
        is_data_line(l1, k1, v1),
        is_data_line(l2, k2, v2),
        is_data_line(l3, k3, v3),
        k1 != k2,
        k1 != k3,
        k2 != k3,
    ensures
        spec_run(initial_state(), seq![open_line, l1, l2, l3, close_line]) == (
            ParserState { in_section: true, fan: None, cpu: None, gpu: None },
            seq![
                Sample {
                    fan_centi: value_for(FieldKind::Fan, k1, v1, k2, v2, k3, v3),
                    cpu_centi: value_for(FieldKind::Cpu, k1, v1, k2, v2, k3, v3),
                    gpu_centi: value_for(FieldKind::Gpu, k1, v1, k2, v2, k3, v3),
                },
            ],
            RunEnd::SectionEnd,
        ),
{
    reveal_with_fuel(spec_run, 6);
    let lines = seq![open_line, l1, l2, l3, close_line];
    let s0 = initial_state();
    let sa = ParserState { in_section: true, fan: None, cpu: None, gpu: None };
    assert(spec_step(s0, open_line) == (sa, StepOutcome::Quiet));

    let sb = set_field(sa, k1, v1);
    lemma_set_field(sa, k1, v1);
    assert(!complete(sb));
    lemma_data_step(sa, l1, k1, v1);
    assert(spec_step(sa, l1) == (sb, StepOutcome::Quiet));

    let sc = set_field(sb, k2, v2);
    lemma_set_field(sb, k2, v2);
    assert(!complete(sc));
    lemma_data_step(sb, l2, k2, v2);
    assert(spec_step(sb, l2) == (sc, StepOutcome::Quiet));

    let sd = set_field(sc, k3, v3);
    lemma_set_field(sc, k3, v3);
    assert(complete(sd));
    lemma_data_step(sc, l3, k3, v3);
    let smp = Sample {
        fan_centi: field_of(sd, FieldKind::Fan).unwrap(),
        cpu_centi: field_of(sd, FieldKind::Cpu).unwrap(),
        gpu_centi: field_of(sd, FieldKind::Gpu).unwrap(),
    };
    assert(spec_step(sc, l3) == (sa, StepOutcome::Emit(smp)));

    assert(field_of(sd, FieldKind::Fan) == Some(value_for(FieldKind::Fan, k1, v1, k2, v2, k3, v3)));
    assert(field_of(sd, FieldKind::Cpu) == Some(value_for(FieldKind::Cpu, k1, v1, k2, v2, k3, v3)));
    assert(field_of(sd, FieldKind::Gpu) == Some(value_for(FieldKind::Gpu, k1, v1, k2, v2, k3, v3)));

    assert(spec_step(sa, close_line) == (sa, StepOutcome::SectionEnd));

    assert(lines.drop_first() =~= seq![l1, l2, l3, close_line]);
    assert(lines.drop_first().drop_first() =~= seq![l2, l3, close_line]);
    assert(lines.drop_first().drop_first().drop_first() =~= seq![l3, close_line]);
    assert(lines.drop_first().drop_first().drop_first().drop_first() =~= seq![close_line]);
    assert(spec_run(s0, lines).1 =~= seq![smp]);
}

} // verus!
