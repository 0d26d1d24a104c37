//! The sensor stream parser: a state machine fed one line of the sensor
//! report at a time.
//!
//! The report is divided into sections by marker lines.  Inside the sensor
//! section, three field patterns (fan speed, CPU die temperature, GPU die
//! temperature) are tried in that fixed order, first match wins, and the
//! matched value overwrites its accumulator.  Whenever all three
//! accumulators hold a value, a complete [`Sample`] is emitted and the
//! accumulators reset.  Accumulated values deliberately survive section
//! boundaries.
//!
//! Each accumulator is explicitly absent or present rather than a sentinel
//! reading, so a field reading of exactly zero counts like any other value.

use vstd::prelude::*;
use crate::number::parse_spec;
use crate::number::parse_centi;
use crate::text::{contains_seq, pat_capture, contains_pat, find_capture};
use vstd::string::StrSliceExecFns;

verus! {

/// One complete reading: fan speed and the two die temperatures, each in
/// hundredths of its unit (RPM, degrees C).
#[derive(Clone, Copy, Debug, PartialEq, Eq, Structural)]
pub struct Sample {
    pub fan_centi: u64,
    pub cpu_centi: u64,
    pub gpu_centi: u64,
}

/// The running state of the parser: the section flag and the three
/// accumulators.
#[derive(Clone, Copy, Debug, PartialEq, Eq)]
pub struct ParserState {
    /// Whether a sensor-section start marker has been seen on some earlier
    /// line (and no generic marker has closed the section since the parser
    /// last left it).
    pub in_section: bool,
    /// Fan speed accumulated for the next sample, in hundredths of an RPM.
    pub fan: Option<u64>,
    /// CPU die temperature accumulated for the next sample, in hundredths
    /// of a degree.
    pub cpu: Option<u64>,
    /// GPU die temperature accumulated for the next sample, in hundredths
    /// of a degree.
    pub gpu: Option<u64>,
}

/// What one line of input produced.
#[derive(Clone, Copy, Debug, PartialEq, Eq)]
pub enum StepOutcome {
    /// Nothing of note: a marker opening the section, an unrecognized line,
    /// or a field update that did not yet complete a sample.
    Quiet,
    /// All three fields were present after this line: a complete sample.
    Emit(Sample),
    /// A generic marker closed the open sensor section: reading may stop.
    SectionEnd,
    /// A field pattern matched but its numeric token would not parse (for
    /// example several dots, or no digit at all).  The caller treats this as
    /// an unrecoverable internal error.
    Malformed,
}

/// Why a whole run over a stream of lines stopped.
#[derive(Clone, Copy, Debug, PartialEq, Eq)]
pub enum RunEnd {
    /// The input was exhausted.
    StreamEnd,
    /// A generic marker closed the sensor section.
    SectionEnd,
    /// A matched numeric token would not parse.
    Malformed,
}

/// The three sensor fields.
#[derive(Clone, Copy, Debug, PartialEq, Eq)]
pub enum FieldKind {
    Fan,
    Cpu,
    Gpu,
}

/// The line marking the start of the sensor section.
pub open spec fn section_marker() -> Seq<char> {
    "**** SMC sensors ****"@
}

/// The generic marker found in every section header; inside an open sensor
/// section it closes the section.
pub open spec fn generic_marker() -> Seq<char> {
    "****"@
}

/// The literal prefix of a field's data line.
pub open spec fn field_prefix(k: FieldKind) -> Seq<char> {
    match k {
        FieldKind::Fan => "Fan: "@,
        FieldKind::Cpu => "CPU die temperature: "@,
        FieldKind::Gpu => "GPU die temperature: "@,
    }
}

/// The literal suffix of a field's data line: the unit token.
pub open spec fn field_suffix(k: FieldKind) -> Seq<char> {
    match k {
        FieldKind::Fan => " rpm"@,
        FieldKind::Cpu => " C"@,
        FieldKind::Gpu => " C"@,
    }
}

/// The accumulator of `s` for field `k`.
pub open spec fn field_of(s: ParserState, k: FieldKind) -> Option<u64> {
    match k {
        FieldKind::Fan => s.fan,
        FieldKind::Cpu => s.cpu,
        FieldKind::Gpu => s.gpu,
    }
}

/// `s` with the accumulator for field `k` set to `v`.
pub open spec fn set_field(s: ParserState, k: FieldKind, v: u64) -> ParserState {
    match k {
        FieldKind::Fan => ParserState { fan: Some(v), ..s },
        FieldKind::Cpu => ParserState { cpu: Some(v), ..s },
        FieldKind::Gpu => ParserState { gpu: Some(v), ..s },
    }
}

/// The state the parser starts in: outside the section, nothing
/// accumulated.
pub open spec fn initial_state() -> ParserState {
    ParserState { in_section: false, fan: None, cpu: None, gpu: None }
}

/// The state after a data line touched the accumulators, or `None` when a
/// matched token would not parse.  The three patterns are tried in a fixed
/// order and only the first match counts.
pub open spec fn line_update(s: ParserState, line: Seq<char>) -> Option<ParserState> {
    match pat_capture(line, field_prefix(FieldKind::Fan), field_suffix(FieldKind::Fan)) {
        Some(tok) => match parse_spec(tok) {
            Some(v) => Some(set_field(s, FieldKind::Fan, v)),
            None => None,
        },
        None => match pat_capture(line, field_prefix(FieldKind::Cpu), field_suffix(FieldKind::Cpu)) {
            Some(tok) => match parse_spec(tok) {
                Some(v) => Some(set_field(s, FieldKind::Cpu, v)),
                None => None,
            },
            None => match pat_capture(
                line,
                field_prefix(FieldKind::Gpu),
                field_suffix(FieldKind::Gpu),
            ) {
                Some(tok) => match parse_spec(tok) {
                    Some(v) => Some(set_field(s, FieldKind::Gpu, v)),
                    None => None,
                },
                None => Some(s),
            },
        },
    }
}

/// What one line does to the parser: the next state and the outcome.
///
/// In order: a section-start marker opens the section and nothing else is
/// read from that line; a generic marker inside an open section closes it;
/// inside the section a data line updates at most one accumulator and, if
/// all three are then present, emits the completed sample and resets them;
/// outside the section every other line is ignored.
pub open spec fn spec_step(s: ParserState, line: Seq<char>) -> (ParserState, StepOutcome) {
    if contains_seq(line, section_marker()) {
        (ParserState { in_section: true, ..s }, StepOutcome::Quiet)
    } else if contains_seq(line, generic_marker()) && s.in_section {
        (s, StepOutcome::SectionEnd)
    } else if s.in_section {
        match line_update(s, line) {
            Some(s1) => match (s1.fan, s1.cpu, s1.gpu) {
                (Some(fv), Some(cv), Some(gv)) => (
                    ParserState { fan: None, cpu: None, gpu: None, ..s1 },
                    StepOutcome::Emit(Sample { fan_centi: fv, cpu_centi: cv, gpu_centi: gv }),
                ),
                _ => (s1, StepOutcome::Quiet),
            },
            None => (s, StepOutcome::Malformed),
        }
    } else {
        (s, StepOutcome::Quiet)
    }
}

/// What a whole stream of lines produces from state `s`: the final state,
/// every sample emitted in order, and why the run ended.  Reading stops at
/// the first section-closing marker or malformed token.
pub open spec fn spec_run(s: ParserState, lines: Seq<Seq<char>>) -> (
    ParserState,
    Seq<Sample>,
    RunEnd,
)
    decreases lines.len(),
{
    if lines.len() == 0 {
        (s, Seq::empty(), RunEnd::StreamEnd)
    } else {
        let r = spec_step(s, lines[0]);
        match r.1 {
            StepOutcome::SectionEnd => (r.0, Seq::empty(), RunEnd::SectionEnd),
            StepOutcome::Malformed => (r.0, Seq::empty(), RunEnd::Malformed),
            StepOutcome::Emit(smp) => {
                let rest = spec_run(r.0, lines.drop_first());
                (rest.0, seq![smp] + rest.1, rest.2)
            },
            StepOutcome::Quiet => spec_run(r.0, lines.drop_first()),
        }
    }
}

impl ParserState {
    /// A fresh parser: outside the section, nothing accumulated.
    pub fn new() -> (s: Self)
        ensures
            s == initial_state(),
    {
        ParserState { in_section: false, fan: None, cpu: None, gpu: None }
    }

    /// Feed one line to the parser.
    pub fn step(&mut self, line: &str) -> (out: StepOutcome)
        ensures
            *final(self) == spec_step(*old(self), line@).0,
            out == spec_step(*old(self), line@).1,
    {
        if contains_pat(line, "**** SMC sensors ****") {
            self.in_section = true;
            return StepOutcome::Quiet;
        }
        if !self.in_section {
            return StepOutcome::Quiet;
        }
        if contains_pat(line, "****") {
            return StepOutcome::SectionEnd;
        }
        match find_capture(line, "Fan: ", " rpm") {
            Some((a, b)) => {
                let tok = line.substring_char(a, b);
                match parse_centi(tok) {
                    Some(v) => {
                        self.fan = Some(v);
                    },
                    None => {
                        return StepOutcome::Malformed;
                    },
                }
            },
            None => {
                match find_capture(line, "CPU die temperature: ", " C") {
                    Some((a, b)) => {
                        let tok = line.substring_char(a, b);
                        match parse_centi(tok) {
                            Some(v) => {
                                self.cpu = Some(v);
                            },
                            None => {
                                return StepOutcome::Malformed;
                            },
                        }
                    },
                    None => {
                        match find_capture(line, "GPU die temperature: ", " C") {
                            Some((a, b)) => {
                                let tok = line.substring_char(a, b);
                                match parse_centi(tok) {
                                    Some(v) => {
                                        self.gpu = Some(v);
                                    },
                                    None => {
                                        return StepOutcome::Malformed;
                                    },
                                }
                            },
                            None => {},
                        }
                    },
                }
            },
        }
        if self.fan.is_some() && self.cpu.is_some() && self.gpu.is_some() {
            let smp = Sample {
                fan_centi: self.fan.unwrap(),
                cpu_centi: self.cpu.unwrap(),
                gpu_centi: self.gpu.unwrap(),
            };
            self.fan = None;
            self.cpu = None;
            self.gpu = None;
            return StepOutcome::Emit(smp);
        }
        StepOutcome::Quiet
    }

    /// Feed a whole stream of lines to the parser, collecting every emitted
    /// sample, and stopping early at a section-closing marker or a malformed
    /// token.
    pub fn run(&mut self, lines: &Vec<String>) -> (r: (Vec<Sample>, RunEnd))
        ensures
            *final(self) == spec_run(*old(self), lines.deep_view()).0,
            r.0@ == spec_run(*old(self), lines.deep_view()).1,
            r.1 == spec_run(*old(self), lines.deep_view()).2,
    {
        let ghost all = lines.deep_view();
        let mut emitted: Vec<Sample> = Vec::new();
        let mut i: usize = 0;
        proof {
            assert(all.skip(0) =~= all);
            assert(emitted@ + spec_run(*self, all).1 =~= spec_run(*self, all).1);
        }
        while i < lines.len()
            invariant
                0 <= i <= lines.len(),
                all == lines.deep_view(),
                all.len() == lines.len(),
                spec_run(*old(self), all).0 == spec_run(*self, all.skip(i as int)).0,
                spec_run(*old(self), all).1 == emitted@ + spec_run(*self, all.skip(i as int)).1,
                spec_run(*old(self), all).2 == spec_run(*self, all.skip(i as int)).2,
            decreases lines.len() - i,
        {
            let ghost pre = *self;
            let ghost rem = all.skip(i as int);
            proof {
                assert(rem.len() == all.len() - i);
                assert(rem[0] == all[i as int]);
                assert(all[i as int] == lines[i as int]@);
                assert(rem.drop_first() =~= all.skip(i + 1));
            }
            let out = self.step(lines[i].as_str());
            match out {
                StepOutcome::Quiet => {},
                StepOutcome::Emit(smp) => {
                    emitted.push(smp);
                    proof {
                        assert(emitted@ + spec_run(*self, all.skip(i + 1)).1 =~= emitted@.drop_last()
                            + (seq![smp] + spec_run(*self, all.skip(i + 1)).1));
                    }
                },
                StepOutcome::SectionEnd => {
                    proof {
                        assert(emitted@ + Seq::<Sample>::empty() =~= emitted@);
                    }
                    return (emitted, RunEnd::SectionEnd);
                },
                StepOutcome::Malformed => {
                    proof {
                        assert(emitted@ + Seq::<Sample>::empty() =~= emitted@);
                    }
                    return (emitted, RunEnd::Malformed);
                },
            }
            i = i + 1;
        }
        proof {
            assert(all.skip(i as int) =~= Seq::<Seq<char>>::empty());
            assert(emitted@ + Seq::<Sample>::empty() =~= emitted@);
        }
        (emitted, RunEnd::StreamEnd)
    }
}

} // verus!
