use sensortop::parser::{ParserState, RunEnd, Sample, StepOutcome};

fn lines(v: &[&str]) -> Vec<String> {
    v.iter().map(|s| String::from(*s)).collect()
}

#[test]
fn one_section_one_sample() {
    let mut p = ParserState::new();
    let (samples, end) = p.run(&lines(&[
        "**** SMC sensors ****",
        "Fan: 1200 rpm",
        "CPU die temperature: 45.5 C",
        "GPU die temperature: 50.0 C",
        "**** Battery ****",
    ]));
    assert_eq!(
        samples,
        vec![Sample { fan_centi: 120000, cpu_centi: 4550, gpu_centi: 5000 }]
    );
    assert_eq!(end, RunEnd::SectionEnd);
}

#[test]
fn one_section_any_order() {
    let mut p = ParserState::new();
    let (samples, end) = p.run(&lines(&[
        "**** SMC sensors ****",
        "GPU die temperature: 50.0 C",
        "Fan: 1200 rpm",
        "CPU die temperature: 45.5 C",
        "**** Battery ****",
    ]));
    assert_eq!(
        samples,
        vec![Sample { fan_centi: 120000, cpu_centi: 4550, gpu_centi: 5000 }]
    );
    assert_eq!(end, RunEnd::SectionEnd);
}

#[test]
fn two_fields_no_sample() {
    let mut p = ParserState::new();
    let (samples, end) = p.run(&lines(&[
        "**** SMC sensors ****",
        "Fan: 1200 rpm",
        "CPU die temperature: 45.5 C",
    ]));
    assert!(samples.is_empty());
    assert_eq!(end, RunEnd::StreamEnd);
}

#[test]
fn partial_values_carry_over_between_sections() {
    // The sensor section recurs; fields accumulated in the first occurrence
    // survive into the second and complete the triple there.
    let mut p = ParserState::new();
    let (samples, end) = p.run(&lines(&[
        "**** SMC sensors ****",
        "Fan: 1200 rpm",
        "CPU die temperature: 45.5 C",
        "**** SMC sensors ****",
        "GPU die temperature: 50.0 C",
    ]));
    assert_eq!(
        samples,
        vec![Sample { fan_centi: 120000, cpu_centi: 4550, gpu_centi: 5000 }]
    );
    assert_eq!(end, RunEnd::StreamEnd);
}

#[test]
fn two_triples_two_samples() {
    let mut p = ParserState::new();
    let (samples, end) = p.run(&lines(&[
        "**** SMC sensors ****",
        "Fan: 1200 rpm",
        "CPU die temperature: 45.5 C",
        "GPU die temperature: 50.0 C",
        "Fan: 1300 rpm",
        "CPU die temperature: 46.0 C",
        "GPU die temperature: 51.0 C",
    ]));
    assert_eq!(
        samples,
        vec![
            Sample { fan_centi: 120000, cpu_centi: 4550, gpu_centi: 5000 },
            Sample { fan_centi: 130000, cpu_centi: 4600, gpu_centi: 5100 },
        ]
    );
    assert_eq!(end, RunEnd::StreamEnd);
}

#[test]
fn non_numeric_value_is_ignored() {
    let mut p = ParserState::new();
    let out = p.step("**** SMC sensors ****");
    assert_eq!(out, StepOutcome::Quiet);
    let before = p;
    let out = p.step("Fan: abc rpm");
    assert_eq!(out, StepOutcome::Quiet);
    assert_eq!(p, before);
}

#[test]
fn close_before_open_has_no_effect() {
    let mut p = ParserState::new();
    let before = p;
    let out = p.step("**** Battery ****");
    assert_eq!(out, StepOutcome::Quiet);
    assert_eq!(p, before);

    // The section still opens normally afterwards.
    let (samples, end) = p.run(&lines(&[
        "**** SMC sensors ****",
        "Fan: 1 rpm",
        "CPU die temperature: 2 C",
        "GPU die temperature: 3 C",
    ]));
    assert_eq!(samples.len(), 1);
    assert_eq!(end, RunEnd::StreamEnd);
}

#[test]
fn stream_end_discards_partial_sample() {
    let mut p = ParserState::new();
    let (samples, end) = p.run(&lines(&[
        "**** SMC sensors ****",
        "Fan: 1200 rpm",
        "GPU die temperature: 50.0 C",
    ]));
    assert!(samples.is_empty());
    assert_eq!(end, RunEnd::StreamEnd);
    // The partial values are still accumulated, not emitted.
    assert_eq!(p.fan, Some(120000));
    assert_eq!(p.cpu, None);
    assert_eq!(p.gpu, Some(5000));
}

#[test]
fn lines_outside_section_are_ignored() {
    let mut p = ParserState::new();
    let (samples, end) = p.run(&lines(&[
        "Fan: 1200 rpm",
        "CPU die temperature: 45.5 C",
        "GPU die temperature: 50.0 C",
    ]));
    assert!(samples.is_empty());
    assert_eq!(end, RunEnd::StreamEnd);
    assert_eq!(p.fan, None);
}

#[test]
fn first_pattern_wins_on_one_line() {
    let mut p = ParserState::new();
    p.step("**** SMC sensors ****");
    let out = p.step("Fan: 7 rpm CPU die temperature: 9 C");
    assert_eq!(out, StepOutcome::Quiet);
    assert_eq!(p.fan, Some(700));
    assert_eq!(p.cpu, None);
}

#[test]
fn leftmost_successful_match_is_captured() {
    let mut p = ParserState::new();
    p.step("**** SMC sensors ****");
    // The first "Fan: " occurrence is not followed by a number and " rpm",
    // so the later occurrence matches.
    let out = p.step("Fan: x rpm Fan: 5 rpm");
    assert_eq!(out, StepOutcome::Quiet);
    assert_eq!(p.fan, Some(500));
}

#[test]
fn malformed_token_is_fatal() {
    let mut p = ParserState::new();
    p.step("**** SMC sensors ****");
    let out = p.step("Fan: 1.2.3 rpm");
    assert_eq!(out, StepOutcome::Malformed);

    let mut p = ParserState::new();
    let (samples, end) = p.run(&lines(&[
        "**** SMC sensors ****",
        "Fan: ... rpm",
        "CPU die temperature: 45.5 C",
    ]));
    assert!(samples.is_empty());
    assert_eq!(end, RunEnd::Malformed);
}

#[test]
fn reading_stops_at_section_close() {
    let mut p = ParserState::new();
    let (samples, end) = p.run(&lines(&[
        "**** SMC sensors ****",
        "Fan: 1 rpm",
        "**** Battery ****",
        "CPU die temperature: 2 C",
        "GPU die temperature: 3 C",
    ]));
    assert!(samples.is_empty());
    assert_eq!(end, RunEnd::SectionEnd);
    // Lines after the close were not consumed.
    assert_eq!(p.cpu, None);
    assert_eq!(p.gpu, None);
}

#[test]
fn three_stars_are_not_a_marker() {
    let mut p = ParserState::new();
    p.step("**** SMC sensors ****");
    let out = p.step("*** interlude ***");
    assert_eq!(out, StepOutcome::Quiet);

    // A marker of more than four stars still counts.
    let out = p.step("***** Battery *****");
    assert_eq!(out, StepOutcome::SectionEnd);
}

#[test]
fn zero_reading_counts_as_present() {
    // A stalled fan at exactly 0 rpm still completes the triple.
    let mut p = ParserState::new();
    let (samples, end) = p.run(&lines(&[
        "**** SMC sensors ****",
        "Fan: 0 rpm",
        "CPU die temperature: 45.5 C",
        "GPU die temperature: 50.0 C",
    ]));
    assert_eq!(
        samples,
        vec![Sample { fan_centi: 0, cpu_centi: 4550, gpu_centi: 5000 }]
    );
    assert_eq!(end, RunEnd::StreamEnd);
}

#[test]
fn repeated_field_overwrites_accumulator() {
    let mut p = ParserState::new();
    p.step("**** SMC sensors ****");
    p.step("Fan: 1200 rpm");
    p.step("Fan: 1250 rpm");
    assert_eq!(p.fan, Some(125000));
}
