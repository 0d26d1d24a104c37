use sensortop::number::parse_centi;
use sensortop::parser::{ParserState, RunEnd, Sample};
use sensortop::render::{format_centi, render_lines};

fn text(v: &Vec<char>) -> String {
    v.iter().collect()
}

#[test]
fn parse_whole_number() {
    assert_eq!(parse_centi("1200"), Some(120000));
    assert_eq!(parse_centi("0"), Some(0));
    assert_eq!(parse_centi("7"), Some(700));
}

#[test]
fn parse_one_fractional_digit() {
    assert_eq!(parse_centi("45.5"), Some(4550));
    assert_eq!(parse_centi("0.1"), Some(10));
}

#[test]
fn parse_two_fractional_digits() {
    assert_eq!(parse_centi("45.53"), Some(4553));
    assert_eq!(parse_centi("99.99"), Some(9999));
}

#[test]
fn parse_rounds_half_up_at_third_digit() {
    assert_eq!(parse_centi("45.567"), Some(4557));
    assert_eq!(parse_centi("45.564"), Some(4556));
    assert_eq!(parse_centi("45.565"), Some(4557));
    assert_eq!(parse_centi("0.005"), Some(1));
    assert_eq!(parse_centi("0.0049"), Some(0));
}

#[test]
fn parse_dot_edge_forms() {
    assert_eq!(parse_centi("12."), Some(1200));
    assert_eq!(parse_centi(".5"), Some(50));
    assert_eq!(parse_centi("00012"), Some(1200));
}

#[test]
fn parse_rejects_malformed_tokens() {
    assert_eq!(parse_centi(""), None);
    assert_eq!(parse_centi("."), None);
    assert_eq!(parse_centi("..."), None);
    assert_eq!(parse_centi("1.2.3"), None);
    assert_eq!(parse_centi("12a"), None);
    assert_eq!(parse_centi("-5"), None);
}

#[test]
fn parse_saturates_huge_values() {
    assert_eq!(parse_centi("999999999999999999999999999"), Some(u64::MAX));
    // Just below the representable limit parsing is still exact; just above
    // it saturates.
    assert_eq!(parse_centi("184467440737095516.14"), Some(u64::MAX - 1));
    assert_eq!(parse_centi("184467440737095516.16"), Some(u64::MAX));
}

#[test]
fn format_two_decimal_digits() {
    assert_eq!(text(&format_centi(120000)), "1200.00");
    assert_eq!(text(&format_centi(4550)), "45.50");
    assert_eq!(text(&format_centi(5000)), "50.00");
    assert_eq!(text(&format_centi(0)), "0.00");
    assert_eq!(text(&format_centi(7)), "0.07");
    assert_eq!(text(&format_centi(70)), "0.70");
    assert_eq!(text(&format_centi(101)), "1.01");
}

#[test]
fn rendered_layout_is_three_labelled_lines() {
    let smp = Sample { fan_centi: 120000, cpu_centi: 4550, gpu_centi: 5000 };
    let out = render_lines(&smp);
    assert_eq!(out.len(), 3);
    assert_eq!(text(&out[0]), "Fan: 1200.00 rpm");
    assert_eq!(text(&out[1]), "CPU die temperature: 45.50 C");
    assert_eq!(text(&out[2]), "GPU die temperature: 50.00 C");
}

#[test]
fn rendered_lines_reparse_to_the_same_sample() {
    let smp = Sample { fan_centi: 123456, cpu_centi: 7, gpu_centi: 0 };
    let rendered: Vec<String> = render_lines(&smp).iter().map(|l| text(l)).collect();

    let mut p = ParserState::new();
    p.step("**** SMC sensors ****");
    let (samples, end) = p.run(&rendered);
    assert_eq!(samples, vec![smp]);
    assert_eq!(end, RunEnd::StreamEnd);
}
