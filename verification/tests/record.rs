use fyre_fractal_function::record::{format_record, parse_record};

fn bytes(s: &str) -> Vec<u8> {
    s.as_bytes().to_vec()
}

#[test]
fn formats_the_record_line_exactly() {
    let line = format_record(&bytes("1.5"), &bytes("-0.75"));
    assert_eq!(line, bytes("f(1.5) = -0.75"));
}

#[test]
fn formats_empty_parts() {
    let line = format_record(&bytes(""), &bytes(""));
    assert_eq!(line, bytes("f() = "));
}

#[test]
fn parses_a_well_formed_line() {
    let parsed = parse_record(&bytes("f(1.5) = -0.75"));
    assert_eq!(parsed, Some((bytes("1.5"), bytes("-0.75"))));
}

#[test]
fn parsing_splits_at_the_first_closing_parenthesis() {
    let parsed = parse_record(&bytes("f(1) = a)b"));
    assert_eq!(parsed, Some((bytes("1"), bytes("a)b"))));
}

#[test]
fn rejects_lines_without_the_prefix() {
    assert_eq!(parse_record(&bytes("g(1) = 2")), None);
    assert_eq!(parse_record(&bytes("")), None);
    assert_eq!(parse_record(&bytes("f")), None);
}

#[test]
fn rejects_lines_without_a_closing_parenthesis() {
    assert_eq!(parse_record(&bytes("f(1.5 = 2")), None);
    assert_eq!(parse_record(&bytes("f(")), None);
}

#[test]
fn rejects_lines_with_a_malformed_separator() {
    assert_eq!(parse_record(&bytes("f(1)= 2")), None);
    assert_eq!(parse_record(&bytes("f(1) =2")), None);
    assert_eq!(parse_record(&bytes("f(1)")), None);
    assert_eq!(parse_record(&bytes("f(1) = ")).is_some(), true);
}

#[test]
fn float_formatting_round_trips_through_the_line() {
    for &(x, value) in &[
        (0.0f64, 1.0f64),
        (0.5, -1.0),
        (-2.25, 0.000244140625),
        (1e300, -3.5e-9),
    ] {
        let line = format_record(
            &format!("{}", x).into_bytes(),
            &format!("{}", value).into_bytes(),
        );
        let (x_text, value_text) = parse_record(&line).expect("round trip must parse");
        let x_back: f64 = String::from_utf8(x_text).unwrap().parse().unwrap();
        let value_back: f64 = String::from_utf8(value_text).unwrap().parse().unwrap();
        assert_eq!(x_back, x);
        assert_eq!(value_back, value);
    }
}
