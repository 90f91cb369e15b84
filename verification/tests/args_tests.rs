use spritesheet::args::max_cols_value;
use spritesheet::args::output_allowed;
use spritesheet::args::output_value;
use spritesheet::args::parse_u32_str;

#[test]
fn parse_plain_number() {
    assert_eq!(parse_u32_str("10"), Some(10));
}

#[test]
fn parse_zero() {
    assert_eq!(parse_u32_str("0"), Some(0));
}

#[test]
fn parse_leading_plus() {
    assert_eq!(parse_u32_str("+7"), Some(7));
}

#[test]
fn parse_leading_zeros() {
    assert_eq!(parse_u32_str("007"), Some(7));
}

#[test]
fn parse_max_value() {
    assert_eq!(parse_u32_str("4294967295"), Some(u32::MAX));
}

#[test]
fn parse_overflow() {
    assert_eq!(parse_u32_str("4294967296"), None);
    assert_eq!(parse_u32_str("99999999999999999999"), None);
}

#[test]
fn parse_empty() {
    assert_eq!(parse_u32_str(""), None);
}

#[test]
fn parse_plus_alone() {
    assert_eq!(parse_u32_str("+"), None);
    assert_eq!(parse_u32_str("++7"), None);
}

#[test]
fn parse_non_numeric() {
    assert_eq!(parse_u32_str("abc"), None);
    assert_eq!(parse_u32_str("1 2"), None);
    assert_eq!(parse_u32_str("-1"), None);
}

#[test]
fn parse_agrees_with_std() {
    let cases = [
        "10",
        "0",
        "+7",
        "007",
        "4294967295",
        "4294967296",
        "",
        "+",
        "abc",
        "-1",
        "1 2",
        "12e3",
        "\u{0663}",
    ];
    for s in cases {
        assert_eq!(parse_u32_str(s), s.parse::<u32>().ok(), "input {:?}", s);
    }
}

#[test]
fn max_cols_default_is_ten() {
    assert_eq!(max_cols_value(None), Some(10));
}

#[test]
fn max_cols_zero_coerced_to_one() {
    assert_eq!(max_cols_value(Some("0")), Some(1));
}

#[test]
fn max_cols_plain() {
    assert_eq!(max_cols_value(Some("4")), Some(4));
}

#[test]
fn max_cols_bad_value_is_usage_error() {
    assert_eq!(max_cols_value(Some("four")), None);
    assert_eq!(max_cols_value(Some("-2")), None);
}

#[test]
fn output_default_name() {
    assert_eq!(output_value(None), "spritesheet_out.png");
}

#[test]
fn output_given_name() {
    assert_eq!(output_value(Some("atlas.png")), "atlas.png");
}

#[test]
fn existing_output_refused_without_force() {
    assert!(!output_allowed(true, false));
    assert!(output_allowed(true, true));
    assert!(output_allowed(false, false));
    assert!(output_allowed(false, true));
}
