//! Tests of the duration parser.

use hltb::parse;

#[test]
fn placeholders_parse_to_none() {
    assert_eq!(parse(""), None);
    assert_eq!(parse("-"), None);
    assert_eq!(parse("--"), None);
}

#[test]
fn compact_form_hours_and_minutes() {
    assert_eq!(parse("26h 21m"), Some(26 * 3600 + 21 * 60));
    assert_eq!(parse("4h 8m"), Some(4 * 3600 + 8 * 60));
    assert_eq!(parse("4h"), Some(4 * 3600));
    assert_eq!(parse("45m"), Some(45 * 60));
    assert_eq!(parse("0h 5m"), Some(300));
}

#[test]
fn compact_form_zero_total_is_none() {
    // A total of exactly zero is reported as "no duration data".
    assert_eq!(parse("0h"), None);
    assert_eq!(parse("0m"), None);
    assert_eq!(parse("0h 0m"), None);
}

#[test]
fn compact_form_fractional_tokens() {
    assert_eq!(parse("1.5h"), Some(5400));
    assert_eq!(parse("0.5m"), Some(30));
}

#[test]
fn compact_form_skips_unrecognized_tokens() {
    assert_eq!(parse("4h junk 5m"), Some(4 * 3600 + 5 * 60));
    assert_eq!(parse("about 4h"), Some(4 * 3600));
    assert_eq!(parse("junk"), None);
}

#[test]
fn decimal_hours_whole() {
    assert_eq!(parse("83 Hours"), Some(83 * 3600));
}

#[test]
fn decimal_hours_vulgar_fractions() {
    assert_eq!(parse("59\u{00bd} Hours"), Some(214200));
    assert_eq!(parse("59\u{00bc} Hours"), Some(213300));
    assert_eq!(parse("59\u{00be} Hours"), Some(215100));
    assert_eq!(parse("\u{00bd} Hours"), Some(1800));
}

#[test]
fn decimal_hours_unparseable_is_none() {
    assert_eq!(parse("Hours"), None);
    assert_eq!(parse("many Hours"), None);
    assert_eq!(parse("1 Hour"), Some(3600));
}

#[test]
fn parse_is_deterministic() {
    let cases = [
        "",
        "-",
        "--",
        "26h 21m",
        "83 Hours",
        "59\u{00bd} Hours",
        "junk",
        "4h junk 5m",
    ];
    for t in cases {
        assert_eq!(parse(t), parse(t));
        assert_eq!(parse(t), parse(&t.to_string()));
    }
}
