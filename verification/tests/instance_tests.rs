use mznlaunch::instance::{parse_scaled_token, parse_usize_token, split_ws_tokens};

#[test]
fn tokens_of_plain_line() {
    assert_eq!(split_ws_tokens("12 5 700"), vec!["12", "5", "700"]);
}

#[test]
fn tokens_skip_repeated_blanks() {
    assert_eq!(split_ws_tokens("  a\t\tbc \r\n"), vec!["a", "bc"]);
}

#[test]
fn tokens_of_empty_line() {
    assert_eq!(split_ws_tokens(""), Vec::<String>::new());
    assert_eq!(split_ws_tokens("   "), Vec::<String>::new());
}

#[test]
fn integer_token_parses() {
    assert_eq!(parse_usize_token("420"), Some(420));
    assert_eq!(parse_usize_token("0"), Some(0));
}

#[test]
fn integer_token_rejects_non_digits() {
    assert_eq!(parse_usize_token(""), None);
    assert_eq!(parse_usize_token("4a2"), None);
    assert_eq!(parse_usize_token("-1"), None);
    assert_eq!(parse_usize_token("1.5"), None);
}

#[test]
fn integer_token_rejects_oversized() {
    assert_eq!(parse_usize_token("99999999999999999999999999"), None);
}

#[test]
fn scaled_token_of_decimal() {
    assert_eq!(parse_scaled_token("12.34"), Some(123400));
    assert_eq!(parse_scaled_token("0.0001"), Some(1));
}

#[test]
fn scaled_token_of_integer() {
    assert_eq!(parse_scaled_token("7"), Some(70000));
}

#[test]
fn scaled_token_cuts_extra_places() {
    assert_eq!(parse_scaled_token("1.23456"), Some(12345));
}

#[test]
fn scaled_token_rejects_bad_shapes() {
    assert_eq!(parse_scaled_token(""), None);
    assert_eq!(parse_scaled_token(".5"), None);
    assert_eq!(parse_scaled_token("5."), None);
    assert_eq!(parse_scaled_token("5.x"), None);
    assert_eq!(parse_scaled_token("a.5"), None);
}
