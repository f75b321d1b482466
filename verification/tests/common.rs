use graphql_parser::common::Number;
use graphql_parser::number::{check_dec, check_exp, check_float, check_int};
use graphql_parser::unquote::{unquote_block_string, unquote_string, UnquoteError};

fn triple_quote(input: &str) -> String {
    format!("\"\"\"{}\"\"\"", input)
}

#[test]
fn number_from_i32_and_to_i64_conversion() {
    assert_eq!(Number::from(1).as_i64(), Some(1));
    assert_eq!(Number::from(584).as_i64(), Some(584));
    assert_eq!(Number::from(i32::MIN).as_i64(), Some(i32::MIN as i64));
    assert_eq!(Number::from(i32::MAX).as_i64(), Some(i32::MAX as i64));
}

#[test]
fn unquote_unicode_string() {
    // basic tests
    assert_eq!(unquote_string(r#""\u0009""#).expect(""), "\u{0009}");
    assert_eq!(unquote_string(r#""\u000A""#).expect(""), "\u{000A}");
    assert_eq!(unquote_string(r#""\u000D""#).expect(""), "\u{000D}");
    assert_eq!(unquote_string(r#"" ""#).expect(""), "\u{0020}");
    assert_eq!(unquote_string(r#""￿""#).expect(""), "\u{FFFF}");

    // a more complex string
    assert_eq!(
        unquote_string(r#""\u0009 hello \u000A there""#).expect(""),
        "\u{0009} hello \u{000A} there"
    );
}

#[test]
fn block_string_leading_and_trailing_empty_lines() {
    let block = &triple_quote("   \n\n  Hello,\n    World!\n\n  Yours,\n    GraphQL.\n\n\n");
    assert_eq!(
        unquote_block_string(block),
        Result::Ok("Hello,\n  World!\n\nYours,\n  GraphQL.".to_string())
    );
}

#[test]
fn block_string_indent() {
    let block = &triple_quote("Hello   \n\n  Hello,\n    World!\n");
    assert_eq!(
        unquote_block_string(block),
        Result::Ok("Hello   \n\nHello,\n  World!".to_string())
    );
}

#[test]
fn block_string_escaping() {
    let block = triple_quote(r#"\""""#);
    assert_eq!(
        unquote_block_string(&block),
        Result::Ok("\"\"\"".to_string())
    );
}

#[test]
fn block_string_empty() {
    let block = triple_quote("");
    assert_eq!(unquote_block_string(&block), Result::Ok("".to_string()));
    let block = triple_quote("   \n\t\n");
    assert_eq!(unquote_block_string(&block), Result::Ok("".to_string()));
}

#[test]
fn block_string_short_blank_line_becomes_empty() {
    let block = triple_quote("a\n    b\n  \n    c");
    assert_eq!(
        unquote_block_string(&block),
        Result::Ok("a\nb\n\nc".to_string())
    );
}

#[test]
fn block_string_carriage_returns() {
    let block = triple_quote("a\r\n  b\r\n  c\r");
    assert_eq!(
        unquote_block_string(&block),
        Result::Ok("a\nb\nc\r".to_string())
    );
}

#[test]
fn unquote_escapes() {
    assert_eq!(
        unquote_string(r#""a\"b\\c\/d\fe\nf\rg\th""#),
        Ok("a\"b\\c/d\u{c}e\nf\rg\th".to_string())
    );
    assert_eq!(unquote_string(r#""\b""#), Ok("\u{8}".to_string()));
    assert_eq!(unquote_string("\"\""), Ok(String::new()));
}

#[test]
fn unquote_errors() {
    assert_eq!(unquote_string(r#""\x""#), Err(UnquoteError::BadEscape('x')));
    assert_eq!(
        unquote_string(r#""\u12""#),
        Err(UnquoteError::ShortCodePoint("12".to_string()))
    );
    assert_eq!(
        unquote_string(r#""\uD800""#),
        Err(UnquoteError::BadCodePoint("D800".to_string()))
    );
    assert_eq!(
        unquote_string(r#""\u+123""#),
        Err(UnquoteError::BadCodePoint("+123".to_string()))
    );
    assert_eq!(
        unquote_string("\"\\\""),
        Err(UnquoteError::DanglingBackslash)
    );
    assert_eq!(
        UnquoteError::BadEscape('x').message(),
        "bad escaped char 'x'"
    );
    assert_eq!(
        UnquoteError::ShortCodePoint("12".to_string()).message(),
        "\\u must have 4 characters after it, only found '12'"
    );
    assert_eq!(
        UnquoteError::BadCodePoint("D800".to_string()).message(),
        "D800 is not a valid unicode code point"
    );
}

#[test]
fn check_number_parts() {
    assert!(check_int("0"));
    assert!(check_int("-0"));
    assert!(check_int("132"));
    assert!(check_int("-132"));
    assert!(!check_int("01"));
    assert!(!check_int("-01"));
    assert!(!check_int("-"));
    assert!(!check_int("00001"));
    assert!(!check_int(""));
    assert!(!check_int("1a"));
    assert!(check_dec("0"));
    assert!(check_dec("023"));
    assert!(!check_dec(""));
    assert!(!check_dec("-1"));
    assert!(check_exp("+0"));
    assert!(check_exp("-12"));
    assert!(!check_exp("0"));
    assert!(!check_exp("+"));
    assert!(check_float("0.0", None, Some(1)));
    assert!(check_float("-1.023", None, Some(2)));
    assert!(check_float("0e+0", Some(1), None));
    assert!(check_float("0.0e+0", Some(3), Some(1)));
    assert!(!check_float("0e+0.0", Some(1), Some(4)));
    assert!(!check_float("0.bbc", None, Some(1)));
    assert!(!check_float("0e0", Some(1), None));
    assert!(!check_float("1.5", None, None));
    assert!(!check_float("1.5", None, Some(7)));
}
