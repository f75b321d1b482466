use graphql_parser::tokenizer::Kind::{
    BlockString, FloatValue, IntValue, Name, Punctuator, StringValue,
};
use graphql_parser::tokenizer::{Kind, ScanError, TokenStream};

fn tok_str(s: &str) -> Vec<&str> {
    let mut r = Vec::new();
    let mut s = TokenStream::new(s);
    loop {
        match s.uncons() {
            Ok(x) => r.push(x.value),
            Err(ScanError::EndOfInput) => break,
            Err(e) => panic!("Parse error at {:?}: {}", s.position(), e.to_string()),
        }
    }
    return r;
}

fn tok_typ(s: &str) -> Vec<Kind> {
    let mut r = Vec::new();
    let mut s = TokenStream::new(s);
    loop {
        match s.uncons() {
            Ok(x) => r.push(x.kind),
            Err(ScanError::EndOfInput) => break,
            Err(e) => panic!("Parse error at {:?}: {}", s.position(), e.to_string()),
        }
    }
    return r;
}

fn tok_err(s: &str) -> ScanError {
    let mut s = TokenStream::new(s);
    loop {
        match s.uncons() {
            Ok(_) => {}
            Err(e) => return e,
        }
    }
}

#[test]
fn comments_and_commas() {
    assert_eq!(tok_str("# hello { world }"), &[] as &[&str]);
    assert_eq!(tok_str("# x\n,,,"), &[] as &[&str]);
    assert_eq!(tok_str(", ,,  ,,,  # x"), &[] as &[&str]);
}

#[test]
fn simple() {
    assert_eq!(tok_str("a { b }"), ["a", "{", "b", "}"]);
    assert_eq!(tok_typ("a { b }"), [Name, Punctuator, Name, Punctuator]);
}

#[test]
fn query() {
    assert_eq!(
        tok_str(
            "query Query {
            object { field }
        }"
        ),
        ["query", "Query", "{", "object", "{", "field", "}", "}"]
    );
}

#[test]
fn tokenizer_fragment() {
    assert_eq!(tok_str("a { ...b }"), ["a", "{", "...", "b", "}"]);
}

#[test]
fn tokenizer_int() {
    assert_eq!(tok_str("0"), ["0"]);
    assert_eq!(tok_str("0,"), ["0"]);
    assert_eq!(tok_str("0# x"), ["0"]);
    assert_eq!(tok_typ("0"), [IntValue]);
    assert_eq!(tok_str("-0"), ["-0"]);
    assert_eq!(tok_typ("-0"), [IntValue]);
    assert_eq!(tok_str("-1"), ["-1"]);
    assert_eq!(tok_typ("-1"), [IntValue]);
    assert_eq!(tok_str("-132"), ["-132"]);
    assert_eq!(tok_typ("-132"), [IntValue]);
    assert_eq!(tok_str("132"), ["132"]);
    assert_eq!(tok_typ("132"), [IntValue]);
    assert_eq!(
        tok_str("a(x: 10) { b }"),
        ["a", "(", "x", ":", "10", ")", "{", "b", "}"]
    );
    assert_eq!(
        tok_typ("a(x: 10) { b }"),
        [
            Name, Punctuator, Name, Punctuator, IntValue, Punctuator, Punctuator, Name,
            Punctuator,
        ]
    );
}

#[test]
#[should_panic]
fn zero_int() {
    tok_str("01");
}

#[test]
#[should_panic]
fn zero_int4() {
    tok_str("00001");
}

#[test]
#[should_panic]
fn minus_int() {
    tok_str("-");
}

#[test]
#[should_panic]
fn minus_zero_int() {
    tok_str("-01");
}

#[test]
#[should_panic]
fn minus_zero_int4() {
    tok_str("-00001");
}

#[test]
#[should_panic]
fn letters_int() {
    tok_str("0bbc");
}

#[test]
fn float() {
    assert_eq!(tok_str("0.0"), ["0.0"]);
    assert_eq!(tok_typ("0.0"), [FloatValue]);
    assert_eq!(tok_str("-0.0"), ["-0.0"]);
    assert_eq!(tok_typ("-0.0"), [FloatValue]);
    assert_eq!(tok_str("-1.0"), ["-1.0"]);
    assert_eq!(tok_typ("-1.0"), [FloatValue]);
    assert_eq!(tok_str("-1.023"), ["-1.023"]);
    assert_eq!(tok_typ("-1.023"), [FloatValue]);
    assert_eq!(tok_str("-132.0"), ["-132.0"]);
    assert_eq!(tok_typ("-132.0"), [FloatValue]);
    assert_eq!(tok_str("132.0"), ["132.0"]);
    assert_eq!(tok_typ("132.0"), [FloatValue]);
    assert_eq!(tok_str("0e+0"), ["0e+0"]);
    assert_eq!(tok_typ("0e+0"), [FloatValue]);
    assert_eq!(tok_str("0.0e+0"), ["0.0e+0"]);
    assert_eq!(tok_typ("0.0e+0"), [FloatValue]);
    assert_eq!(tok_str("-0e+0"), ["-0e+0"]);
    assert_eq!(tok_typ("-0e+0"), [FloatValue]);
    assert_eq!(tok_str("-1e+0"), ["-1e+0"]);
    assert_eq!(tok_typ("-1e+0"), [FloatValue]);
    assert_eq!(tok_str("-132e+0"), ["-132e+0"]);
    assert_eq!(tok_typ("-132e+0"), [FloatValue]);
    assert_eq!(tok_str("132e+0"), ["132e+0"]);
    assert_eq!(tok_typ("132e+0"), [FloatValue]);
    assert_eq!(
        tok_str("a(x: 10.0) { b }"),
        ["a", "(", "x", ":", "10.0", ")", "{", "b", "}"]
    );
    assert_eq!(
        tok_typ("a(x: 10.0) { b }"),
        [
            Name, Punctuator, Name, Punctuator, FloatValue, Punctuator, Punctuator, Name,
            Punctuator,
        ]
    );
}

#[test]
#[should_panic]
fn no_int_float() {
    tok_str(".0");
}

#[test]
#[should_panic]
fn no_int_float1() {
    tok_str(".1");
}

#[test]
#[should_panic]
fn zero_float() {
    tok_str("01.0");
}

#[test]
#[should_panic]
fn zero_float4() {
    tok_str("00001.0");
}

#[test]
#[should_panic]
fn minus_float() {
    tok_str("-.0");
}

#[test]
#[should_panic]
fn minus_zero_float() {
    tok_str("-01.0");
}

#[test]
#[should_panic]
fn minus_zero_float4() {
    tok_str("-00001.0");
}

#[test]
#[should_panic]
fn letters_float() {
    tok_str("0bbc.0");
}

#[test]
#[should_panic]
fn letters_float2() {
    tok_str("0.bbc");
}

#[test]
#[should_panic]
fn letters_float3() {
    tok_str("0.bbce0");
}

#[test]
#[should_panic]
fn no_exp_sign_float() {
    tok_str("0e0");
}

#[test]
fn string() {
    assert_eq!(tok_str(r#""""#), [r#""""#]);
    assert_eq!(tok_typ(r#""""#), [StringValue]);
    assert_eq!(tok_str(r#""hello""#), [r#""hello""#]);
    assert_eq!(tok_typ(r#""hello""#), [StringValue]);
    assert_eq!(tok_str(r#""my\"quote""#), [r#""my\"quote""#]);
    assert_eq!(tok_typ(r#""my\"quote""#), [StringValue]);
}

#[test]
fn block_string() {
    assert_eq!(tok_str(r#""""""""#), [r#""""""""#]);
    assert_eq!(tok_typ(r#""""""""#), [BlockString]);
    assert_eq!(tok_str(r#""""hello""""#), [r#""""hello""""#]);
    assert_eq!(tok_typ(r#""""hello""""#), [BlockString]);
    assert_eq!(tok_str(r#""""my "quote" """"#), [r#""""my "quote" """"#]);
    assert_eq!(tok_typ(r#""""my "quote" """"#), [BlockString]);
    assert_eq!(tok_str(r#""""\"""quote" """"#), [r#""""\"""quote" """"#]);
    assert_eq!(tok_typ(r#""""\"""quote" """"#), [BlockString]);
}

#[test]
fn number_grammar_accepts_and_rejects() {
    for text in ["0", "-0", "132", "-132"] {
        assert_eq!(tok_typ(text), [IntValue]);
        assert_eq!(tok_str(text), [text]);
    }
    for text in ["01", "-01", "-", "00001"] {
        assert_eq!(tok_err(text), ScanError::BadInt(text.to_string()));
    }
    for text in ["0.0", "-1.023", "0e+0", "0.0e+0"] {
        assert_eq!(tok_typ(text), [FloatValue]);
        assert_eq!(tok_str(text), [text]);
    }
    assert_eq!(tok_err(".0"), ScanError::BareDot);
    assert_eq!(tok_err("0e0"), ScanError::BadFloat("0e0".to_string()));
    assert_eq!(tok_err("0.bbc"), ScanError::BadFloat("0.bbc".to_string()));
    assert_eq!(tok_err("1.5e3"), ScanError::BadFloat("1.5e3".to_string()));
    assert_eq!(tok_err("1e+5.2"), ScanError::BadFloat("1e+5.2".to_string()));
}

#[test]
fn scan_errors() {
    assert_eq!(tok_err("a ; b"), ScanError::UnexpectedChar(';'));
    assert_eq!(tok_err("a .. b"), ScanError::BareDot);
    assert_eq!(tok_err("\"abc"), ScanError::UnterminatedString);
    assert_eq!(tok_err("\"abc\ndef\""), ScanError::UnterminatedString);
    assert_eq!(tok_err("\"\"\"abc"), ScanError::UnterminatedBlockString);
    assert_eq!(tok_err("\"\"\"abc\\\"\"\""), ScanError::UnterminatedBlockString);
    assert_eq!(
        tok_err("a ; b").to_string(),
        "Unexpected `unexpected character ';'`"
    );
    assert_eq!(
        tok_err("-x").to_string(),
        "Unexpected `unsupported integer \"-x\"`"
    );
    assert_eq!(
        tok_err(".").to_string(),
        "Unexpected `bare dot '.' is not suppored, only \"...\"`"
    );
}

#[test]
fn positions_follow_the_source() {
    let mut s = TokenStream::new("\u{feff}a,\tb\r\n  # note\nc \"\"\"x\ny\"\"\" d");
    assert_eq!((s.position().line, s.position().column), (1, 1));
    assert_eq!(s.uncons().unwrap().value, "a");
    // comma: one column, tab: eight
    assert_eq!((s.position().line, s.position().column), (1, 11));
    assert_eq!(s.uncons().unwrap().value, "b");
    // the line feed, and the comment, which counts as a line break
    assert_eq!((s.position().line, s.position().column), (3, 1));
    assert_eq!(s.uncons().unwrap().value, "c");
    assert_eq!((s.position().line, s.position().column), (3, 3));
    assert_eq!(s.uncons().unwrap().value, "\"\"\"x\ny\"\"\"");
    assert_eq!((s.position().line, s.position().column), (4, 6));
    assert_eq!(s.uncons().unwrap().value, "d");
    assert_eq!(s.uncons(), Err(ScanError::EndOfInput));
    assert_eq!(s.offset(), 29);
}

#[test]
fn checkpoint_and_reset() {
    let mut s = TokenStream::new("a b c");
    assert_eq!(s.uncons().unwrap().value, "a");
    let checkpoint = s.checkpoint();
    assert_eq!(s.uncons().unwrap().value, "b");
    assert_eq!(s.uncons().unwrap().value, "c");
    s.reset(checkpoint);
    assert_eq!(s.remainder(), "b c");
    assert_eq!(s.uncons().unwrap().value, "b");
}

#[test]
fn brackets_use_up_the_depth() {
    let mut s = TokenStream::with_recursion_limit("[[]][[[", 2);
    for _ in 0..6 {
        assert_eq!(s.uncons().unwrap().kind, Punctuator);
    }
    assert_eq!(s.uncons(), Err(ScanError::RecursionLimit));
    assert_eq!(s.uncons(), Err(ScanError::RecursionLimit));
    assert_eq!(s.position().column, 7);
}

#[test]
fn token_to_string() {
    let mut s = TokenStream::new("where");
    assert_eq!(s.uncons().unwrap().to_string(), "where[Name]");
}

#[test]
fn a_comment_ends_with_one_line_break() {
    let s = TokenStream::new("# x\r\na");
    assert_eq!((s.position().line, s.position().column), (2, 1));
    let mut s = TokenStream::new("# x\r\na");
    assert_eq!(s.uncons().unwrap().value, "a");
    let s = TokenStream::new("# x\na");
    assert_eq!((s.position().line, s.position().column), (2, 1));
    let s = TokenStream::new("# x\ra");
    assert_eq!((s.position().line, s.position().column), (2, 1));
    let s = TokenStream::new("# x\r\r\na");
    assert_eq!((s.position().line, s.position().column), (3, 1));
    let s = TokenStream::new("a # x\r\n\r\n  b");
    let mut s = s;
    assert_eq!(s.uncons().unwrap().value, "a");
    assert_eq!((s.position().line, s.position().column), (3, 3));
}
