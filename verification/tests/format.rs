use graphql_parser::format::{Formatter, Style};
use graphql_parser::query::{Transformed, TransformedValue};
use graphql_parser::unquote::{unquote_block_string, unquote_string};

fn quoted(s: &str) -> String {
    let style = Style::default();
    let mut f = Formatter::new(&style);
    f.write_quoted(s);
    f.into_string()
}

#[test]
fn formatter_steps() {
    let style = Style::default();
    let mut f = Formatter::new(&style);
    f.margin();
    f.write("a");
    f.write_char(' ');
    f.start_block();
    f.indent();
    f.write("b");
    f.start_argument_block('(');
    f.start_argument();
    f.write("x");
    f.deliniate_argument();
    f.start_argument();
    f.write("y");
    f.end_argument_block(')');
    f.endline();
    f.end_block();
    f.margin();
    f.inc_indent();
    f.indent();
    f.dec_indent();
    f.indent();
    assert_eq!(f.into_string(), "a {\n  b(x, y)\n}\n\n  ");
}

#[test]
fn formatter_steps_multiline() {
    let mut style = Style::default();
    style.indent(3).multiline_arguments(true);
    let mut f = Formatter::new(&style);
    f.start_block();
    f.indent();
    f.write("b");
    f.start_argument_block('(');
    f.start_argument();
    f.write("x");
    f.deliniate_argument();
    f.start_argument();
    f.write("y");
    f.end_argument_block(')');
    f.endline();
    f.end_block();
    assert_eq!(f.into_string(), "{\n   b(\n      x,\n      y\n   )\n}\n");
}

#[test]
fn going_up_leads_back() {
    let mut style = Style::default();
    style.indent(4);
    let mut f = Formatter::new(&style);
    f.start_block();
    f.indent();
    f.start_block();
    f.indent();
    f.write("x\n");
    f.end_block();
    f.end_block();
    f.indent();
    assert_eq!(f.into_string(), "{\n    {\n        x\n    }\n}\n");
}

#[test]
fn an_indent_too_large_is_the_largest_and_leads_back() {
    let mut style = Style::default();
    style.indent(u32::MAX);
    let mut f = Formatter::new(&style);
    f.inc_indent();
    f.inc_indent();
    f.dec_indent();
    f.dec_indent();
    f.indent();
    f.write("}");
    assert_eq!(f.into_string(), "}");
}

#[test]
fn quotes_on_one_line() {
    assert_eq!(quoted(""), "\"\"");
    assert_eq!(quoted("hello"), "\"hello\"");
    assert_eq!(quoted("a\"b\\c\td\re"), "\"a\\\"b\\\\c\\td\\re\"");
    assert_eq!(quoted("\u{1}"), "\"\\u0001\"");
    assert_eq!(quoted("x\u{b}\ny"), "\"x\\u000b\\ny\"");
    assert_eq!(quoted("\u{1f}"), "\"\\u001f\"");
    assert_eq!(quoted("\u{10000}"), "\"\\u10000\"");
    assert_eq!(quoted("\u{ffff}é"), "\"\u{ffff}é\"");
}

#[test]
fn quotes_as_a_block() {
    assert_eq!(quoted("a\nb"), "\"\"\"\n  a\n  b\n\"\"\"");
    assert_eq!(quoted("a\n\n \nb\n"), "\"\"\"\n  a\n\n\n  b\n\"\"\"");
    assert_eq!(
        quoted("say \"\"\"\"\nor \\\"\"\""),
        "\"\"\"\n  say \\\"\"\"\"\n  or \\\\\"\"\"\n\"\"\""
    );
}

#[test]
fn what_is_quoted_reads_back() {
    for s in [
        "",
        "plain",
        "tab\tand\rreturn",
        "quote \" and \\ backslash \\\"",
        "\u{0}\u{1}\u{9} low",
        "\u{8}\u{b}\u{c}\u{e}\u{10}\u{1f} controls",
        "x\u{b}\ny",
        "é \u{ffff} high",
        "ends with backslash \\",
    ] {
        assert_eq!(unquote_string(&quoted(s)), Ok(s.to_string()), "{:?}", s);
    }
    for s in [
        "a\nb",
        "  deep\nshallow\n\n    deeper",
        "quotes \"\"\" in\n\\\"\"\" a block \"\"\"\"\"\"",
        "é\n\u{3000}wide space",
    ] {
        assert_eq!(unquote_block_string(&quoted(s)), Ok(s.to_string()), "{:?}", s);
    }
}

#[test]
fn what_does_not_read_back() {
    assert_eq!(unquote_string(&quoted("\u{10000}")), Ok("\u{1000}0".to_string()));
    assert_eq!(unquote_block_string(&quoted("a\n")), Ok("a".to_string()));
    assert_eq!(unquote_block_string(&quoted(" a\n b")), Ok("a\nb".to_string()));
    assert_eq!(unquote_block_string(&quoted("a\n \nb")), Ok("a\n\nb".to_string()));
    assert_eq!(unquote_block_string(&quoted("\na")), Ok("a".to_string()));
    assert_eq!(unquote_block_string(&quoted("a\r\nb")), Ok("a\nb".to_string()));
}

#[test]
fn verdicts() {
    let keep: TransformedValue<u8> = TransformedValue::Keep;
    assert!(keep.should_keep());
    assert_eq!(keep.replace_or_else(|| 7), 7);
    let replace = TransformedValue::Replace(3u8);
    assert!(!replace.should_keep());
    assert_eq!(replace.clone().replace_or_else(|| 7), 3);
    assert!(matches!(replace.into_transformed(), Transformed::Replace(3)));
    assert!(matches!(
        TransformedValue::<u8>::Keep.into_transformed(),
        Transformed::Keep
    ));
}

#[test]
fn a_list_is_kept_where_each_item_is() {
    let list = vec![1, 2, 3];
    let kept = graphql_parser::query::transform_list(&list, |_: &i32| Transformed::Keep);
    assert!(kept.should_keep());
    let empty: Vec<i32> = Vec::new();
    let kept = graphql_parser::query::transform_list(&empty, |x: &i32| Transformed::Replace(*x));
    assert!(kept.should_keep());
}

#[test]
fn a_list_is_replaced_where_an_item_is() {
    let list = vec![1, 2, 3, 4];
    let next = graphql_parser::query::transform_list(&list, |x: &i32| {
        if *x == 3 {
            Transformed::Replace(30)
        } else {
            Transformed::Keep
        }
    });
    assert_eq!(next.replace_or_else(|| Vec::new()), vec![1, 2, 30, 4]);
    let next = graphql_parser::query::transform_list(&list, |x: &i32| Transformed::Replace(*x + 1));
    assert_eq!(next.replace_or_else(|| Vec::new()), vec![2, 3, 4, 5]);
}
