use graphql_parser::error::{texts_in, titled, Error, Info, OwnedToken, ParseError, Part};
use graphql_parser::tokenizer::Kind;
use graphql_parser::Pos;

fn token(kind: Kind, value: &str) -> Info {
    Info::Token(OwnedToken {
        kind,
        value: value.to_string(),
    })
}

fn owned(text: &str) -> Info {
    Info::Owned(text.to_string())
}

fn mixed() -> Vec<Error> {
    vec![
        Error::Expected(owned("{")),
        Error::Other("number too large".to_string()),
        Error::Unexpected(token(Kind::Name, "where")),
        Error::Expected(owned("query")),
        Error::Message(owned("Recursion limit exceeded")),
        Error::Expected(token(Kind::Punctuator, "(")),
    ]
}

#[test]
fn entries_stand_in_their_parts() {
    let errors = mixed();
    assert_eq!(errors[0].part(), Part::Expected);
    assert_eq!(errors[1].part(), Part::Remark);
    assert_eq!(errors[2].part(), Part::Unexpected);
    assert_eq!(errors[4].part(), Part::Remark);
    assert_eq!(errors[2].text(), "where[Name]");
    assert_eq!(errors[1].text(), "number too large");
    assert_eq!(texts_in(&errors, Part::Unexpected), vec!["where[Name]"]);
    assert_eq!(texts_in(&errors, Part::Expected), vec!["{", "query", "([Punctuator]"]);
    assert_eq!(
        texts_in(&errors, Part::Remark),
        vec!["number too large", "Recursion limit exceeded"]
    );
    assert_eq!(texts_in(&Vec::new(), Part::Expected), Vec::<String>::new());
}

#[test]
fn a_position_is_shown_as_line_and_column() {
    assert_eq!(Pos { line: 1, column: 114 }.to_string(), "1:114");
    assert_eq!(Pos { line: 0, column: 0 }.to_string(), "0:0");
    assert_eq!(
        Pos { line: usize::MAX, column: 7 }.to_string(),
        format!("{}:7", usize::MAX)
    );
}

#[test]
fn a_parse_error_is_shown_by_parts() {
    let error = ParseError {
        position: Pos { line: 3, column: 9 },
        errors: mixed(),
    };
    assert_eq!(
        error.to_string(),
        "Parse error at 3:9\nUnexpected `where[Name]`\nExpected `{`, `query` or `([Punctuator]`\nnumber too large\nRecursion limit exceeded\n"
    );
}

#[test]
fn one_and_two_expected_entries() {
    let one = ParseError {
        position: Pos { line: 1, column: 1 },
        errors: vec![Error::Expected(owned("]"))],
    };
    assert_eq!(one.to_string(), "Parse error at 1:1\nExpected `]`\n");
    let two = ParseError {
        position: Pos { line: 1, column: 1 },
        errors: vec![Error::Expected(owned("Name")), Error::Expected(owned(")"))],
    };
    assert_eq!(two.to_string(), "Parse error at 1:1\nExpected `Name` or `)`\n");
    let none = ParseError {
        position: Pos { line: 2, column: 5 },
        errors: Vec::new(),
    };
    assert_eq!(none.to_string(), "Parse error at 2:5\n");
}

#[test]
fn an_entry_is_shown_by_itself() {
    assert_eq!(
        Error::Unexpected(token(Kind::IntValue, "12")).to_string(),
        "Unexpected `12[IntValue]`"
    );
    assert_eq!(Error::Expected(owned("fragment")).to_string(), "Expected `fragment`");
    assert_eq!(Error::Message(owned("a remark")).to_string(), "a remark");
    assert_eq!(Error::Other("another".to_string()).to_string(), "another");
}

#[test]
fn a_shown_error_under_the_name_of_its_grammar() {
    assert_eq!(titled("query", "Parse error at 1:1\n"), "query parse error: Parse error at 1:1\n");
    assert_eq!(titled("schema", ""), "schema parse error: ");
}
