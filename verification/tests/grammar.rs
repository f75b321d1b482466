use graphql_parser::common::{Directive, Number, Type, Value};
use graphql_parser::error::{Error, Info, OwnedToken};
use graphql_parser::query::{
    Definition, Document, Field, FragmentDefinition, FragmentSpread, InlineFragment, Mutation,
    OperationDefinition, Query, Selection, SelectionSet, TypeCondition, VariableDefinition,
};
use graphql_parser::tokenizer::Kind;
use graphql_parser::{consume_definition, parse_query, Pos};

fn ast(s: &str) -> Document {
    parse_query(&s).unwrap()
}

fn error_of(s: &str) -> String {
    parse_query(s).unwrap_err().to_string()
}

fn pos(line: usize, column: usize) -> Pos {
    Pos { line, column }
}

fn plain_field(name: &str, position: Pos) -> Field {
    Field {
        position,
        alias: None,
        name: name.into(),
        arguments: Vec::new(),
        directives: Vec::new(),
        selection_set: SelectionSet {
            span: (position, position),
            items: Vec::new(),
        },
    }
}

#[test]
fn one_field() {
    assert_eq!(
        ast("{ a }"),
        Document {
            definitions: vec![Definition::Operation(OperationDefinition::SelectionSet(
                SelectionSet {
                    span: (Pos { line: 1, column: 1 }, Pos { line: 1, column: 5 }),
                    items: vec![Selection::Field(Field {
                        position: Pos { line: 1, column: 3 },
                        alias: None,
                        name: "a".into(),
                        arguments: Vec::new(),
                        directives: Vec::new(),
                        selection_set: SelectionSet {
                            span: (Pos { line: 1, column: 3 }, Pos { line: 1, column: 3 }),
                            items: Vec::new()
                        },
                    }),],
                }
            ))],
        }
    );
}

#[test]
fn builtin_values() {
    assert_eq!(
        ast("{ a(t: true, f: false, n: null) }"),
        Document {
            definitions: vec![Definition::Operation(OperationDefinition::SelectionSet(
                SelectionSet {
                    span: (Pos { line: 1, column: 1 }, Pos { line: 1, column: 33 }),
                    items: vec![Selection::Field(Field {
                        position: Pos { line: 1, column: 3 },
                        alias: None,
                        name: "a".into(),
                        arguments: vec![
                            ("t".into(), Value::Boolean(true)),
                            ("f".into(), Value::Boolean(false)),
                            ("n".into(), Value::Null),
                        ],
                        directives: Vec::new(),
                        selection_set: SelectionSet {
                            span: (Pos { line: 1, column: 3 }, Pos { line: 1, column: 3 }),
                            items: Vec::new()
                        },
                    }),],
                }
            ))],
        }
    );
}

#[test]
fn one_field_roundtrip() {
    assert_eq!(ast("{ a }").to_string(), "{\n  a\n}\n");
}

#[test]
#[should_panic(expected = "number too large")]
fn large_integer() {
    ast("{ a(x: 10000000000000000000000000000 }");
}

#[test]
fn consume_single_query() {
    let (query, remainder) = consume_definition("query { a } query { b }").unwrap();
    assert!(matches!(query, Definition::Operation(_)));
    assert_eq!(remainder, "query { b }");
}

#[test]
fn consume_full_text() {
    let (query, remainder) = consume_definition("query { a }").unwrap();
    assert!(matches!(query, Definition::Operation(_)));
    assert_eq!(remainder, "");
}

#[test]
fn consume_single_query_preceding_non_graphql() {
    let (query, remainder) = consume_definition("query { a } where a > 1 => 10.0").unwrap();
    assert!(matches!(query, Definition::Operation(_)));
    assert_eq!(remainder, "where a > 1 => 10.0");
}

#[test]
fn consume_fails_without_operation() {
    let err = consume_definition("where a > 1 => 10.0")
        .expect_err("Expected parse to fail with an error");
    let err = format!("{}", err.to_string());
    assert_eq!(err, "query parse error: Parse error at 1:1\nUnexpected `where[Name]`\nExpected `{`, `query`, `mutation`, `subscription` or `fragment`\n");
}

#[test]
fn recursion_too_deep() {
    let query = format!(
        "{}(b: {}{}){}",
        "{ a".repeat(30),
        "[".repeat(25),
        "]".repeat(25),
        "}".repeat(30)
    );
    let result = parse_query(&query);
    let err = format!("{}", result.unwrap_err().to_string());
    assert_eq!(
        &err,
        "query parse error: Parse error at 1:114\nExpected `]`\nRecursion limit exceeded\n"
    )
}

#[test]
fn document_fails_without_operation() {
    let err = parse_query("where a > 1 => 10.0").unwrap_err();
    assert_eq!(err.0.position, pos(1, 1));
    assert_eq!(
        err.0.errors,
        vec![
            Error::Unexpected(Info::Token(OwnedToken {
                kind: Kind::Name,
                value: "where".into()
            })),
            Error::Expected(Info::Owned("{".into())),
            Error::Expected(Info::Owned("query".into())),
            Error::Expected(Info::Owned("mutation".into())),
            Error::Expected(Info::Owned("subscription".into())),
            Error::Expected(Info::Owned("fragment".into())),
        ]
    );
    assert_eq!(
        err.to_string(),
        "query parse error: Parse error at 1:1\nUnexpected `where[Name]`\nExpected `{`, `query`, `mutation`, `subscription` or `fragment`\n"
    );
}

#[test]
fn alias_and_name() {
    let mut aliased = plain_field("name", pos(1, 3));
    aliased.alias = Some("alias".into());
    assert_eq!(
        ast("{ alias: name }"),
        Document {
            definitions: vec![Definition::Operation(OperationDefinition::SelectionSet(
                SelectionSet {
                    span: (pos(1, 1), pos(1, 15)),
                    items: vec![Selection::Field(aliased)],
                }
            ))],
        }
    );
}

#[test]
fn recursion_within_the_limit() {
    let query = format!("{}{}", "{ a".repeat(50), "}".repeat(50));
    assert!(parse_query(&query).is_ok());
    let query = format!("{}{}", "{ a".repeat(51), "}".repeat(51));
    assert_eq!(
        error_of(&query),
        "query parse error: Parse error at 1:151\nExpected `}`\nRecursion limit exceeded\n"
    );
}

#[test]
fn empty_and_trailing() {
    assert_eq!(
        error_of(""),
        "query parse error: Parse error at 1:1\nUnexpected `end of input`\nExpected `{`, `query`, `mutation`, `subscription` or `fragment`\n"
    );
    assert_eq!(
        error_of("{ a } 1"),
        "query parse error: Parse error at 1:7\nUnexpected `1[IntValue]`\nExpected `end of input`\n"
    );
    assert_eq!(
        error_of("{ a } ;"),
        "query parse error: Parse error at 1:7\nExpected `end of input`\n"
    );
    assert_eq!(
        error_of("{ }"),
        "query parse error: Parse error at 1:3\nUnexpected `}[Punctuator]`\nExpected `Name` or `...`\n"
    );
    assert_eq!(
        error_of("{ a"),
        "query parse error: Parse error at 1:4\nUnexpected `end of input`\nExpected `}`\n"
    );
    assert_eq!(
        error_of("{ a ; }"),
        "query parse error: Parse error at 1:5\nUnexpected `unexpected character ';'`\nExpected `}`\n"
    );
}

#[test]
fn errors_inside_fields() {
    assert_eq!(
        error_of("{ a: 1 }"),
        "query parse error: Parse error at 1:6\nUnexpected `1[IntValue]`\nExpected `Name`\n"
    );
    assert_eq!(
        error_of("{ a() }"),
        "query parse error: Parse error at 1:5\nUnexpected `)[Punctuator]`\nExpected `Name`\n"
    );
    assert_eq!(
        error_of("{ a(b 1) }"),
        "query parse error: Parse error at 1:7\nUnexpected `1[IntValue]`\nExpected `:`\n"
    );
    assert_eq!(
        error_of("{ a(b: ) }"),
        "query parse error: Parse error at 1:8\nUnexpected `)[Punctuator]`\nExpected `IntValue`, `FloatValue`, `StringValue`, `BlockString`, `true`, `false`, `null`, `Name`, `$`, `[` or `{`\n"
    );
    assert_eq!(
        error_of("{ a(b: 1 ] }"),
        "query parse error: Parse error at 1:10\nUnexpected `][Punctuator]`\nExpected `Name` or `)`\n"
    );
    assert_eq!(
        error_of("{ a(b: [1 ) }"),
        "query parse error: Parse error at 1:11\nUnexpected `)[Punctuator]`\nExpected `]`\n"
    );
    assert_eq!(
        error_of("{ a(b: {c: 1 ) }"),
        "query parse error: Parse error at 1:14\nUnexpected `)[Punctuator]`\nExpected `Name` or `}`\n"
    );
    assert_eq!(
        error_of("{ a(b: $) }"),
        "query parse error: Parse error at 1:9\nUnexpected `)[Punctuator]`\nExpected `Name`\n"
    );
    assert_eq!(
        error_of("{ a @ }"),
        "query parse error: Parse error at 1:7\nUnexpected `}[Punctuator]`\nExpected `Name`\n"
    );
    assert_eq!(
        error_of("{ ... 1 }"),
        "query parse error: Parse error at 1:7\nUnexpected `1[IntValue]`\nExpected `{`, `on` or `Name`\n"
    );
    assert_eq!(
        error_of("{ ... on }"),
        "query parse error: Parse error at 1:10\nUnexpected `}[Punctuator]`\nExpected `Name`\n"
    );
    assert_eq!(
        error_of("{ ... on A }"),
        "query parse error: Parse error at 1:12\nUnexpected `}[Punctuator]`\nExpected `{`\n"
    );
    assert_eq!(
        error_of("{ a(b: \"\\x\") }"),
        "query parse error: Parse error at 1:8\nUnexpected `bad escaped char 'x'`\n"
    );
    assert_eq!(
        error_of("{ a(b: -9223372036854775809) }"),
        "query parse error: Parse error at 1:8\nnumber too small to fit in target type\n"
    );
}

#[test]
fn errors_inside_operations() {
    assert_eq!(
        error_of("query 1"),
        "query parse error: Parse error at 1:7\nUnexpected `1[IntValue]`\nExpected `{`, `Name` or `(`\n"
    );
    assert_eq!(
        error_of("query Q 1"),
        "query parse error: Parse error at 1:9\nUnexpected `1[IntValue]`\nExpected `{`\n"
    );
    assert_eq!(
        error_of("query () { a }"),
        "query parse error: Parse error at 1:8\nUnexpected `)[Punctuator]`\nExpected `$`\n"
    );
    assert_eq!(
        error_of("query ($a Int) { a }"),
        "query parse error: Parse error at 1:11\nUnexpected `Int[Name]`\nExpected `:`\n"
    );
    assert_eq!(
        error_of("query ($a: ) { a }"),
        "query parse error: Parse error at 1:12\nUnexpected `)[Punctuator]`\nExpected `Name` or `[`\n"
    );
    assert_eq!(
        error_of("query ($a: [Int) { a }"),
        "query parse error: Parse error at 1:16\nUnexpected `)[Punctuator]`\nExpected `]`\n"
    );
    assert_eq!(
        error_of("query ($a: Int = $b) { a }"),
        "query parse error: Parse error at 1:18\nUnexpected `$[Punctuator]`\nExpected `IntValue`, `FloatValue`, `StringValue`, `BlockString`, `true`, `false`, `null`, `Name`, `[` or `{`\n"
    );
    assert_eq!(
        error_of("query ($a: Int = [$b]) { a }"),
        "query parse error: Parse error at 1:19\nUnexpected `$[Punctuator]`\nExpected `]`\n"
    );
    assert_eq!(
        error_of("query ($a: Int { a }"),
        "query parse error: Parse error at 1:16\nUnexpected `{[Punctuator]`\nExpected `$` or `)`\n"
    );
    assert_eq!(
        error_of("fragment on A { a }"),
        "query parse error: Parse error at 1:13\nUnexpected `A[Name]`\nExpected `on`\n"
    );
    assert_eq!(
        error_of("fragment F on { a }"),
        "query parse error: Parse error at 1:15\nUnexpected `{[Punctuator]`\nExpected `Name`\n"
    );
}

#[test]
fn values_of_all_kinds() {
    let doc = ast(
        "{ a(i: -12, f: 1.50, s: \"x\\ty\", b: \"\"\"\n  one\n    two\n\"\"\", e: RED, v: $var, l: [1, [2]], o: {z: 1, a: {k: null}, z: 2}) }",
    );
    let field = match &doc.definitions[0] {
        Definition::Operation(OperationDefinition::SelectionSet(set)) => match &set.items[0] {
            Selection::Field(field) => field,
            _ => unreachable!(),
        },
        _ => unreachable!(),
    };
    assert_eq!(
        field.arguments,
        vec![
            ("i".to_string(), Value::Int(Number::from(-12))),
            ("f".to_string(), Value::Float("1.50".into())),
            ("s".to_string(), Value::String("x\ty".into())),
            ("b".to_string(), Value::String("one\n  two".into())),
            ("e".to_string(), Value::Enum("RED".into())),
            ("v".to_string(), Value::Variable("var".into())),
            (
                "l".to_string(),
                Value::List(vec![
                    Value::Int(Number::from(1)),
                    Value::List(vec![Value::Int(Number::from(2))])
                ])
            ),
            (
                "o".to_string(),
                Value::Object(vec![
                    (
                        "a".to_string(),
                        Value::Object(vec![("k".to_string(), Value::Null)])
                    ),
                    ("z".to_string(), Value::Int(Number::from(2))),
                ])
            ),
        ]
    );
    assert_eq!(
        doc.to_string(),
        "{\n  a(i: -12, f: 1.50, s: \"x\\ty\", b: \"\"\"\n    one\n      two\n  \"\"\", e: RED, v: $var, l: [1, [2]], o: {a: {k: null}, z: 2})\n}\n"
    );
}

#[test]
fn integer_limits() {
    let doc = ast("{ a(min: -9223372036854775808, max: 9223372036854775807, zero: -0) }");
    assert_eq!(
        doc.to_string(),
        "{\n  a(min: -9223372036854775808, max: 9223372036854775807, zero: 0)\n}\n"
    );
    assert_eq!(
        error_of("{ a(b: 9223372036854775808) }"),
        "query parse error: Parse error at 1:8\nnumber too large to fit in target type\n"
    );
}

#[test]
fn operations_and_fragments() {
    let doc = ast(
        "query Q($a: [Int!]! = [1], $b: T) @d(x: 1) { f }\nmutation { m }\nsubscription S { s }\nfragment F on T @e { ...G ... on U { u } ... @i { v } ... { w } }",
    );
    assert_eq!(doc.definitions.len(), 4);
    assert_eq!(
        doc.definitions[0],
        Definition::Operation(OperationDefinition::Query(Query {
            position: pos(1, 1),
            name: Some("Q".into()),
            variable_definitions: vec![
                VariableDefinition {
                    position: pos(1, 9),
                    name: "a".into(),
                    var_type: Type::NonNullType(Box::new(Type::ListType(Box::new(
                        Type::NonNullType(Box::new(Type::NamedType("Int".into())))
                    )))),
                    default_value: Some(Value::List(vec![Value::Int(Number::from(1))])),
                },
                VariableDefinition {
                    position: pos(1, 28),
                    name: "b".into(),
                    var_type: Type::NamedType("T".into()),
                    default_value: None,
                },
            ],
            directives: vec![Directive {
                position: pos(1, 35),
                name: "d".into(),
                arguments: vec![("x".into(), Value::Int(Number::from(1)))],
            }],
            selection_set: SelectionSet {
                span: (pos(1, 44), pos(1, 48)),
                items: vec![Selection::Field(plain_field("f", pos(1, 46)))],
            },
        }))
    );
    assert_eq!(
        doc.definitions[1],
        Definition::Operation(OperationDefinition::Mutation(Mutation {
            position: pos(2, 1),
            name: None,
            variable_definitions: vec![],
            directives: vec![],
            selection_set: SelectionSet {
                span: (pos(2, 10), pos(2, 14)),
                items: vec![Selection::Field(plain_field("m", pos(2, 12)))],
            },
        }))
    );
    assert_eq!(
        doc.definitions[3],
        Definition::Fragment(FragmentDefinition {
            position: pos(4, 1),
            name: "F".into(),
            type_condition: TypeCondition::On("T".into()),
            directives: vec![Directive {
                position: pos(4, 17),
                name: "e".into(),
                arguments: vec![],
            }],
            selection_set: SelectionSet {
                span: (pos(4, 20), pos(4, 65)),
                items: vec![
                    Selection::FragmentSpread(FragmentSpread {
                        position: pos(4, 25),
                        fragment_name: "G".into(),
                        directives: vec![],
                    }),
                    Selection::InlineFragment(InlineFragment {
                        position: pos(4, 31),
                        type_condition: Some(TypeCondition::On("U".into())),
                        directives: vec![],
                        selection_set: SelectionSet {
                            span: (pos(4, 36), pos(4, 40)),
                            items: vec![Selection::Field(plain_field("u", pos(4, 38)))],
                        },
                    }),
                    Selection::InlineFragment(InlineFragment {
                        position: pos(4, 46),
                        type_condition: None,
                        directives: vec![Directive {
                            position: pos(4, 46),
                            name: "i".into(),
                            arguments: vec![],
                        }],
                        selection_set: SelectionSet {
                            span: (pos(4, 49), pos(4, 53)),
                            items: vec![Selection::Field(plain_field("v", pos(4, 51)))],
                        },
                    }),
                    Selection::InlineFragment(InlineFragment {
                        position: pos(4, 59),
                        type_condition: None,
                        directives: vec![],
                        selection_set: SelectionSet {
                            span: (pos(4, 59), pos(4, 63)),
                            items: vec![Selection::Field(plain_field("w", pos(4, 61)))],
                        },
                    }),
                ],
            },
        })
    );
    assert_eq!(
        doc.to_string(),
        "query Q($a: [Int!]! = [1], $b: T) @d(x: 1) {\n  f\n}\n\nmutation {\n  m\n}\n\nsubscription S {\n  s\n}\n\nfragment F on T @e {\n  ...G\n  ... on U {\n    u\n  }\n  ... @i {\n    v\n  }\n  ... {\n    w\n  }\n}\n"
    );
}

#[test]
fn variables_of_a_mutation_stand_unparted() {
    let doc = ast("mutation M($a: Int, $b: Int) { m }");
    assert_eq!(doc.to_string(), "mutation M($a: Int$b: Int) {\n  m\n}\n");
    assert_eq!(ast(&doc.to_string()).to_string(), doc.to_string());
}

#[test]
fn test_field_iter() {
    let doc = parse_query(
        r#"
        query TestQuery {
            users {
                id
                country {
                    id
                }
            }
        }
    "#,
    )
    .expect("Failed to parse query");
    let mut fields = 0;
    let mut field_names = Vec::new();
    for f in doc.fields() {
        fields += 1;
        field_names.push(f.name.clone());
    }
    assert_eq!(fields, 4);
    assert_eq!(field_names, vec!["users", "id", "country", "id"]);
}

#[test]
fn fields_of_fragments() {
    let doc = ast("{ a { ...F ... on T { b { c } } ... { d } } e } fragment F on T { f }");
    let names: Vec<&str> = doc.fields().iter().map(|f| f.name.as_str()).collect();
    assert_eq!(names, ["a", "b", "c", "d", "e", "f"]);
    match &doc.definitions[0] {
        Definition::Operation(OperationDefinition::SelectionSet(set)) => {
            let names: Vec<&str> = set.fields().iter().map(|f| f.name.as_str()).collect();
            assert_eq!(names, ["a", "b", "c", "d", "e"]);
        }
        _ => unreachable!(),
    }
}

#[test]
fn copies_are_equal() {
    let doc = ast("query Q($a: [Int!] = [1]) @d(x: {k: \"v\"}) { f: g(h: $a) { ...F ... on T { i } } }");
    assert_eq!(doc.clone(), doc);
    assert_eq!(doc.clone().to_string(), doc.to_string());
}
