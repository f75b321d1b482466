use graphql_parser::common::{Directive, Number, Type, Value};
use graphql_parser::schema::{
    Definition, DirectiveDefinition, DirectiveLocation, Document, EnumType, EnumTypeExtension,
    EnumValue, Field, InputObjectType, InputObjectTypeExtension, InputValue, InterfaceType,
    InterfaceTypeExtension, InvalidDirectiveLocation, ObjectType, ObjectTypeExtension, ScalarType,
    ScalarTypeExtension, SchemaDefinition, TypeDefinition, TypeExtension, UnionType,
    UnionTypeExtension,
};
use graphql_parser::{parse_schema, Pos, Style};
use std::str::FromStr;

fn ast(s: &str) -> Document {
    parse_schema(s).unwrap()
}

fn error_of(s: &str) -> String {
    parse_schema(s).unwrap_err().to_string()
}

fn roundtrip(s: &str) {
    assert_eq!(ast(s).to_string(), s);
}

fn pos(line: usize, column: usize) -> Pos {
    Pos { line, column }
}

const TEST_SCHEMA: &str = r#"
    interface Pet {
      name: String
    }
  
    type Dog implements Pet {
      name: String
    }
  
    type Cat implements Pet {
      name: String
    }
  
    type Human {
      name: String
      pets: [Pet]
    }
  
    type Alien {
      name(surname: Boolean): String
    }
  
    type QueryRoot {
      human(id: ID): Human
      alien: Alien
    }
  
    schema {
      query: QueryRoot
    }
  "#;

#[test]
fn parses_a_schema() {
    let doc = ast(TEST_SCHEMA);
    assert_eq!(doc.definitions.len(), 7);
    assert_eq!(
        doc.definitions[1],
        Definition::TypeDefinition(TypeDefinition::Object(ObjectType {
            position: pos(6, 5),
            description: None,
            name: "Dog".into(),
            implements_interfaces: vec!["Pet".into()],
            directives: vec![],
            fields: vec![Field {
                position: pos(7, 7),
                description: None,
                name: "name".into(),
                arguments: vec![],
                field_type: Type::NamedType("String".into()),
                directives: vec![],
            }],
        }))
    );
    assert_eq!(
        doc.definitions[6],
        Definition::SchemaDefinition(SchemaDefinition {
            position: pos(28, 5),
            directives: vec![],
            query: Some("QueryRoot".into()),
            mutation: None,
            subscription: None,
        })
    );
    assert_eq!(
        doc.to_string(),
        "interface Pet {\n  name: String\n}\n\ntype Dog implements Pet {\n  name: String\n}\n\ntype Cat implements Pet {\n  name: String\n}\n\ntype Human {\n  name: String\n  pets: [Pet]\n}\n\ntype Alien {\n  name(surname: Boolean): String\n}\n\ntype QueryRoot {\n  human(id: ID): Human\n  alien: Alien\n}\n\nschema {\n  query: QueryRoot\n}\n"
    );
}

#[test]
fn schema_roundtrips() {
    roundtrip("schema {\n  query: Query\n}\n");
    roundtrip("schema @a(x: 1) {\n  query: Q\n  mutation: M\n  subscription: S\n}\n");
    roundtrip("scalar Date\n");
    roundtrip("scalar Date @format(pattern: \"y\")\n");
    roundtrip("extend scalar Date @d\n");
    roundtrip("type Foo\n");
    roundtrip("type Foo implements A B @d {\n  bar: String\n}\n");
    roundtrip("extend type Foo {\n  bar(a: Int = 1, b: [T!]! @x): String @y\n}\n");
    roundtrip("interface I implements J {\n  one: Type\n}\n");
    roundtrip("extend interface I @d\n");
    roundtrip("union U\n");
    roundtrip("union U @d = A | B | C\n");
    roundtrip("extend union U = D\n");
    roundtrip("enum E\n");
    roundtrip("enum E @d {\n  A\n  B @deprecated\n}\n");
    roundtrip("extend enum E {\n  C\n}\n");
    roundtrip("input In\n");
    roundtrip("input In @d {\n  a: Int = 1 @x\n  b: [String]\n}\n");
    roundtrip("extend input In {\n  c: Float = 1.5\n}\n");
    roundtrip("directive @skip(if: Boolean!) on FIELD | FRAGMENT_SPREAD | INLINE_FRAGMENT\n");
    roundtrip("directive @tag repeatable on OBJECT\n");
    roundtrip("\"about\"\ntype T {\n  \"the field\"\n  f(\"the argument\" a: Int): Int\n}\n");
    roundtrip("\"\"\"\n  Many\n  lines\n\"\"\"\nenum E {\n  \"\"\"\n    One\n    more\n  \"\"\"\n  A\n}\n");
    roundtrip("type A\n\ntype B\n");
}

#[test]
fn schema_style() {
    let doc = ast("type T { f(a: [Int] = [1, 2]): Int } enum E { A }");
    assert_eq!(
        doc.format(Style::default().indent(4)),
        "type T {\n    f(a: [Int] = [1, 2]): Int\n}\n\nenum E {\n    A\n}\n"
    );
}

#[test]
fn leading_bar_and_positions() {
    let doc = ast("union U = | A | B\ndirective @d on | QUERY | FIELD");
    assert_eq!(
        doc.definitions,
        vec![
            Definition::TypeDefinition(TypeDefinition::Union(UnionType {
                position: pos(1, 1),
                description: None,
                name: "U".into(),
                directives: vec![],
                types: vec!["A".into(), "B".into()],
            })),
            Definition::DirectiveDefinition(DirectiveDefinition {
                position: pos(2, 1),
                description: None,
                name: "d".into(),
                arguments: vec![],
                repeatable: false,
                locations: vec![DirectiveLocation::Query, DirectiveLocation::Field],
            }),
        ]
    );
}

#[test]
fn described_members() {
    let doc = ast("\"t\" input I { \"a\" x: Int = 2 @d } \"e\" enum E { \"v\" V @w }");
    assert_eq!(
        doc.definitions,
        vec![
            Definition::TypeDefinition(TypeDefinition::InputObject(InputObjectType {
                position: pos(1, 5),
                description: Some("t".into()),
                name: "I".into(),
                directives: vec![],
                fields: vec![InputValue {
                    position: pos(1, 15),
                    description: Some("a".into()),
                    name: "x".into(),
                    value_type: Type::NamedType("Int".into()),
                    default_value: Some(Value::Int(Number::from(2))),
                    directives: vec![Directive {
                        position: pos(1, 30),
                        name: "d".into(),
                        arguments: vec![],
                    }],
                }],
            })),
            Definition::TypeDefinition(TypeDefinition::Enum(EnumType {
                position: pos(1, 39),
                description: Some("e".into()),
                name: "E".into(),
                directives: vec![],
                values: vec![EnumValue {
                    position: pos(1, 48),
                    description: Some("v".into()),
                    name: "V".into(),
                    directives: vec![Directive {
                        position: pos(1, 54),
                        name: "w".into(),
                        arguments: vec![],
                    }],
                }],
            })),
        ]
    );
}

#[test]
fn schema_errors() {
    assert_eq!(
        error_of("where"),
        "schema parse error: Parse error at 1:1\nUnexpected `where[Name]`\nExpected `schema`, `extend`, `scalar`, `type`, `interface`, `union`, `enum`, `input` or `directive`\n"
    );
    assert_eq!(
        error_of("\"d\" schema { query: Q }"),
        "schema parse error: Parse error at 1:5\nUnexpected `schema[Name]`\nExpected `scalar`, `type`, `interface`, `union`, `enum`, `input` or `directive`\n"
    );
    assert_eq!(
        error_of("extend schema"),
        "schema parse error: Parse error at 1:8\nUnexpected `schema[Name]`\nExpected `scalar`, `type`, `interface`, `union`, `enum` or `input`\n"
    );
    assert_eq!(
        error_of("schema { query: Q query: R }"),
        "schema parse error: Parse error at 1:1\nUnexpected `duplicate `query` operation`\n"
    );
    assert_eq!(
        error_of("schema { quer: Q mutation: M mutation: N mutation: O }"),
        "schema parse error: Parse error at 1:1\nUnexpected `quer[Name]`\nUnexpected `duplicate `mutation` operation`\nExpected `query`, `mutation` or `subscription`\n"
    );
    assert_eq!(
        error_of("extend scalar S"),
        "schema parse error: Parse error at 1:8\nUnexpected `Scalar type extension should contain at least one directive.`\n"
    );
    assert_eq!(
        error_of("extend type T"),
        "schema parse error: Parse error at 1:8\nUnexpected `Object type extension should contain at least one interface, directive or field.`\n"
    );
    assert_eq!(
        error_of("extend interface T"),
        "schema parse error: Parse error at 1:8\nUnexpected `Interface type extension should contain at least one interface, directive or field.`\n"
    );
    assert_eq!(
        error_of("extend union T"),
        "schema parse error: Parse error at 1:8\nUnexpected `Union type extension should contain at least one directive or type.`\n"
    );
    assert_eq!(
        error_of("extend enum T"),
        "schema parse error: Parse error at 1:8\nUnexpected `Enum type extension should contain at least one directive or value.`\n"
    );
    assert_eq!(
        error_of("extend input T"),
        "schema parse error: Parse error at 1:8\nUnexpected `Input object type extension should contain at least one directive or field.`\n"
    );
    assert_eq!(
        error_of("directive @d on NOWHERE"),
        "schema parse error: Parse error at 1:17\ninvalid directive location\n"
    );
    assert_eq!(
        error_of("directive @d"),
        "schema parse error: Parse error at 1:13\nUnexpected `end of input`\nExpected `repeatable` or `on`\n"
    );
    assert_eq!(
        error_of("type T { f: }"),
        "schema parse error: Parse error at 1:13\nUnexpected `}[Punctuator]`\nExpected `Name` or `[`\n"
    );
    assert_eq!(
        error_of("type T { f(a: Int = $v): Int }"),
        "schema parse error: Parse error at 1:21\nUnexpected `$[Punctuator]`\nExpected `IntValue`, `FloatValue`, `StringValue`, `BlockString`, `true`, `false`, `null`, `Name`, `[` or `{`\n"
    );
    assert_eq!(
        error_of("type T {}"),
        "schema parse error: Parse error at 1:9\nUnexpected `}[Punctuator]`\nExpected `Name`\n"
    );
    assert_eq!(
        error_of("union U = "),
        "schema parse error: Parse error at 1:11\nUnexpected `end of input`\nExpected `Name`\n"
    );
    assert_eq!(
        error_of("type A }"),
        "schema parse error: Parse error at 1:8\nUnexpected `}[Punctuator]`\nExpected `end of input`\n"
    );
}

#[test]
fn directive_locations() {
    let all = [
        (DirectiveLocation::Query, "QUERY", true),
        (DirectiveLocation::Mutation, "MUTATION", true),
        (DirectiveLocation::Subscription, "SUBSCRIPTION", true),
        (DirectiveLocation::Field, "FIELD", true),
        (DirectiveLocation::FragmentDefinition, "FRAGMENT_DEFINITION", true),
        (DirectiveLocation::FragmentSpread, "FRAGMENT_SPREAD", true),
        (DirectiveLocation::InlineFragment, "INLINE_FRAGMENT", true),
        (DirectiveLocation::Schema, "SCHEMA", false),
        (DirectiveLocation::Scalar, "SCALAR", false),
        (DirectiveLocation::Object, "OBJECT", false),
        (DirectiveLocation::FieldDefinition, "FIELD_DEFINITION", false),
        (DirectiveLocation::ArgumentDefinition, "ARGUMENT_DEFINITION", false),
        (DirectiveLocation::Interface, "INTERFACE", false),
        (DirectiveLocation::Union, "UNION", false),
        (DirectiveLocation::Enum, "ENUM", false),
        (DirectiveLocation::EnumValue, "ENUM_VALUE", false),
        (DirectiveLocation::InputObject, "INPUT_OBJECT", false),
        (DirectiveLocation::InputFieldDefinition, "INPUT_FIELD_DEFINITION", false),
        (DirectiveLocation::VariableDefinition, "VARIABLE_DEFINITION", false),
    ];
    for (location, name, in_query) in all {
        assert_eq!(location.as_str(), name);
        assert_eq!(location.is_query(), in_query);
        assert_eq!(location.is_schema(), !in_query);
        assert_eq!(DirectiveLocation::from_str(name), Ok(location));
        assert_eq!(DirectiveLocation::parse(name), Ok(location));
    }
    assert_eq!(
        DirectiveLocation::from_str("query"),
        Err(InvalidDirectiveLocation)
    );
    assert_eq!(
        InvalidDirectiveLocation.to_string(),
        "invalid directive location"
    );
}

#[test]
fn new_nodes() {
    let at = Pos::default();
    assert_eq!(at, pos(0, 0));
    assert_eq!(
        ScalarType::new("S".into()),
        ScalarType { position: at, description: None, name: "S".into(), directives: vec![] }
    );
    assert_eq!(
        ScalarTypeExtension::new("S".into()),
        ScalarTypeExtension { position: at, name: "S".into(), directives: vec![] }
    );
    assert_eq!(
        ObjectType::new("O".into()),
        ObjectType {
            position: at,
            description: None,
            name: "O".into(),
            implements_interfaces: vec![],
            directives: vec![],
            fields: vec![],
        }
    );
    assert_eq!(
        ObjectTypeExtension::new("O".into()),
        ObjectTypeExtension {
            position: at,
            name: "O".into(),
            implements_interfaces: vec![],
            directives: vec![],
            fields: vec![],
        }
    );
    assert_eq!(
        InterfaceType::new("I".into()),
        InterfaceType {
            position: at,
            description: None,
            name: "I".into(),
            implements_interfaces: vec![],
            directives: vec![],
            fields: vec![],
        }
    );
    assert_eq!(
        InterfaceTypeExtension::new("I".into()),
        InterfaceTypeExtension {
            position: at,
            name: "I".into(),
            implements_interfaces: vec![],
            directives: vec![],
            fields: vec![],
        }
    );
    assert_eq!(
        UnionType::new("U".into()),
        UnionType {
            position: at,
            description: None,
            name: "U".into(),
            directives: vec![],
            types: vec![],
        }
    );
    assert_eq!(
        UnionTypeExtension::new("U".into()),
        UnionTypeExtension { position: at, name: "U".into(), directives: vec![], types: vec![] }
    );
    assert_eq!(
        EnumType::new("E".into()),
        EnumType {
            position: at,
            description: None,
            name: "E".into(),
            directives: vec![],
            values: vec![],
        }
    );
    assert_eq!(
        EnumValue::new("V".into()),
        EnumValue { position: at, description: None, name: "V".into(), directives: vec![] }
    );
    assert_eq!(
        EnumTypeExtension::new("E".into()),
        EnumTypeExtension { position: at, name: "E".into(), directives: vec![], values: vec![] }
    );
    assert_eq!(
        InputObjectType::new("I".into()),
        InputObjectType {
            position: at,
            description: None,
            name: "I".into(),
            directives: vec![],
            fields: vec![],
        }
    );
    assert_eq!(
        InputObjectTypeExtension::new("I".into()),
        InputObjectTypeExtension {
            position: at,
            name: "I".into(),
            directives: vec![],
            fields: vec![],
        }
    );
    assert_eq!(
        DirectiveDefinition::new("d".into()),
        DirectiveDefinition {
            position: at,
            description: None,
            name: "d".into(),
            arguments: vec![],
            repeatable: false,
            locations: vec![],
        }
    );
    assert_eq!(
        TypeExtension::Scalar(ScalarTypeExtension::new("S".into())),
        TypeExtension::Scalar(ScalarTypeExtension::new("S".into()))
    );
}
