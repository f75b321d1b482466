//! The grammar of the schema language.
//!
//! The spec functions of this file say, production by production, what
//! the tokens of a source are as a syntax tree, or at which token and
//! why they are none. The functions that read are proved to give just
//! that.

use vstd::prelude::*;
use vstd::string::*;
use crate::position::Pos;
use crate::tokenizer::{Kind, ScanFault};
use crate::error::{Error, Info, ErrorModel, InfoModel, Failure, OwnedToken, same_error};
use crate::schema::error::ParseError;
use crate::parser::{
    Parser, Parsed, Lexed, lex, texts, outcome, failure_of, model_of, same_text,
};
use crate::common::{
    Directive, Type, Value, DirectiveModel, TypeModel, ValueModel, parsed_directives, parsed_type,
    parsed_value, parsed_string, directives, parse_type, default_value, string, directives_view,
    text_of, directives_of,
};
use crate::query::ast::text_view;
use crate::schema::ast::{
    Definition, DirectiveDefinition, DirectiveLocation, Document, EnumType, EnumTypeExtension,
    EnumValue, Field, InputObjectType, InputObjectTypeExtension, InputValue, InterfaceType,
    InterfaceTypeExtension, ObjectType, ObjectTypeExtension, ScalarType, ScalarTypeExtension,
    SchemaDefinition, TypeDefinition, TypeExtension, UnionType, UnionTypeExtension,
    DefinitionModel, DirectiveDefinitionModel, DocumentModel, EnumModel, EnumValueModel,
    FieldModel, InputObjectModel, InputValueModel, ObjectModel, ScalarModel,
    SchemaDefinitionModel, TypeModelOf, UnionModel, names_view, value_view, fields_view,
    inputs_view, enum_values_view, definitions_view,
};

verus! {

/// Token `i` is a string, quoted or block.
pub open spec fn starts_string(lx: Lexed, i: int) -> bool {
    lx.is_kind(i, Kind::StringValue) || lx.is_kind(i, Kind::BlockString)
}

/// The description at token `i`: a string, if one stands there.
pub open spec fn parsed_description(lx: Lexed, i: int) -> Parsed<Option<Seq<char>>> {
    if starts_string(lx, i) {
        match parsed_string(lx, i) {
            Parsed::Done(t, j) => Parsed::Done(Some(t), j),
            Parsed::Failed(f) => Parsed::Failed(f),
        }
    } else {
        Parsed::Done(None, i)
    }
}

/// The failure of a node that lacks what it must have: the remark
/// `message` at position `position`.
pub open spec fn lacking(position: Pos, message: Seq<char>) -> Failure {
    Failure { position, errors: seq![ErrorModel::Unexpected(InfoModel::Owned(message))] }
}

/// An input value at token `i`: a description, if there is one, a name,
/// a colon and a type, a default where `=` follows, and directives.
pub open spec fn parsed_input_value(lx: Lexed, i: int) -> Parsed<InputValueModel> {
    match parsed_description(lx, i) {
        Parsed::Failed(f) => Parsed::Failed(f),
        Parsed::Done(description, k) => if !lx.is_kind(k, Kind::Name) {
            Parsed::Failed(lx.failure(k, texts(seq!["Name"])))
        } else if !lx.is_punct(k + 1, ":"@) {
            Parsed::Failed(lx.failure(k + 1, texts(seq![":"])))
        } else {
            match parsed_type(lx, k + 2) {
                Parsed::Failed(f) => Parsed::Failed(f),
                Parsed::Done(value_type, j) => match (if lx.is_punct(j, "="@) {
                    match parsed_value(lx, j + 1, false) {
                        Parsed::Done(v, m) => Parsed::Done(Some(v), m),
                        Parsed::Failed(f) => Parsed::Failed(f),
                    }
                } else {
                    Parsed::Done(None, j)
                }) {
                    Parsed::Failed(f) => Parsed::Failed(f),
                    Parsed::Done(default_value, m) => match parsed_directives(
                        lx,
                        m,
                        Seq::empty(),
                    ) {
                        Parsed::Failed(f) => Parsed::Failed(f),
                        Parsed::Done(directives, n) => Parsed::Done(
                            InputValueModel {
                                position: lx.pos(i),
                                description,
                                name: lx.tokens[k].text,
                                value_type,
                                default_value,
                                directives,
                            },
                            n,
                        ),
                    },
                },
            }
        }
    }
}

/// Token `i` begins a member of a type: a description or a name.
pub open spec fn starts_member(lx: Lexed, i: int) -> bool {
    lx.is_kind(i, Kind::Name) || starts_string(lx, i)
}

/// The input values from token `i` on, after the input values `acc`: as
/// many as there are.
pub open spec fn parsed_input_values(lx: Lexed, i: int, acc: Seq<InputValueModel>) -> Parsed<
    Seq<InputValueModel>,
>
    decreases lx.tokens.len() - i,
{
    if !starts_member(lx, i) {
        Parsed::Done(acc, i)
    } else {
        match parsed_input_value(lx, i) {
            Parsed::Failed(f) => Parsed::Failed(f),
            Parsed::Done(v, j) => if i < j <= lx.tokens.len() {
                parsed_input_values(lx, j, acc.push(v))
            } else {
                Parsed::Done(acc.push(v), j)
            },
        }
    }
}

/// The input values at token `i` between the brackets `open` and
/// `close`: none where `open` does not stand there, and else one or
/// more.
pub open spec fn parsed_input_block(
    lx: Lexed,
    i: int,
    open: &'static str,
    close: &'static str,
) -> Parsed<Seq<InputValueModel>> {
    if !lx.is_punct(i, open@) {
        Parsed::Done(Seq::empty(), i)
    } else if !starts_member(lx, i + 1) {
        Parsed::Failed(lx.failure(i + 1, texts(seq!["Name"])))
    } else {
        match parsed_input_values(lx, i + 1, Seq::empty()) {
            Parsed::Failed(f) => Parsed::Failed(f),
            Parsed::Done(values, j) => if lx.is_punct(j, close@) {
                Parsed::Done(values, j + 1)
            } else {
                Parsed::Failed(lx.failure(j, texts(seq!["Name", close])))
            },
        }
    }
}

/// A field of a type at token `i`: a description, if there is one, a
/// name, arguments, a colon and a type, and directives.
pub open spec fn parsed_field(lx: Lexed, i: int) -> Parsed<FieldModel> {
    match parsed_description(lx, i) {
        Parsed::Failed(f) => Parsed::Failed(f),
        Parsed::Done(description, k) => if !lx.is_kind(k, Kind::Name) {
            Parsed::Failed(lx.failure(k, texts(seq!["Name"])))
        } else {
            match parsed_input_block(lx, k + 1, "(", ")") {
                Parsed::Failed(f) => Parsed::Failed(f),
                Parsed::Done(arguments, j) => if !lx.is_punct(j, ":"@) {
                    Parsed::Failed(lx.failure(j, texts(seq![":"])))
                } else {
                    match parsed_type(lx, j + 1) {
                        Parsed::Failed(f) => Parsed::Failed(f),
                        Parsed::Done(field_type, m) => match parsed_directives(
                            lx,
                            m,
                            Seq::empty(),
                        ) {
                            Parsed::Failed(f) => Parsed::Failed(f),
                            Parsed::Done(directives, n) => Parsed::Done(
                                FieldModel {
                                    position: lx.pos(i),
                                    description,
                                    name: lx.tokens[k].text,
                                    arguments,
                                    field_type,
                                    directives,
                                },
                                n,
                            ),
                        },
                    }
                },
            }
        }
    }
}

/// The fields from token `i` on, after the fields `acc`: as many as
/// there are.
pub open spec fn parsed_field_list(lx: Lexed, i: int, acc: Seq<FieldModel>) -> Parsed<
    Seq<FieldModel>,
>
    decreases lx.tokens.len() - i,
{
    if !starts_member(lx, i) {
        Parsed::Done(acc, i)
    } else {
        match parsed_field(lx, i) {
            Parsed::Failed(f) => Parsed::Failed(f),
            Parsed::Done(v, j) => if i < j <= lx.tokens.len() {
                parsed_field_list(lx, j, acc.push(v))
            } else {
                Parsed::Done(acc.push(v), j)
            },
        }
    }
}

/// The fields at token `i`: none where no brace opens, and else one or
/// more between braces.
pub open spec fn parsed_fields(lx: Lexed, i: int) -> Parsed<Seq<FieldModel>> {
    if !lx.is_punct(i, "{"@) {
        Parsed::Done(Seq::empty(), i)
    } else if !starts_member(lx, i + 1) {
        Parsed::Failed(lx.failure(i + 1, texts(seq!["Name"])))
    } else {
        match parsed_field_list(lx, i + 1, Seq::empty()) {
            Parsed::Failed(f) => Parsed::Failed(f),
            Parsed::Done(fields, j) => if lx.is_punct(j, "}"@) {
                Parsed::Done(fields, j + 1)
            } else {
                Parsed::Failed(lx.failure(j, texts(seq!["Name", "}"])))
            },
        }
    }
}

/// The names from token `i` on, after the names `acc`: as many as there
/// are.
pub open spec fn parsed_names(lx: Lexed, i: int, acc: Seq<Seq<char>>) -> (Seq<Seq<char>>, int)
    decreases lx.tokens.len() - i,
{
    if lx.is_kind(i, Kind::Name) {
        parsed_names(lx, i + 1, acc.push(lx.tokens[i].text))
    } else {
        (acc, i)
    }
}

/// The interfaces that a type implements, at token `i`: none where
/// `implements` does not stand there, and else one name or more.
pub open spec fn parsed_implements(lx: Lexed, i: int) -> Parsed<Seq<Seq<char>>> {
    if !lx.is_word(i, "implements"@) {
        Parsed::Done(Seq::empty(), i)
    } else if !lx.is_kind(i + 1, Kind::Name) {
        Parsed::Failed(lx.failure(i + 1, texts(seq!["Name"])))
    } else {
        Parsed::Done(
            parsed_names(lx, i + 1, Seq::empty()).0,
            parsed_names(lx, i + 1, Seq::empty()).1,
        )
    }
}

/// Names parted by the punctuator `bar`, from token `i` on, after the
/// names `acc`: a name, and a name more after each `bar`.
pub open spec fn parsed_parted(lx: Lexed, i: int, acc: Seq<Seq<char>>) -> Parsed<Seq<Seq<char>>>
    decreases lx.tokens.len() - i,
{
    if !lx.is_kind(i, Kind::Name) {
        Parsed::Failed(lx.failure(i, texts(seq!["Name"])))
    } else if lx.is_punct(i + 1, "|"@) {
        parsed_parted(lx, i + 2, acc.push(lx.tokens[i].text))
    } else {
        Parsed::Done(acc.push(lx.tokens[i].text), i + 1)
    }
}

/// Names parted by `|`, before which another `|` may stand.
pub open spec fn parsed_members(lx: Lexed, i: int) -> Parsed<Seq<Seq<char>>> {
    if lx.is_punct(i, "|"@) {
        parsed_parted(lx, i + 1, Seq::empty())
    } else {
        parsed_parted(lx, i, Seq::empty())
    }
}

/// A name and directives at token `i`, after a keyword: what all
/// definitions of types begin with.
pub open spec fn parsed_head(lx: Lexed, i: int) -> Parsed<(Seq<char>, Seq<DirectiveModel>)> {
    if !lx.is_kind(i, Kind::Name) {
        Parsed::Failed(lx.failure(i, texts(seq!["Name"])))
    } else {
        match parsed_directives(lx, i + 1, Seq::empty()) {
            Parsed::Failed(f) => Parsed::Failed(f),
            Parsed::Done(directives, j) => Parsed::Done((lx.tokens[i].text, directives), j),
        }
    }
}

/// A scalar type from token `i` on, which follows the keyword.
pub open spec fn parsed_scalar(lx: Lexed, position: Pos, i: int) -> Parsed<ScalarModel> {
    match parsed_head(lx, i) {
        Parsed::Failed(f) => Parsed::Failed(f),
        Parsed::Done(head, j) => Parsed::Done(
            ScalarModel { position, description: None, name: head.0, directives: head.1 },
            j,
        ),
    }
}

/// An object type or an interface from token `i` on, which follows the
/// keyword: a name, the interfaces it implements, directives and
/// fields.
pub open spec fn parsed_object(lx: Lexed, position: Pos, i: int) -> Parsed<ObjectModel> {
    if !lx.is_kind(i, Kind::Name) {
        Parsed::Failed(lx.failure(i, texts(seq!["Name"])))
    } else {
        match parsed_implements(lx, i + 1) {
            Parsed::Failed(f) => Parsed::Failed(f),
            Parsed::Done(implements_interfaces, k) => match parsed_directives(
                lx,
                k,
                Seq::empty(),
            ) {
                Parsed::Failed(f) => Parsed::Failed(f),
                Parsed::Done(directives, j) => match parsed_fields(lx, j) {
                    Parsed::Failed(f) => Parsed::Failed(f),
                    Parsed::Done(fields, n) => Parsed::Done(
                        ObjectModel {
                            position,
                            description: None,
                            name: lx.tokens[i].text,
                            implements_interfaces,
                            directives,
                            fields,
                        },
                        n,
                    ),
                },
            },
        }
    }
}

/// A union from token `i` on, which follows the keyword: a name,
/// directives, and its types where `=` follows.
pub open spec fn parsed_union(lx: Lexed, position: Pos, i: int) -> Parsed<UnionModel> {
    match parsed_head(lx, i) {
        Parsed::Failed(f) => Parsed::Failed(f),
        Parsed::Done(head, j) => if lx.is_punct(j, "="@) {
            match parsed_members(lx, j + 1) {
                Parsed::Failed(f) => Parsed::Failed(f),
                Parsed::Done(types, n) => Parsed::Done(
                    UnionModel {
                        position,
                        description: None,
                        name: head.0,
                        directives: head.1,
                        types,
                    },
                    n,
                ),
            }
        } else {
            Parsed::Done(
                UnionModel {
                    position,
                    description: None,
                    name: head.0,
                    directives: head.1,
                    types: Seq::empty(),
                },
                j,
            )
        },
    }
}

/// A value of an enum type at token `i`: a description, if there is
/// one, a name and directives.
pub open spec fn parsed_enum_value(lx: Lexed, i: int) -> Parsed<EnumValueModel> {
    match parsed_description(lx, i) {
        Parsed::Failed(f) => Parsed::Failed(f),
        Parsed::Done(description, k) => match parsed_head(lx, k) {
            Parsed::Failed(f) => Parsed::Failed(f),
            Parsed::Done(head, j) => Parsed::Done(
                EnumValueModel {
                    position: lx.pos(i),
                    description,
                    name: head.0,
                    directives: head.1,
                },
                j,
            ),
        },
    }
}

/// The values of an enum type from token `i` on, after the values
/// `acc`: as many as there are.
pub open spec fn parsed_enum_value_list(lx: Lexed, i: int, acc: Seq<EnumValueModel>) -> Parsed<
    Seq<EnumValueModel>,
>
    decreases lx.tokens.len() - i,
{
    if !starts_member(lx, i) {
        Parsed::Done(acc, i)
    } else {
        match parsed_enum_value(lx, i) {
            Parsed::Failed(f) => Parsed::Failed(f),
            Parsed::Done(v, j) => if i < j <= lx.tokens.len() {
                parsed_enum_value_list(lx, j, acc.push(v))
            } else {
                Parsed::Done(acc.push(v), j)
            },
        }
    }
}

/// An enum type from token `i` on, which follows the keyword: a name,
/// directives, and one value or more between braces where a brace
/// opens.
pub open spec fn parsed_enum(lx: Lexed, position: Pos, i: int) -> Parsed<EnumModel> {
    match parsed_head(lx, i) {
        Parsed::Failed(f) => Parsed::Failed(f),
        Parsed::Done(head, j) => if !lx.is_punct(j, "{"@) {
            Parsed::Done(
                EnumModel {
                    position,
                    description: None,
                    name: head.0,
                    directives: head.1,
                    values: Seq::empty(),
                },
                j,
            )
        } else if !starts_member(lx, j + 1) {
            Parsed::Failed(lx.failure(j + 1, texts(seq!["Name"])))
        } else {
            match parsed_enum_value_list(lx, j + 1, Seq::empty()) {
                Parsed::Failed(f) => Parsed::Failed(f),
                Parsed::Done(values, n) => if lx.is_punct(n, "}"@) {
                    Parsed::Done(
                        EnumModel {
                            position,
                            description: None,
                            name: head.0,
                            directives: head.1,
                            values,
                        },
                        n + 1,
                    )
                } else {
                    Parsed::Failed(lx.failure(n, texts(seq!["Name", "}"])))
                },
            }
        },
    }
}

/// An input object type from token `i` on, which follows the keyword: a
/// name, directives and fields.
pub open spec fn parsed_input_object(lx: Lexed, position: Pos, i: int) -> Parsed<
    InputObjectModel,
> {
    match parsed_head(lx, i) {
        Parsed::Failed(f) => Parsed::Failed(f),
        Parsed::Done(head, j) => match parsed_input_block(lx, j, "{", "}") {
            Parsed::Failed(f) => Parsed::Failed(f),
            Parsed::Done(fields, n) => Parsed::Done(
                InputObjectModel {
                    position,
                    description: None,
                    name: head.0,
                    directives: head.1,
                    fields,
                },
                n,
            ),
        },
    }
}

/// The failure that a name makes which names no place for a directive.
pub open spec fn location_failure(lx: Lexed, i: int) -> Failure {
    Failure {
        position: lx.pos(i),
        errors: seq![ErrorModel::Other("invalid directive location"@)],
    }
}

/// The places of a directive, parted by `|`, from token `i` on, after
/// the places `acc`.
pub open spec fn parsed_location_list(lx: Lexed, i: int, acc: Seq<DirectiveLocation>) -> Parsed<
    Seq<DirectiveLocation>,
>
    decreases lx.tokens.len() - i,
{
    if !lx.is_kind(i, Kind::Name) {
        Parsed::Failed(lx.failure(i, texts(seq!["Name"])))
    } else {
        match DirectiveLocation::named(lx.tokens[i].text, 0) {
            None => Parsed::Failed(location_failure(lx, i)),
            Some(l) => if lx.is_punct(i + 1, "|"@) {
                parsed_location_list(lx, i + 2, acc.push(l))
            } else {
                Parsed::Done(acc.push(l), i + 1)
            },
        }
    }
}

/// The places of a directive at token `i`: none where neither a name
/// nor `|` stands there.
pub open spec fn parsed_locations(lx: Lexed, i: int) -> Parsed<Seq<DirectiveLocation>> {
    if lx.is_punct(i, "|"@) {
        parsed_location_list(lx, i + 1, Seq::empty())
    } else if lx.is_kind(i, Kind::Name) {
        parsed_location_list(lx, i, Seq::empty())
    } else {
        Parsed::Done(Seq::empty(), i)
    }
}

/// The definition of a directive from token `i` on, which follows the
/// keyword: `@`, a name, arguments, `repeatable` where it stands, `on`
/// and the places.
pub open spec fn parsed_directive_definition(lx: Lexed, position: Pos, i: int) -> Parsed<
    DirectiveDefinitionModel,
> {
    if !lx.is_punct(i, "@"@) {
        Parsed::Failed(lx.failure(i, texts(seq!["@"])))
    } else if !lx.is_kind(i + 1, Kind::Name) {
        Parsed::Failed(lx.failure(i + 1, texts(seq!["Name"])))
    } else {
        match parsed_input_block(lx, i + 2, "(", ")") {
            Parsed::Failed(f) => Parsed::Failed(f),
            Parsed::Done(arguments, j) => {
                let repeatable = lx.is_word(j, "repeatable"@);
                let k = if repeatable {
                    j + 1
                } else {
                    j
                };
                if !lx.is_word(k, "on"@) {
                    Parsed::Failed(
                        lx.failure(
                            k,
                            texts(
                                if repeatable {
                                    seq!["on"]
                                } else {
                                    seq!["repeatable", "on"]
                                },
                            ),
                        ),
                    )
                } else {
                    match parsed_locations(lx, k + 1) {
                        Parsed::Failed(f) => Parsed::Failed(f),
                        Parsed::Done(locations, n) => Parsed::Done(
                            DirectiveDefinitionModel {
                                position,
                                description: None,
                                name: lx.tokens[i + 1].text,
                                arguments,
                                repeatable,
                                locations,
                            },
                            n,
                        ),
                    }
                }
            },
        }
    }
}

/// The types of the operations of a schema, as far as they are set.
pub struct Operations {
    pub query: Option<Seq<char>>,
    pub mutation: Option<Seq<char>>,
    pub subscription: Option<Seq<char>>,
    pub errors: Seq<ErrorModel>,
}

/// `errors` with the entry `e`, unless it is there already.
pub open spec fn noted(errors: Seq<ErrorModel>, e: ErrorModel) -> Seq<ErrorModel> {
    if errors.contains(e) {
        errors
    } else {
        errors.push(e)
    }
}

/// What is said of an operation that a schema sets twice.
pub open spec fn twice(operation: Seq<char>) -> ErrorModel {
    ErrorModel::Unexpected(InfoModel::Owned("duplicate `"@ + operation + "` operation"@))
}

/// The operations `ops` with the entry at token `i`, which is a name
/// that a colon and the name of a type follow: the type of that
/// operation is set, or an error is noted where it is set already or
/// the name is that of no operation.
pub open spec fn with_operation(lx: Lexed, i: int, ops: Operations) -> Operations {
    let oper = lx.tokens[i].text;
    let target = Some(lx.tokens[i + 2].text);
    if oper == "query"@ {
        if ops.query is Some {
            Operations { errors: noted(ops.errors, twice(oper)), ..ops }
        } else {
            Operations { query: target, ..ops }
        }
    } else if oper == "mutation"@ {
        if ops.mutation is Some {
            Operations { errors: noted(ops.errors, twice(oper)), ..ops }
        } else {
            Operations { mutation: target, ..ops }
        }
    } else if oper == "subscription"@ {
        if ops.subscription is Some {
            Operations { errors: noted(ops.errors, twice(oper)), ..ops }
        } else {
            Operations { subscription: target, ..ops }
        }
    } else {
        Operations {
            errors: noted(
                noted(
                    noted(
                        noted(
                            ops.errors,
                            ErrorModel::Unexpected(InfoModel::Token(Kind::Name, oper)),
                        ),
                        ErrorModel::Expected(InfoModel::Owned("query"@)),
                    ),
                    ErrorModel::Expected(InfoModel::Owned("mutation"@)),
                ),
                ErrorModel::Expected(InfoModel::Owned("subscription"@)),
            ),
            ..ops
        }
    }
}

/// The entries of a schema from token `i` on, after the operations
/// `ops`: as many as there are, each a name, a colon and the name of a
/// type.
pub open spec fn parsed_operations(lx: Lexed, i: int, ops: Operations) -> Parsed<Operations>
    decreases lx.tokens.len() - i,
{
    if !lx.is_kind(i, Kind::Name) {
        Parsed::Done(ops, i)
    } else if !lx.is_punct(i + 1, ":"@) {
        Parsed::Failed(lx.failure(i + 1, texts(seq![":"])))
    } else if !lx.is_kind(i + 2, Kind::Name) {
        Parsed::Failed(lx.failure(i + 2, texts(seq!["Name"])))
    } else {
        parsed_operations(lx, i + 3, with_operation(lx, i, ops))
    }
}

/// The definition of the schema at token `i`: `schema`, directives, and
/// between braces the types of its operations, each operation at most
/// once.
pub open spec fn parsed_schema_definition(lx: Lexed, i: int) -> Parsed<SchemaDefinitionModel> {
    if !lx.is_word(i, "schema"@) {
        Parsed::Failed(lx.failure(i, texts(seq!["schema"])))
    } else {
        match parsed_directives(lx, i + 1, Seq::empty()) {
            Parsed::Failed(f) => Parsed::Failed(f),
            Parsed::Done(directives, j) => if !lx.is_punct(j, "{"@) {
                Parsed::Failed(lx.failure(j, texts(seq!["{"])))
            } else {
                match parsed_operations(
                    lx,
                    j + 1,
                    Operations {
                        query: None,
                        mutation: None,
                        subscription: None,
                        errors: Seq::empty(),
                    },
                ) {
                    Parsed::Failed(f) => Parsed::Failed(f),
                    Parsed::Done(ops, n) => if !lx.is_punct(n, "}"@) {
                        Parsed::Failed(lx.failure(n, texts(seq!["Name", "}"])))
                    } else if ops.errors.len() > 0 {
                        Parsed::Failed(Failure { position: lx.pos(i), errors: ops.errors })
                    } else {
                        Parsed::Done(
                            SchemaDefinitionModel {
                                position: lx.pos(i),
                                directives,
                                query: ops.query,
                                mutation: ops.mutation,
                                subscription: ops.subscription,
                            },
                            n + 1,
                        )
                    },
                }
            },
        }
    }
}

/// Token `i` is the keyword of a type.
pub open spec fn starts_type(lx: Lexed, i: int) -> bool {
    lx.is_word(i, "scalar"@) || lx.is_word(i, "type"@) || lx.is_word(i, "interface"@)
        || lx.is_word(i, "union"@) || lx.is_word(i, "enum"@) || lx.is_word(i, "input"@)
}

/// What is expected where the keyword of a type must stand.
pub open spec fn type_expected() -> Seq<&'static str> {
    seq!["scalar", "type", "interface", "union", "enum", "input"]
}

/// The definition of a type at token `i`, which is its keyword.
pub open spec fn parsed_type_definition(lx: Lexed, i: int) -> Parsed<TypeModelOf> {
    if lx.is_word(i, "scalar"@) {
        match parsed_scalar(lx, lx.pos(i), i + 1) {
            Parsed::Failed(f) => Parsed::Failed(f),
            Parsed::Done(t, j) => Parsed::Done(TypeModelOf::Scalar(t), j),
        }
    } else if lx.is_word(i, "type"@) {
        match parsed_object(lx, lx.pos(i), i + 1) {
            Parsed::Failed(f) => Parsed::Failed(f),
            Parsed::Done(t, j) => Parsed::Done(TypeModelOf::Object(t), j),
        }
    } else if lx.is_word(i, "interface"@) {
        match parsed_object(lx, lx.pos(i), i + 1) {
            Parsed::Failed(f) => Parsed::Failed(f),
            Parsed::Done(t, j) => Parsed::Done(TypeModelOf::Interface(t), j),
        }
    } else if lx.is_word(i, "union"@) {
        match parsed_union(lx, lx.pos(i), i + 1) {
            Parsed::Failed(f) => Parsed::Failed(f),
            Parsed::Done(t, j) => Parsed::Done(TypeModelOf::Union(t), j),
        }
    } else if lx.is_word(i, "enum"@) {
        match parsed_enum(lx, lx.pos(i), i + 1) {
            Parsed::Failed(f) => Parsed::Failed(f),
            Parsed::Done(t, j) => Parsed::Done(TypeModelOf::Enum(t), j),
        }
    } else if lx.is_word(i, "input"@) {
        match parsed_input_object(lx, lx.pos(i), i + 1) {
            Parsed::Failed(f) => Parsed::Failed(f),
            Parsed::Done(t, j) => Parsed::Done(TypeModelOf::InputObject(t), j),
        }
    } else {
        Parsed::Failed(lx.failure(i, texts(type_expected())))
    }
}

/// What an extension lacks that extends nothing, if it does.
pub open spec fn lack_of(t: TypeModelOf) -> Option<Seq<char>> {
    match t {
        TypeModelOf::Scalar(s) => if s.directives.len() == 0 {
            Some("Scalar type extension should contain at least one directive."@)
        } else {
            None
        },
        TypeModelOf::Object(o) => if o.implements_interfaces.len() == 0 && o.directives.len() == 0
            && o.fields.len() == 0 {
            Some("Object type extension should contain at least one interface, directive or field."@)
        } else {
            None
        },
        TypeModelOf::Interface(o) => if o.implements_interfaces.len() == 0 && o.directives.len()
            == 0 && o.fields.len() == 0 {
            Some(
                "Interface type extension should contain at least one interface, directive or field."@,
            )
        } else {
            None
        },
        TypeModelOf::Union(u) => if u.directives.len() == 0 && u.types.len() == 0 {
            Some("Union type extension should contain at least one directive or type."@)
        } else {
            None
        },
        TypeModelOf::Enum(e) => if e.directives.len() == 0 && e.values.len() == 0 {
            Some("Enum type extension should contain at least one directive or value."@)
        } else {
            None
        },
        TypeModelOf::InputObject(o) => if o.directives.len() == 0 && o.fields.len() == 0 {
            Some("Input object type extension should contain at least one directive or field."@)
        } else {
            None
        },
    }
}

/// The extension of a type at token `i`: `extend`, and what the
/// definition of a type holds, of which something besides the name
/// must be there.
pub open spec fn parsed_type_extension(lx: Lexed, i: int) -> Parsed<TypeModelOf> {
    if !lx.is_word(i, "extend"@) {
        Parsed::Failed(lx.failure(i, texts(seq!["extend"])))
    } else {
        match parsed_type_definition(lx, i + 1) {
            Parsed::Failed(f) => Parsed::Failed(f),
            Parsed::Done(t, j) => match lack_of(t) {
                Some(message) => Parsed::Failed(lacking(lx.pos(i + 1), message)),
                None => Parsed::Done(t, j),
            },
        }
    }
}

/// The type `t` with the description `description`.
pub open spec fn described(t: TypeModelOf, description: Option<Seq<char>>) -> TypeModelOf {
    match t {
        TypeModelOf::Scalar(s) => TypeModelOf::Scalar(ScalarModel { description, ..s }),
        TypeModelOf::Object(o) => TypeModelOf::Object(ObjectModel { description, ..o }),
        TypeModelOf::Interface(o) => TypeModelOf::Interface(ObjectModel { description, ..o }),
        TypeModelOf::Union(u) => TypeModelOf::Union(UnionModel { description, ..u }),
        TypeModelOf::Enum(e) => TypeModelOf::Enum(EnumModel { description, ..e }),
        TypeModelOf::InputObject(o) => TypeModelOf::InputObject(
            InputObjectModel { description, ..o },
        ),
    }
}

/// What is expected where a definition with a description must go on.
pub open spec fn described_expected() -> Seq<&'static str> {
    seq!["scalar", "type", "interface", "union", "enum", "input", "directive"]
}

/// The definition of a type or of a directive at token `i`, with the
/// description that may stand before it.
pub open spec fn parsed_described(lx: Lexed, i: int) -> Parsed<DefinitionModel> {
    match parsed_description(lx, i) {
        Parsed::Failed(f) => Parsed::Failed(f),
        Parsed::Done(description, k) => if starts_type(lx, k) {
            match parsed_type_definition(lx, k) {
                Parsed::Failed(f) => Parsed::Failed(f),
                Parsed::Done(t, j) => Parsed::Done(
                    DefinitionModel::TypeDefinition(described(t, description)),
                    j,
                ),
            }
        } else if lx.is_word(k, "directive"@) {
            match parsed_directive_definition(lx, lx.pos(k), k + 1) {
                Parsed::Failed(f) => Parsed::Failed(f),
                Parsed::Done(d, j) => Parsed::Done(
                    DefinitionModel::DirectiveDefinition(
                        DirectiveDefinitionModel { description, ..d },
                    ),
                    j,
                ),
            }
        } else {
            Parsed::Failed(lx.failure(k, texts(described_expected())))
        },
    }
}

/// Token `i` begins a definition.
pub open spec fn starts_definition(lx: Lexed, i: int) -> bool {
    lx.is_word(i, "schema"@) || lx.is_word(i, "extend"@) || starts_string(lx, i) || starts_type(
        lx,
        i,
    ) || lx.is_word(i, "directive"@)
}

/// What is expected where a definition must stand.
pub open spec fn definition_expected() -> Seq<&'static str> {
    seq![
        "schema",
        "extend",
        "scalar",
        "type",
        "interface",
        "union",
        "enum",
        "input",
        "directive",
    ]
}

/// A definition at token `i`.
pub open spec fn parsed_definition(lx: Lexed, i: int) -> Parsed<DefinitionModel> {
    if lx.is_word(i, "schema"@) {
        match parsed_schema_definition(lx, i) {
            Parsed::Failed(f) => Parsed::Failed(f),
            Parsed::Done(d, j) => Parsed::Done(DefinitionModel::SchemaDefinition(d), j),
        }
    } else if lx.is_word(i, "extend"@) {
        match parsed_type_extension(lx, i) {
            Parsed::Failed(f) => Parsed::Failed(f),
            Parsed::Done(t, j) => Parsed::Done(DefinitionModel::TypeExtension(t), j),
        }
    } else if starts_definition(lx, i) {
        parsed_described(lx, i)
    } else {
        Parsed::Failed(lx.failure(i, texts(definition_expected())))
    }
}

/// The definitions from token `i` on, after the definitions `acc`: as
/// many as there are.
pub open spec fn parsed_definitions(lx: Lexed, i: int, acc: Seq<DefinitionModel>) -> Parsed<
    Seq<DefinitionModel>,
>
    decreases lx.tokens.len() - i,
{
    if !starts_definition(lx, i) {
        Parsed::Done(acc, i)
    } else {
        match parsed_definition(lx, i) {
            Parsed::Failed(f) => Parsed::Failed(f),
            Parsed::Done(d, j) => if i < j <= lx.tokens.len() {
                parsed_definitions(lx, j, acc.push(d))
            } else {
                Parsed::Done(acc.push(d), j)
            },
        }
    }
}

/// The tokens `lx` as a document: one definition or more, and nothing
/// behind them.
pub open spec fn parsed_document(lx: Lexed) -> Result<DocumentModel, Failure> {
    if !starts_definition(lx, 0) {
        Err(lx.failure(0, texts(definition_expected())))
    } else {
        match parsed_definitions(lx, 0, Seq::empty()) {
            Parsed::Failed(f) => Err(f),
            Parsed::Done(definitions, j) => if j >= lx.tokens.len() && lx.ending
                == ScanFault::EndOfInput {
                Ok(DocumentModel { definitions })
            } else {
                Err(crate::query::grammar::trailing_failure(lx, j))
            },
        }
    }
}

/// What `s` is as a document of the schema language.
pub open spec fn schema_document(s: Seq<char>) -> Result<DocumentModel, Failure> {
    parsed_document(lex(s))
}

/// The model of the optional text that a result holds.
pub open spec fn option_of(r: Result<Option<String>, crate::error::ParseError>) -> Option<
    Option<Seq<char>>,
> {
    match r {
        Ok(v) => Some(text_view(v)),
        Err(_) => None,
    }
}

/// The models of the input values that a result holds.
pub open spec fn inputs_of(r: Result<Vec<InputValue>, crate::error::ParseError>) -> Option<
    Seq<InputValueModel>,
> {
    match r {
        Ok(v) => Some(inputs_view(v@)),
        Err(_) => None,
    }
}

/// The models of the fields that a result holds.
pub open spec fn fields_of(r: Result<Vec<Field>, crate::error::ParseError>) -> Option<
    Seq<FieldModel>,
> {
    match r {
        Ok(v) => Some(fields_view(v@)),
        Err(_) => None,
    }
}

/// The texts of the names that a result holds.
pub open spec fn names_of(r: Result<Vec<String>, crate::error::ParseError>) -> Option<
    Seq<Seq<char>>,
> {
    match r {
        Ok(v) => Some(names_view(v@)),
        Err(_) => None,
    }
}

/// The model of the name and the directives that a result holds.
pub open spec fn head_of(r: Result<(String, Vec<Directive>), crate::error::ParseError>) -> Option<
    (Seq<char>, Seq<DirectiveModel>),
> {
    match r {
        Ok(v) => Some((v.0@, directives_view(v.1@))),
        Err(_) => None,
    }
}

/// The places that a result holds.
pub open spec fn locations_of(
    r: Result<Vec<DirectiveLocation>, crate::error::ParseError>,
) -> Option<Seq<DirectiveLocation>> {
    match r {
        Ok(v) => Some(v@),
        Err(_) => None,
    }
}

/// The models of the definitions that a result holds.
pub open spec fn definitions_of(r: Result<Vec<Definition>, crate::error::ParseError>) -> Option<
    Seq<DefinitionModel>,
> {
    match r {
        Ok(v) => Some(definitions_view(v@)),
        Err(_) => None,
    }
}

/// Whether the next token begins a member of a type.
fn at_member<'a>(input: &Parser<'a>) -> (b: bool)
    requires
        input.ready(),
    ensures
        b == starts_member(input.lexed(), input.index()),
{
    input.at_kind(Kind::Name) || input.at_kind(Kind::StringValue) || input.at_kind(
        Kind::BlockString,
    )
}

/// Reads a description, if one stands there.
pub fn description<'a>(input: &mut Parser<'a>) -> (r: Result<
    Option<String>,
    crate::error::ParseError,
>)
    requires
        old(input).ready(),
    ensures
        outcome(
            old(input),
            final(input),
            option_of(r),
            failure_of(r),
            parsed_description(old(input).lexed(), old(input).index()),
        ),
{
    if input.at_kind(Kind::StringValue) || input.at_kind(Kind::BlockString) {
        match string(input) {
            Ok(t) => Ok(Some(t)),
            Err(e) => Err(e),
        }
    } else {
        Ok(None)
    }
}

/// Reads an input value.
pub fn input_value<'a>(input: &mut Parser<'a>) -> (r: Result<InputValue, crate::error::ParseError>)
    requires
        old(input).ready(),
    ensures
        outcome(
            old(input),
            final(input),
            model_of(r),
            failure_of(r),
            parsed_input_value(old(input).lexed(), old(input).index()),
        ),
        r is Ok ==> final(input).index() > old(input).index(),
{
    let position = input.position();
    let description = match description(input) {
        Ok(d) => d,
        Err(e) => {
            return Err(e);
        },
    };
    if !input.at_kind(Kind::Name) {
        return Err(input.fail1("Name"));
    }
    let name = input.take_text();
    if !input.at_punct(":") {
        return Err(input.fail1(":"));
    }
    input.bump();
    let value_type = match parse_type(input) {
        Ok(t) => t,
        Err(e) => {
            return Err(e);
        },
    };
    let default = if input.at_punct("=") {
        input.bump();
        match default_value(input) {
            Ok(v) => Some(v),
            Err(e) => {
                return Err(e);
            },
        }
    } else {
        None
    };
    let directives = match directives(input) {
        Ok(d) => d,
        Err(e) => {
            return Err(e);
        },
    };
    Ok(InputValue { position, description, name, value_type, default_value: default, directives })
}

/// Reads input values between the brackets `open` and `close`: none
/// where `open` does not stand there, and else one or more.
#[verifier::loop_isolation(false)]
pub fn input_block<'a>(input: &mut Parser<'a>, open: &'static str, close: &'static str) -> (r:
    Result<Vec<InputValue>, crate::error::ParseError>)
    requires
        old(input).ready(),
    ensures
        outcome(
            old(input),
            final(input),
            inputs_of(r),
            failure_of(r),
            parsed_input_block(old(input).lexed(), old(input).index(), open, close),
        ),
{
    let ghost lx = input.lexed();
    let ghost start = input.index();
    let mut list: Vec<InputValue> = Vec::new();
    assert(inputs_view(list@) =~= Seq::<InputValueModel>::empty());
    if !input.at_punct(open) {
        return Ok(list);
    }
    input.bump();
    if !at_member(input) {
        return Err(input.fail1("Name"));
    }
    while at_member(input)
        invariant
            input.moved(old(input), input.index()),
            start < input.index(),
            parsed_input_values(lx, start + 1, Seq::empty()) == parsed_input_values(
                lx,
                input.index(),
                inputs_view(list@),
            ),
        decreases input.left(),
    {
        let ghost before = inputs_view(list@);
        match input_value(input) {
            Ok(v) => {
                list.push(v);
                assert(inputs_view(list@) =~= before.push(v@));
            },
            Err(e) => {
                return Err(e);
            },
        }
    }
    if !input.at_punct(close) {
        return Err(input.fail2("Name", close));
    }
    input.bump();
    Ok(list)
}

/// Reads a field of a type.
pub fn field<'a>(input: &mut Parser<'a>) -> (r: Result<Field, crate::error::ParseError>)
    requires
        old(input).ready(),
    ensures
        outcome(
            old(input),
            final(input),
            model_of(r),
            failure_of(r),
            parsed_field(old(input).lexed(), old(input).index()),
        ),
        r is Ok ==> final(input).index() > old(input).index(),
{
    let position = input.position();
    let description = match description(input) {
        Ok(d) => d,
        Err(e) => {
            return Err(e);
        },
    };
    if !input.at_kind(Kind::Name) {
        return Err(input.fail1("Name"));
    }
    let name = input.take_text();
    let arguments = match input_block(input, "(", ")") {
        Ok(a) => a,
        Err(e) => {
            return Err(e);
        },
    };
    if !input.at_punct(":") {
        return Err(input.fail1(":"));
    }
    input.bump();
    let field_type = match parse_type(input) {
        Ok(t) => t,
        Err(e) => {
            return Err(e);
        },
    };
    let directives = match directives(input) {
        Ok(d) => d,
        Err(e) => {
            return Err(e);
        },
    };
    Ok(Field { position, description, name, arguments, field_type, directives })
}

/// Reads fields: none where no brace opens, and else one or more
/// between braces.
#[verifier::loop_isolation(false)]
pub fn fields<'a>(input: &mut Parser<'a>) -> (r: Result<Vec<Field>, crate::error::ParseError>)
    requires
        old(input).ready(),
    ensures
        outcome(
            old(input),
            final(input),
            fields_of(r),
            failure_of(r),
            parsed_fields(old(input).lexed(), old(input).index()),
        ),
{
    let ghost lx = input.lexed();
    let ghost start = input.index();
    let mut list: Vec<Field> = Vec::new();
    assert(fields_view(list@) =~= Seq::<FieldModel>::empty());
    if !input.at_punct("{") {
        return Ok(list);
    }
    input.bump();
    if !at_member(input) {
        return Err(input.fail1("Name"));
    }
    while at_member(input)
        invariant
            input.moved(old(input), input.index()),
            start < input.index(),
            parsed_field_list(lx, start + 1, Seq::empty()) == parsed_field_list(
                lx,
                input.index(),
                fields_view(list@),
            ),
        decreases input.left(),
    {
        let ghost before = fields_view(list@);
        match field(input) {
            Ok(v) => {
                list.push(v);
                assert(fields_view(list@) =~= before.push(v@));
            },
            Err(e) => {
                return Err(e);
            },
        }
    }
    if !input.at_punct("}") {
        return Err(input.fail2("Name", "}"));
    }
    input.bump();
    Ok(list)
}

/// Reads the interfaces that a type implements: none where
/// `implements` does not stand there, and else one name or more.
#[verifier::loop_isolation(false)]
pub fn implements_interfaces<'a>(input: &mut Parser<'a>) -> (r: Result<
    Vec<String>,
    crate::error::ParseError,
>)
    requires
        old(input).ready(),
    ensures
        outcome(
            old(input),
            final(input),
            names_of(r),
            failure_of(r),
            parsed_implements(old(input).lexed(), old(input).index()),
        ),
{
    let ghost lx = input.lexed();
    let ghost start = input.index();
    let mut list: Vec<String> = Vec::new();
    assert(names_view(list@) =~= Seq::<Seq<char>>::empty());
    if !input.at_word("implements") {
        return Ok(list);
    }
    input.bump();
    if !input.at_kind(Kind::Name) {
        return Err(input.fail1("Name"));
    }
    while input.at_kind(Kind::Name)
        invariant
            input.moved(old(input), input.index()),
            start < input.index(),
            parsed_names(lx, start + 1, Seq::empty()) == parsed_names(
                lx,
                input.index(),
                names_view(list@),
            ),
        decreases input.left(),
    {
        let ghost before = names_view(list@);
        let name = input.take_text();
        list.push(name);
        assert(names_view(list@) =~= before.push(name@));
    }
    Ok(list)
}

/// Reads names parted by `|`, before which another `|` may stand.
#[verifier::loop_isolation(false)]
pub fn union_members<'a>(input: &mut Parser<'a>) -> (r: Result<
    Vec<String>,
    crate::error::ParseError,
>)
    requires
        old(input).ready(),
    ensures
        outcome(
            old(input),
            final(input),
            names_of(r),
            failure_of(r),
            parsed_members(old(input).lexed(), old(input).index()),
        ),
{
    let ghost lx = input.lexed();
    let mut list: Vec<String> = Vec::new();
    assert(names_view(list@) =~= Seq::<Seq<char>>::empty());
    if input.at_punct("|") {
        input.bump();
    }
    let ghost first = input.index();
    loop
        invariant
            input.moved(old(input), input.index()),
            first <= input.index(),
            parsed_parted(lx, first, Seq::empty()) == parsed_parted(
                lx,
                input.index(),
                names_view(list@),
            ),
        decreases input.left(),
    {
        let ghost before = names_view(list@);
        if !input.at_kind(Kind::Name) {
            return Err(input.fail1("Name"));
        }
        let name = input.take_text();
        list.push(name);
        assert(names_view(list@) =~= before.push(name@));
        if input.at_punct("|") {
            input.bump();
        } else {
            return Ok(list);
        }
    }
}

/// Reads a name and directives.
fn head<'a>(input: &mut Parser<'a>) -> (r: Result<
    (String, Vec<Directive>),
    crate::error::ParseError,
>)
    requires
        old(input).ready(),
    ensures
        outcome(
            old(input),
            final(input),
            head_of(r),
            failure_of(r),
            parsed_head(old(input).lexed(), old(input).index()),
        ),
        r is Ok ==> final(input).index() > old(input).index(),
{
    if !input.at_kind(Kind::Name) {
        return Err(input.fail1("Name"));
    }
    let name = input.take_text();
    match directives(input) {
        Ok(d) => Ok((name, d)),
        Err(e) => Err(e),
    }
}

/// Reads a scalar type from its name on; its keyword stood at
/// `position`.
pub fn scalar_type<'a>(input: &mut Parser<'a>, position: Pos) -> (r: Result<
    ScalarType,
    crate::error::ParseError,
>)
    requires
        old(input).ready(),
    ensures
        outcome(
            old(input),
            final(input),
            model_of(r),
            failure_of(r),
            parsed_scalar(old(input).lexed(), position, old(input).index()),
        ),
        r is Ok ==> final(input).index() > old(input).index(),
{
    match head(input) {
        Ok(h) => Ok(ScalarType { position, description: None, name: h.0, directives: h.1 }),
        Err(e) => Err(e),
    }
}

/// Reads an object type from its name on; its keyword stood at
/// `position`.
pub fn object_type<'a>(input: &mut Parser<'a>, position: Pos) -> (r: Result<
    ObjectType,
    crate::error::ParseError,
>)
    requires
        old(input).ready(),
    ensures
        outcome(
            old(input),
            final(input),
            model_of(r),
            failure_of(r),
            parsed_object(old(input).lexed(), position, old(input).index()),
        ),
        r is Ok ==> final(input).index() > old(input).index(),
{
    if !input.at_kind(Kind::Name) {
        return Err(input.fail1("Name"));
    }
    let name = input.take_text();
    let implements_interfaces = match implements_interfaces(input) {
        Ok(v) => v,
        Err(e) => {
            return Err(e);
        },
    };
    let directives = match directives(input) {
        Ok(v) => v,
        Err(e) => {
            return Err(e);
        },
    };
    let fields = match fields(input) {
        Ok(v) => v,
        Err(e) => {
            return Err(e);
        },
    };
    Ok(ObjectType { position, description: None, name, implements_interfaces, directives, fields })
}

/// Reads a union from its name on; its keyword stood at `position`.
pub fn union_type<'a>(input: &mut Parser<'a>, position: Pos) -> (r: Result<
    UnionType,
    crate::error::ParseError,
>)
    requires
        old(input).ready(),
    ensures
        outcome(
            old(input),
            final(input),
            model_of(r),
            failure_of(r),
            parsed_union(old(input).lexed(), position, old(input).index()),
        ),
        r is Ok ==> final(input).index() > old(input).index(),
{
    let h = match head(input) {
        Ok(h) => h,
        Err(e) => {
            return Err(e);
        },
    };
    let types = if input.at_punct("=") {
        input.bump();
        match union_members(input) {
            Ok(t) => t,
            Err(e) => {
                return Err(e);
            },
        }
    } else {
        let t: Vec<String> = Vec::new();
        assert(names_view(t@) =~= Seq::<Seq<char>>::empty());
        t
    };
    Ok(UnionType { position, description: None, name: h.0, directives: h.1, types })
}

/// Reads a value of an enum type.
pub fn enum_value<'a>(input: &mut Parser<'a>) -> (r: Result<EnumValue, crate::error::ParseError>)
    requires
        old(input).ready(),
    ensures
        outcome(
            old(input),
            final(input),
            model_of(r),
            failure_of(r),
            parsed_enum_value(old(input).lexed(), old(input).index()),
        ),
        r is Ok ==> final(input).index() > old(input).index(),
{
    let position = input.position();
    let description = match description(input) {
        Ok(d) => d,
        Err(e) => {
            return Err(e);
        },
    };
    match head(input) {
        Ok(h) => Ok(EnumValue { position, description, name: h.0, directives: h.1 }),
        Err(e) => Err(e),
    }
}

/// Reads an enum type from its name on; its keyword stood at
/// `position`.
#[verifier::loop_isolation(false)]
pub fn enum_type<'a>(input: &mut Parser<'a>, position: Pos) -> (r: Result<
    EnumType,
    crate::error::ParseError,
>)
    requires
        old(input).ready(),
    ensures
        outcome(
            old(input),
            final(input),
            model_of(r),
            failure_of(r),
            parsed_enum(old(input).lexed(), position, old(input).index()),
        ),
        r is Ok ==> final(input).index() > old(input).index(),
{
    let ghost lx = input.lexed();
    let h = match head(input) {
        Ok(h) => h,
        Err(e) => {
            return Err(e);
        },
    };
    let ghost brace = input.index();
    let mut values: Vec<EnumValue> = Vec::new();
    assert(enum_values_view(values@) =~= Seq::<EnumValueModel>::empty());
    if !input.at_punct("{") {
        return Ok(EnumType { position, description: None, name: h.0, directives: h.1, values });
    }
    input.bump();
    if !at_member(input) {
        return Err(input.fail1("Name"));
    }
    while at_member(input)
        invariant
            input.moved(old(input), input.index()),
            brace < input.index(),
            parsed_enum_value_list(lx, brace + 1, Seq::empty()) == parsed_enum_value_list(
                lx,
                input.index(),
                enum_values_view(values@),
            ),
        decreases input.left(),
    {
        let ghost before = enum_values_view(values@);
        match enum_value(input) {
            Ok(v) => {
                values.push(v);
                assert(enum_values_view(values@) =~= before.push(v@));
            },
            Err(e) => {
                return Err(e);
            },
        }
    }
    if !input.at_punct("}") {
        return Err(input.fail2("Name", "}"));
    }
    input.bump();
    Ok(EnumType { position, description: None, name: h.0, directives: h.1, values })
}

/// Reads an input object type from its name on; its keyword stood at
/// `position`.
pub fn input_object_type<'a>(input: &mut Parser<'a>, position: Pos) -> (r: Result<
    InputObjectType,
    crate::error::ParseError,
>)
    requires
        old(input).ready(),
    ensures
        outcome(
            old(input),
            final(input),
            model_of(r),
            failure_of(r),
            parsed_input_object(old(input).lexed(), position, old(input).index()),
        ),
        r is Ok ==> final(input).index() > old(input).index(),
{
    let h = match head(input) {
        Ok(h) => h,
        Err(e) => {
            return Err(e);
        },
    };
    match input_block(input, "{", "}") {
        Ok(fields) => Ok(
            InputObjectType { position, description: None, name: h.0, directives: h.1, fields },
        ),
        Err(e) => Err(e),
    }
}

/// Reads the places of a directive: none where neither a name nor `|`
/// stands there.
#[verifier::loop_isolation(false)]
pub fn directive_locations<'a>(input: &mut Parser<'a>) -> (r: Result<
    Vec<DirectiveLocation>,
    crate::error::ParseError,
>)
    requires
        old(input).ready(),
    ensures
        outcome(
            old(input),
            final(input),
            locations_of(r),
            failure_of(r),
            parsed_locations(old(input).lexed(), old(input).index()),
        ),
{
    let ghost lx = input.lexed();
    let mut list: Vec<DirectiveLocation> = Vec::new();
    if input.at_punct("|") {
        input.bump();
    } else if !input.at_kind(Kind::Name) {
        return Ok(list);
    }
    let ghost first = input.index();
    loop
        invariant
            input.moved(old(input), input.index()),
            first <= input.index(),
            parsed_location_list(lx, first, Seq::empty()) == parsed_location_list(
                lx,
                input.index(),
                list@,
            ),
        decreases input.left(),
    {
        if !input.at_kind(Kind::Name) {
            return Err(input.fail1("Name"));
        }
        let position = input.position();
        let token = input.bump();
        match DirectiveLocation::parse(token.value) {
            Ok(l) => {
                list.push(l);
            },
            Err(e) => {
                let mut errors: Vec<Error> = Vec::new();
                let entry = Error::Other(e.to_string());
                errors.push(entry);
                let e = crate::error::ParseError { position, errors };
                assert(e@.errors =~= seq![entry@]);
                return Err(e);
            },
        }
        if input.at_punct("|") {
            input.bump();
        } else {
            return Ok(list);
        }
    }
}

/// Reads the definition of a directive from its `@` on; its keyword
/// stood at `position`.
pub fn directive_definition<'a>(input: &mut Parser<'a>, position: Pos) -> (r: Result<
    DirectiveDefinition,
    crate::error::ParseError,
>)
    requires
        old(input).ready(),
    ensures
        outcome(
            old(input),
            final(input),
            model_of(r),
            failure_of(r),
            parsed_directive_definition(old(input).lexed(), position, old(input).index()),
        ),
        r is Ok ==> final(input).index() > old(input).index(),
{
    if !input.at_punct("@") {
        return Err(input.fail1("@"));
    }
    input.bump();
    if !input.at_kind(Kind::Name) {
        return Err(input.fail1("Name"));
    }
    let name = input.take_text();
    let arguments = match input_block(input, "(", ")") {
        Ok(a) => a,
        Err(e) => {
            return Err(e);
        },
    };
    let repeatable = input.at_word("repeatable");
    if repeatable {
        input.bump();
    }
    if !input.at_word("on") {
        if repeatable {
            return Err(input.fail1("on"));
        } else {
            return Err(input.fail2("repeatable", "on"));
        }
    }
    input.bump();
    match directive_locations(input) {
        Ok(locations) => Ok(
            DirectiveDefinition {
                position,
                description: None,
                name,
                arguments,
                repeatable,
                locations,
            },
        ),
        Err(e) => Err(e),
    }
}

/// The entries of a parse error as models.
pub open spec fn errors_view(v: Seq<Error>) -> Seq<ErrorModel> {
    v.map_values(|e: Error| e@)
}

/// Notes an entry, unless it is there already.
fn note(errors: &mut Vec<Error>, e: Error)
    ensures
        errors_view(final(errors)@) == noted(errors_view(old(errors)@), e@),
{
    let ghost es = errors_view(errors@);
    let mut k: usize = 0;
    while k < errors.len()
        invariant
            k <= errors@.len(),
            errors@ == old(errors)@,
            es == errors_view(errors@),
            forall|j: int| 0 <= j < k ==> es[j] != e@,
        decreases errors@.len() - k,
    {
        assert(es[k as int] == errors@[k as int]@);
        if same_error(&errors[k], &e) {
            assert(es.contains(e@));
            return ;
        }
        k += 1;
    }
    assert(!es.contains(e@));
    errors.push(e);
    assert(errors_view(errors@) =~= es.push(e@));
}

/// The types of the operations of a schema as they are read.
pub struct SchemaOperations {
    pub query: Option<String>,
    pub mutation: Option<String>,
    pub subscription: Option<String>,
    pub errors: Vec<Error>,
}

impl View for SchemaOperations {
    type V = Operations;

    open spec fn view(&self) -> Operations {
        Operations {
            query: text_view(self.query),
            mutation: text_view(self.mutation),
            subscription: text_view(self.subscription),
            errors: errors_view(self.errors@),
        }
    }
}

/// An entry that says that the text `t` was expected.
fn expected(t: &'static str) -> (e: Error)
    ensures
        e@ == ErrorModel::Expected(InfoModel::Owned(t@)),
{
    Error::Expected(Info::Owned(String::from_str(t)))
}

/// Takes up the entry of a schema that sets the type of the operation
/// `oper` to `target`.
fn set_operation(ops: &mut SchemaOperations, oper: String, target: String)
    ensures
        forall|lx: Lexed, i: int|
            0 <= i && i + 2 < lx.tokens.len() && lx.tokens[i].text == oper@ && lx.tokens[i
                + 2].text == target@ ==> final(ops)@ == #[trigger] with_operation(
                lx,
                i,
                old(ops)@,
            ),
{
    proof {
        reveal_strlit("query");
        reveal_strlit("mutation");
        reveal_strlit("subscription");
        assert("query"@.len() == 5 && "mutation"@.len() == 8 && "subscription"@.len() == 12);
    }
    let twice_query = same_text(oper.as_str(), "query") && ops.query.is_some();
    let twice_mutation = same_text(oper.as_str(), "mutation") && ops.mutation.is_some();
    let twice_subscription = same_text(oper.as_str(), "subscription")
        && ops.subscription.is_some();
    if twice_query || twice_mutation || twice_subscription {
        let message = String::from_str("duplicate `").concat(oper.as_str()).concat(
            "` operation",
        );
        note(&mut ops.errors, Error::Unexpected(Info::Owned(message)));
    } else if same_text(oper.as_str(), "query") {
        ops.query = Some(target);
    } else if same_text(oper.as_str(), "mutation") {
        ops.mutation = Some(target);
    } else if same_text(oper.as_str(), "subscription") {
        ops.subscription = Some(target);
    } else {
        note(
            &mut ops.errors,
            Error::Unexpected(Info::Token(OwnedToken { kind: Kind::Name, value: oper })),
        );
        note(&mut ops.errors, expected("query"));
        note(&mut ops.errors, expected("mutation"));
        note(&mut ops.errors, expected("subscription"));
    }
}

/// Reads the definition of the schema.
#[verifier::loop_isolation(false)]
pub fn schema<'a>(input: &mut Parser<'a>) -> (r: Result<
    SchemaDefinition,
    crate::error::ParseError,
>)
    requires
        old(input).ready(),
    ensures
        outcome(
            old(input),
            final(input),
            model_of(r),
            failure_of(r),
            parsed_schema_definition(old(input).lexed(), old(input).index()),
        ),
        r is Ok ==> final(input).index() > old(input).index(),
{
    let ghost lx = input.lexed();
    if !input.at_word("schema") {
        return Err(input.fail1("schema"));
    }
    let position = input.position();
    input.bump();
    let directives = match directives(input) {
        Ok(d) => d,
        Err(e) => {
            return Err(e);
        },
    };
    if !input.at_punct("{") {
        return Err(input.fail1("{"));
    }
    let ghost brace = input.index();
    input.bump();
    let mut ops = SchemaOperations {
        query: None,
        mutation: None,
        subscription: None,
        errors: Vec::new(),
    };
    assert(errors_view(ops.errors@) =~= Seq::<ErrorModel>::empty());
    let ghost none = ops@;
    while input.at_kind(Kind::Name)
        invariant
            input.moved(old(input), input.index()),
            brace < input.index(),
            parsed_operations(lx, brace + 1, none) == parsed_operations(lx, input.index(), ops@),
        decreases input.left(),
    {
        let ghost i = input.index();
        let oper = input.take_text();
        if !input.at_punct(":") {
            return Err(input.fail1(":"));
        }
        input.bump();
        if !input.at_kind(Kind::Name) {
            return Err(input.fail1("Name"));
        }
        let target = input.take_text();
        let ghost before = ops@;
        set_operation(&mut ops, oper, target);
        assert(ops@ == with_operation(lx, i, before));
    }
    if !input.at_punct("}") {
        return Err(input.fail2("Name", "}"));
    }
    input.bump();
    if ops.errors.len() > 0 {
        return Err(crate::error::ParseError { position, errors: ops.errors });
    }
    Ok(
        SchemaDefinition {
            position,
            directives,
            query: ops.query,
            mutation: ops.mutation,
            subscription: ops.subscription,
        },
    )
}

/// Whether the next token is the keyword of a type.
fn at_type<'a>(input: &Parser<'a>) -> (b: bool)
    requires
        input.ready(),
    ensures
        b == starts_type(input.lexed(), input.index()),
{
    input.at_word("scalar") || input.at_word("type") || input.at_word("interface")
        || input.at_word("union") || input.at_word("enum") || input.at_word("input")
}

/// Reads the definition of a type, which begins with its keyword.
pub fn type_definition<'a>(input: &mut Parser<'a>) -> (r: Result<
    TypeDefinition,
    crate::error::ParseError,
>)
    requires
        old(input).ready(),
    ensures
        outcome(
            old(input),
            final(input),
            model_of(r),
            failure_of(r),
            parsed_type_definition(old(input).lexed(), old(input).index()),
        ),
        r is Ok ==> final(input).index() > old(input).index(),
{
    let position = input.position();
    if input.at_word("scalar") {
        input.bump();
        match scalar_type(input, position) {
            Ok(t) => Ok(TypeDefinition::Scalar(t)),
            Err(e) => Err(e),
        }
    } else if input.at_word("type") {
        input.bump();
        match object_type(input, position) {
            Ok(t) => Ok(TypeDefinition::Object(t)),
            Err(e) => Err(e),
        }
    } else if input.at_word("interface") {
        input.bump();
        match object_type(input, position) {
            Ok(t) => Ok(
                TypeDefinition::Interface(
                    InterfaceType {
                        position: t.position,
                        description: t.description,
                        name: t.name,
                        implements_interfaces: t.implements_interfaces,
                        directives: t.directives,
                        fields: t.fields,
                    },
                ),
            ),
            Err(e) => Err(e),
        }
    } else if input.at_word("union") {
        input.bump();
        match union_type(input, position) {
            Ok(t) => Ok(TypeDefinition::Union(t)),
            Err(e) => Err(e),
        }
    } else if input.at_word("enum") {
        input.bump();
        match enum_type(input, position) {
            Ok(t) => Ok(TypeDefinition::Enum(t)),
            Err(e) => Err(e),
        }
    } else if input.at_word("input") {
        input.bump();
        match input_object_type(input, position) {
            Ok(t) => Ok(TypeDefinition::InputObject(t)),
            Err(e) => Err(e),
        }
    } else {
        let v = vec!["scalar", "type", "interface", "union", "enum", "input"];
        assert(v@ =~= type_expected());
        Err(input.fail(v))
    }
}

/// What an extension lacks that extends nothing, if it does.
fn lack(t: &TypeDefinition) -> (m: Option<&'static str>)
    ensures
        text_of_static(m) == lack_of(t@),
{
    match t {
        TypeDefinition::Scalar(s) => if s.directives.len() == 0 {
            Some("Scalar type extension should contain at least one directive.")
        } else {
            None
        },
        TypeDefinition::Object(o) => if o.implements_interfaces.len() == 0 && o.directives.len()
            == 0 && o.fields.len() == 0 {
            Some("Object type extension should contain at least one interface, directive or field.")
        } else {
            None
        },
        TypeDefinition::Interface(o) => if o.implements_interfaces.len() == 0
            && o.directives.len() == 0 && o.fields.len() == 0 {
            Some(
                "Interface type extension should contain at least one interface, directive or field.",
            )
        } else {
            None
        },
        TypeDefinition::Union(u) => if u.directives.len() == 0 && u.types.len() == 0 {
            Some("Union type extension should contain at least one directive or type.")
        } else {
            None
        },
        TypeDefinition::Enum(e) => if e.directives.len() == 0 && e.values.len() == 0 {
            Some("Enum type extension should contain at least one directive or value.")
        } else {
            None
        },
        TypeDefinition::InputObject(o) => if o.directives.len() == 0 && o.fields.len() == 0 {
            Some("Input object type extension should contain at least one directive or field.")
        } else {
            None
        },
    }
}

/// The text of an optional string.
pub open spec fn text_of_static(m: Option<&'static str>) -> Option<Seq<char>> {
    match m {
        Some(m) => Some(m@),
        None => None,
    }
}

/// The extension that holds what the definition `t` holds, which has no
/// description.
fn as_extension(t: TypeDefinition) -> (x: TypeExtension)
    requires
        match t {
            TypeDefinition::Scalar(s) => s.description is None,
            TypeDefinition::Object(o) => o.description is None,
            TypeDefinition::Interface(o) => o.description is None,
            TypeDefinition::Union(u) => u.description is None,
            TypeDefinition::Enum(e) => e.description is None,
            TypeDefinition::InputObject(o) => o.description is None,
        },
    ensures
        x@ == t@,
{
    match t {
        TypeDefinition::Scalar(s) => TypeExtension::Scalar(
            ScalarTypeExtension { position: s.position, name: s.name, directives: s.directives },
        ),
        TypeDefinition::Object(o) => TypeExtension::Object(
            ObjectTypeExtension {
                position: o.position,
                name: o.name,
                implements_interfaces: o.implements_interfaces,
                directives: o.directives,
                fields: o.fields,
            },
        ),
        TypeDefinition::Interface(o) => TypeExtension::Interface(
            InterfaceTypeExtension {
                position: o.position,
                name: o.name,
                implements_interfaces: o.implements_interfaces,
                directives: o.directives,
                fields: o.fields,
            },
        ),
        TypeDefinition::Union(u) => TypeExtension::Union(
            UnionTypeExtension {
                position: u.position,
                name: u.name,
                directives: u.directives,
                types: u.types,
            },
        ),
        TypeDefinition::Enum(e) => TypeExtension::Enum(
            EnumTypeExtension {
                position: e.position,
                name: e.name,
                directives: e.directives,
                values: e.values,
            },
        ),
        TypeDefinition::InputObject(o) => TypeExtension::InputObject(
            InputObjectTypeExtension {
                position: o.position,
                name: o.name,
                directives: o.directives,
                fields: o.fields,
            },
        ),
    }
}

/// A definition of a type has no description before one is given to
/// it.
pub proof fn undescribed(lx: Lexed, i: int)
    ensures
        match parsed_type_definition(lx, i) {
            Parsed::Done(t, _) => described(t, None) == t,
            Parsed::Failed(_) => true,
        },
{
}

/// Reads the extension of a type.
pub fn type_extension<'a>(input: &mut Parser<'a>) -> (r: Result<
    TypeExtension,
    crate::error::ParseError,
>)
    requires
        old(input).ready(),
    ensures
        outcome(
            old(input),
            final(input),
            model_of(r),
            failure_of(r),
            parsed_type_extension(old(input).lexed(), old(input).index()),
        ),
        r is Ok ==> final(input).index() > old(input).index(),
{
    if !input.at_word("extend") {
        return Err(input.fail1("extend"));
    }
    input.bump();
    let position = input.position();
    proof {
        undescribed(input.lexed(), input.index());
    }
    let t = match type_definition(input) {
        Ok(t) => t,
        Err(e) => {
            return Err(e);
        },
    };
    match lack(&t) {
        Some(message) => {
            let mut errors: Vec<Error> = Vec::new();
            let entry = Error::Unexpected(Info::Owned(String::from_str(message)));
            errors.push(entry);
            let e = crate::error::ParseError { position, errors };
            assert(e@.errors =~= seq![entry@]);
            Err(e)
        },
        None => Ok(as_extension(t)),
    }
}

/// The definition `t` with the description `description`.
fn describe(t: TypeDefinition, description: Option<String>) -> (d: TypeDefinition)
    ensures
        d@ == described(t@, text_view(description)),
{
    match t {
        TypeDefinition::Scalar(s) => TypeDefinition::Scalar(
            ScalarType {
                position: s.position,
                description,
                name: s.name,
                directives: s.directives,
            },
        ),
        TypeDefinition::Object(o) => TypeDefinition::Object(
            ObjectType {
                position: o.position,
                description,
                name: o.name,
                implements_interfaces: o.implements_interfaces,
                directives: o.directives,
                fields: o.fields,
            },
        ),
        TypeDefinition::Interface(o) => TypeDefinition::Interface(
            InterfaceType {
                position: o.position,
                description,
                name: o.name,
                implements_interfaces: o.implements_interfaces,
                directives: o.directives,
                fields: o.fields,
            },
        ),
        TypeDefinition::Union(u) => TypeDefinition::Union(
            UnionType {
                position: u.position,
                description,
                name: u.name,
                directives: u.directives,
                types: u.types,
            },
        ),
        TypeDefinition::Enum(e) => TypeDefinition::Enum(
            EnumType {
                position: e.position,
                description,
                name: e.name,
                directives: e.directives,
                values: e.values,
            },
        ),
        TypeDefinition::InputObject(o) => TypeDefinition::InputObject(
            InputObjectType {
                position: o.position,
                description,
                name: o.name,
                directives: o.directives,
                fields: o.fields,
            },
        ),
    }
}

/// Reads the definition of a type or of a directive, with the
/// description that may stand before it.
pub fn descriptions_required<'a>(input: &mut Parser<'a>) -> (r: Result<
    Definition,
    crate::error::ParseError,
>)
    requires
        old(input).ready(),
    ensures
        outcome(
            old(input),
            final(input),
            model_of(r),
            failure_of(r),
            parsed_described(old(input).lexed(), old(input).index()),
        ),
        r is Ok ==> final(input).index() > old(input).index(),
{
    let description = match description(input) {
        Ok(d) => d,
        Err(e) => {
            return Err(e);
        },
    };
    if at_type(input) {
        match type_definition(input) {
            Ok(t) => Ok(Definition::TypeDefinition(describe(t, description))),
            Err(e) => Err(e),
        }
    } else if input.at_word("directive") {
        let position = input.position();
        input.bump();
        match directive_definition(input, position) {
            Ok(d) => Ok(
                Definition::DirectiveDefinition(
                    DirectiveDefinition {
                        position: d.position,
                        description,
                        name: d.name,
                        arguments: d.arguments,
                        repeatable: d.repeatable,
                        locations: d.locations,
                    },
                ),
            ),
            Err(e) => Err(e),
        }
    } else {
        let v = vec!["scalar", "type", "interface", "union", "enum", "input", "directive"];
        assert(v@ =~= described_expected());
        Err(input.fail(v))
    }
}

/// Whether the next token begins a definition.
fn at_definition<'a>(input: &Parser<'a>) -> (b: bool)
    requires
        input.ready(),
    ensures
        b == starts_definition(input.lexed(), input.index()),
{
    input.at_word("schema") || input.at_word("extend") || input.at_kind(Kind::StringValue)
        || input.at_kind(Kind::BlockString) || at_type(input) || input.at_word("directive")
}

/// The failure of a grammar that finds no definition where the reader
/// stands.
fn fail_definition<'a>(input: &Parser<'a>) -> (e: crate::error::ParseError)
    requires
        input.ready(),
    ensures
        e@ == input.lexed().failure(input.index(), texts(definition_expected())),
{
    let v = vec![
        "schema",
        "extend",
        "scalar",
        "type",
        "interface",
        "union",
        "enum",
        "input",
        "directive",
    ];
    assert(v@ =~= definition_expected());
    input.fail(v)
}

/// Reads a definition.
pub fn definition<'a>(input: &mut Parser<'a>) -> (r: Result<Definition, crate::error::ParseError>)
    requires
        old(input).ready(),
    ensures
        outcome(
            old(input),
            final(input),
            model_of(r),
            failure_of(r),
            parsed_definition(old(input).lexed(), old(input).index()),
        ),
        r is Ok ==> final(input).index() > old(input).index(),
{
    if input.at_word("schema") {
        match schema(input) {
            Ok(d) => Ok(Definition::SchemaDefinition(d)),
            Err(e) => Err(e),
        }
    } else if input.at_word("extend") {
        match type_extension(input) {
            Ok(t) => Ok(Definition::TypeExtension(t)),
            Err(e) => Err(e),
        }
    } else if at_definition(input) {
        descriptions_required(input)
    } else {
        Err(fail_definition(input))
    }
}

/// Reads definitions: as many as there are.
#[verifier::loop_isolation(false)]
fn definitions<'a>(input: &mut Parser<'a>) -> (r: Result<
    Vec<Definition>,
    crate::error::ParseError,
>)
    requires
        old(input).ready(),
    ensures
        outcome(
            old(input),
            final(input),
            definitions_of(r),
            failure_of(r),
            parsed_definitions(old(input).lexed(), old(input).index(), Seq::empty()),
        ),
{
    let ghost lx = input.lexed();
    let ghost start = input.index();
    let mut list: Vec<Definition> = Vec::new();
    assert(definitions_view(list@) =~= Seq::<DefinitionModel>::empty());
    while at_definition(input)
        invariant
            input.moved(old(input), input.index()),
            start <= input.index(),
            parsed_definitions(lx, start, Seq::empty()) == parsed_definitions(
                lx,
                input.index(),
                definitions_view(list@),
            ),
        decreases input.left(),
    {
        let ghost before = definitions_view(list@);
        match definition(input) {
            Ok(d) => {
                list.push(d);
                assert(definitions_view(list@) =~= before.push(d@));
            },
            Err(e) => {
                return Err(e);
            },
        }
    }
    Ok(list)
}

/// Parses a document of the schema language: one definition or more,
/// with nothing but what the tokenizer ignores behind them.
pub fn parse_schema(s: &str) -> (r: Result<Document, ParseError>)
    ensures
        match schema_document(s@) {
            Ok(d) => r is Ok && r->Ok_0@ == d,
            Err(f) => r is Err && r->Err_0@ == f,
        },
{
    let mut input = Parser::new(s);
    if !at_definition(&input) {
        return Err(ParseError(fail_definition(&input)));
    }
    let definitions = match definitions(&mut input) {
        Ok(d) => d,
        Err(e) => {
            return Err(ParseError(e));
        },
    };
    if input.at_end() {
        Ok(Document { definitions })
    } else {
        Err(ParseError(crate::query::grammar::fail_trailing(&input)))
    }
}

} // verus!
