//! The printer of the schema language: from a syntax tree to its text.
//!
//! The spec functions of this file say what the text of each node is, in
//! a given style and at a given indent. The functions that print are
//! proved to write just that.

use vstd::prelude::*;
use vstd::string::*;
use crate::format::{
    Formatter, Style, deeper, string_literal, end_of_block,
    margin_of,
};
use crate::text::spaces;
use crate::common::{Directive, Type, Value, DirectiveModel, directives_view};
use crate::query::ast::text_view;
use crate::query::format::{directives_text, type_text, value_text, format_directives};
use crate::schema::ast::{
    Definition, DirectiveDefinition, DirectiveLocation, Document, EnumType, EnumTypeExtension,
    EnumValue, Field, InputObjectType, InputObjectTypeExtension, InputValue, InterfaceType,
    InterfaceTypeExtension, ObjectType, ObjectTypeExtension, ScalarType, ScalarTypeExtension,
    SchemaDefinition, TypeDefinition, TypeExtension, UnionType, UnionTypeExtension,
    DefinitionModel, DirectiveDefinitionModel, DocumentModel, EnumModel, EnumValueModel,
    FieldModel, InputObjectModel, InputValueModel, ObjectModel, ScalarModel,
    SchemaDefinitionModel, TypeModelOf, UnionModel, names_view, value_view, fields_view,
    inputs_view, enum_values_view, definitions_view,
};

verus! {

/// The text of a description that stands on a line of its own.
pub open spec fn description_text(d: Option<Seq<char>>, style: Style, level: u32) -> Seq<char> {
    match d {
        Some(t) => spaces(level as nat) + string_literal(t, level, style.width()) + seq!['\n'],
        None => Seq::empty(),
    }
}

/// The text of a description that stands before a name on its line.
pub open spec fn inline_description_text(d: Option<Seq<char>>, style: Style, level: u32) -> Seq<
    char,
> {
    match d {
        Some(t) => string_literal(t, level, style.width()) + seq![' '],
        None => Seq::empty(),
    }
}

/// The first `n` names, with `bar` between each two.
pub open spec fn names_text(names: Seq<Seq<char>>, bar: Seq<char>, n: nat) -> Seq<char>
    decreases n,
{
    if n == 0 || n > names.len() {
        Seq::empty()
    } else if n == 1 {
        names[0]
    } else {
        names_text(names, bar, (n - 1) as nat) + bar + names[n - 1]
    }
}

/// The text of an input value.
pub open spec fn input_value_text(v: InputValueModel, style: Style, level: u32) -> Seq<char> {
    inline_description_text(v.description, style, level) + v.name + seq![':', ' '] + type_text(
        v.value_type,
    ) + (match v.default_value {
        Some(d) => seq![' ', '=', ' '] + value_text(d, style, level),
        None => Seq::empty(),
    }) + directives_text(v.directives, style, level, v.directives.len())
}

/// The text of the first `n` arguments of a definition, with a comma
/// and a space between each two.
pub open spec fn argument_list_text(
    args: Seq<InputValueModel>,
    style: Style,
    level: u32,
    n: nat,
) -> Seq<char>
    decreases n,
{
    if n == 0 || n > args.len() {
        Seq::empty()
    } else {
        argument_list_text(args, style, level, (n - 1) as nat) + (if n > 1 {
            seq![',', ' ']
        } else {
            Seq::empty()
        }) + input_value_text(args[n - 1], style, level)
    }
}

/// The text of the arguments of a definition between their
/// parentheses; nothing, if there are none.
pub open spec fn arguments_definition_text(args: Seq<InputValueModel>, style: Style, level: u32)
    -> Seq<char> {
    if args.len() == 0 {
        Seq::empty()
    } else {
        seq!['('] + argument_list_text(args, style, level, args.len()) + seq![')']
    }
}

/// The text of a field of a type: its description, and its line.
pub open spec fn field_text(f: FieldModel, style: Style, level: u32) -> Seq<char> {
    description_text(f.description, style, level) + spaces(level as nat) + f.name
        + arguments_definition_text(f.arguments, style, level) + seq![':', ' '] + type_text(
        f.field_type,
    ) + directives_text(f.directives, style, level, f.directives.len()) + seq!['\n']
}

/// The text of the first `n` fields.
pub open spec fn field_list_text(fields: Seq<FieldModel>, style: Style, level: u32, n: nat) -> Seq<
    char,
>
    decreases n,
{
    if n == 0 || n > fields.len() {
        Seq::empty()
    } else {
        field_list_text(fields, style, level, (n - 1) as nat) + field_text(
            fields[n - 1],
            style,
            level,
        )
    }
}

/// What ends the line of a type that may have a block of members: the
/// block whose text is `members`, if there are members, and else the
/// end of the line.
pub open spec fn members_text(count: nat, members: Seq<char>, level: u32) -> Seq<char> {
    if count == 0 {
        seq!['\n']
    } else {
        seq![' ', '{', '\n'] + members + end_of_block(level)
    }
}

/// The text of the first `n` fields of an input object, each on a line.
pub open spec fn input_list_text(
    fields: Seq<InputValueModel>,
    style: Style,
    level: u32,
    n: nat,
) -> Seq<char>
    decreases n,
{
    if n == 0 || n > fields.len() {
        Seq::empty()
    } else {
        input_list_text(fields, style, level, (n - 1) as nat) + spaces(level as nat)
            + input_value_text(fields[n - 1], style, level) + seq!['\n']
    }
}

/// The text of a value of an enum type: its description, and its line.
pub open spec fn enum_value_text(v: EnumValueModel, style: Style, level: u32) -> Seq<char> {
    description_text(v.description, style, level) + spaces(level as nat) + v.name
        + directives_text(v.directives, style, level, v.directives.len()) + seq!['\n']
}

/// The text of the first `n` values of an enum type.
pub open spec fn enum_value_list_text(
    values: Seq<EnumValueModel>,
    style: Style,
    level: u32,
    n: nat,
) -> Seq<char>
    decreases n,
{
    if n == 0 || n > values.len() {
        Seq::empty()
    } else {
        enum_value_list_text(values, style, level, (n - 1) as nat) + enum_value_text(
            values[n - 1],
            style,
            level,
        )
    }
}

/// What a definition begins with behind the text `written`: an empty
/// line, unless nothing is written yet, its description, the indent
/// and its keyword, which ends with a space.
pub open spec fn opening_text(
    description: Option<Seq<char>>,
    keyword: Seq<char>,
    style: Style,
    level: u32,
    written: Seq<char>,
) -> Seq<char> {
    margin_of(written) + description_text(description, style, level) + spaces(level as nat)
        + keyword
}

/// The text of a scalar type or of its extension.
pub open spec fn scalar_text(
    t: ScalarModel,
    keyword: Seq<char>,
    style: Style,
    level: u32,
    written: Seq<char>,
) -> Seq<char> {
    opening_text(t.description, keyword, style, level, written) + t.name + directives_text(
        t.directives,
        style,
        level,
        t.directives.len(),
    ) + seq!['\n']
}

/// The text of the interfaces that a type implements; nothing, if
/// there are none.
pub open spec fn implements_text(names: Seq<Seq<char>>) -> Seq<char> {
    if names.len() == 0 {
        Seq::empty()
    } else {
        " implements "@ + names_text(names, seq![' '], names.len())
    }
}

/// The text of an object type, of an interface or of an extension of
/// one of them.
pub open spec fn object_text(
    t: ObjectModel,
    keyword: Seq<char>,
    style: Style,
    level: u32,
    written: Seq<char>,
) -> Seq<char> {
    opening_text(t.description, keyword, style, level, written) + t.name + implements_text(
        t.implements_interfaces,
    ) + directives_text(t.directives, style, level, t.directives.len()) + members_text(
        t.fields.len(),
        field_list_text(t.fields, style, deeper(level, style.width()), t.fields.len()),
        level,
    )
}

/// The text of a union or of its extension.
pub open spec fn union_text(
    t: UnionModel,
    keyword: Seq<char>,
    style: Style,
    level: u32,
    written: Seq<char>,
) -> Seq<char> {
    opening_text(t.description, keyword, style, level, written) + t.name + directives_text(
        t.directives,
        style,
        level,
        t.directives.len(),
    ) + (if t.types.len() == 0 {
        Seq::empty()
    } else {
        seq![' ', '=', ' '] + names_text(t.types, seq![' ', '|', ' '], t.types.len())
    }) + seq!['\n']
}

/// The text of an enum type or of its extension.
pub open spec fn enum_text(
    t: EnumModel,
    keyword: Seq<char>,
    style: Style,
    level: u32,
    written: Seq<char>,
) -> Seq<char> {
    opening_text(t.description, keyword, style, level, written) + t.name + directives_text(
        t.directives,
        style,
        level,
        t.directives.len(),
    ) + members_text(
        t.values.len(),
        enum_value_list_text(t.values, style, deeper(level, style.width()), t.values.len()),
        level,
    )
}

/// The text of an input object type or of its extension.
pub open spec fn input_object_text(
    t: InputObjectModel,
    keyword: Seq<char>,
    style: Style,
    level: u32,
    written: Seq<char>,
) -> Seq<char> {
    opening_text(t.description, keyword, style, level, written) + t.name + directives_text(
        t.directives,
        style,
        level,
        t.directives.len(),
    ) + members_text(
        t.fields.len(),
        input_list_text(t.fields, style, deeper(level, style.width()), t.fields.len()),
        level,
    )
}

/// The names of the first `n` places, with ` | ` between each two.
pub open spec fn locations_text(locations: Seq<DirectiveLocation>, n: nat) -> Seq<char>
    decreases n,
{
    if n == 0 || n > locations.len() {
        Seq::empty()
    } else if n == 1 {
        locations[0].name()
    } else {
        locations_text(locations, (n - 1) as nat) + seq![' ', '|', ' '] + locations[n - 1].name()
    }
}

/// The text of the definition of a directive.
pub open spec fn directive_definition_text(
    d: DirectiveDefinitionModel,
    style: Style,
    level: u32,
    written: Seq<char>,
) -> Seq<char> {
    opening_text(d.description, "directive @"@, style, level, written) + d.name
        + arguments_definition_text(d.arguments, style, level) + (if d.repeatable {
        " repeatable"@
    } else {
        Seq::empty()
    }) + (if d.locations.len() == 0 {
        Seq::empty()
    } else {
        " on "@ + locations_text(d.locations, d.locations.len())
    }) + seq!['\n']
}

/// The line that sets the type of an operation of a schema; nothing,
/// if the operation has none.
pub open spec fn operation_line(
    operation: Seq<char>,
    target: Option<Seq<char>>,
    level: u32,
) -> Seq<char> {
    match target {
        Some(t) => spaces(level as nat) + operation + seq![':', ' '] + t + seq!['\n'],
        None => Seq::empty(),
    }
}

/// The text of the definition of the schema.
pub open spec fn schema_text(
    d: SchemaDefinitionModel,
    style: Style,
    level: u32,
    written: Seq<char>,
) -> Seq<char> {
    margin_of(written) + spaces(level as nat) + "schema"@ + directives_text(
        d.directives,
        style,
        level,
        d.directives.len(),
    ) + seq![' ', '{', '\n'] + operation_line(
        "query"@,
        d.query,
        deeper(level, style.width()),
    ) + operation_line("mutation"@, d.mutation, deeper(level, style.width())) + operation_line(
        "subscription"@,
        d.subscription,
        deeper(level, style.width()),
    ) + end_of_block(level)
}

/// The text of the definition or of the extension of a type; `extend`
/// says which.
pub open spec fn type_text_of(
    t: TypeModelOf,
    extend: bool,
    style: Style,
    level: u32,
    written: Seq<char>,
) -> Seq<char> {
    match t {
        TypeModelOf::Scalar(s) => scalar_text(
            s,
            if extend {
                "extend scalar "@
            } else {
                "scalar "@
            },
            style,
            level,
            written,
        ),
        TypeModelOf::Object(o) => object_text(
            o,
            if extend {
                "extend type "@
            } else {
                "type "@
            },
            style,
            level,
            written,
        ),
        TypeModelOf::Interface(o) => object_text(
            o,
            if extend {
                "extend interface "@
            } else {
                "interface "@
            },
            style,
            level,
            written,
        ),
        TypeModelOf::Union(u) => union_text(
            u,
            if extend {
                "extend union "@
            } else {
                "union "@
            },
            style,
            level,
            written,
        ),
        TypeModelOf::Enum(e) => enum_text(
            e,
            if extend {
                "extend enum "@
            } else {
                "enum "@
            },
            style,
            level,
            written,
        ),
        TypeModelOf::InputObject(o) => input_object_text(
            o,
            if extend {
                "extend input "@
            } else {
                "input "@
            },
            style,
            level,
            written,
        ),
    }
}

/// The text of a definition, written behind the text `written`.
pub open spec fn definition_text(
    d: DefinitionModel,
    style: Style,
    level: u32,
    written: Seq<char>,
) -> Seq<char> {
    match d {
        DefinitionModel::SchemaDefinition(s) => schema_text(s, style, level, written),
        DefinitionModel::TypeDefinition(t) => type_text_of(t, false, style, level, written),
        DefinitionModel::TypeExtension(t) => type_text_of(t, true, style, level, written),
        DefinitionModel::DirectiveDefinition(d) => directive_definition_text(
            d,
            style,
            level,
            written,
        ),
    }
}

/// The text of the first `n` definitions of a document, written behind
/// the text `written`.
pub open spec fn definitions_text(
    definitions: Seq<DefinitionModel>,
    style: Style,
    level: u32,
    written: Seq<char>,
    n: nat,
) -> Seq<char>
    decreases n,
{
    if n == 0 || n > definitions.len() {
        Seq::empty()
    } else {
        let before = definitions_text(definitions, style, level, written, (n - 1) as nat);
        before + definition_text(definitions[n - 1], style, level, written + before)
    }
}

/// The text of a document in the given style.
pub open spec fn document_text(d: DocumentModel, style: Style) -> Seq<char> {
    definitions_text(d.definitions, style, 0, Seq::empty(), d.definitions.len())
}

/// Writes a description on a line of its own, if there is one.
fn description(d: &Option<String>, f: &mut Formatter<'_>)
    ensures
        final(f).wrote(
            old(f),
            description_text(text_view(*d), old(f).style(), old(f).level()),
            old(f).level(),
        ),
{
    match d {
        Some(t) => {
            f.indent();
            f.write_quoted(t.as_str());
            f.endline();
            assert(f.text() =~= old(f).text() + description_text(
                text_view(*d),
                old(f).style(),
                old(f).level(),
            ));
        },
        None => {
            assert(f.text() =~= old(f).text() + Seq::<char>::empty());
        },
    }
}

/// Writes names with `bar` between each two.
fn write_names(names: &Vec<String>, bar: &str, f: &mut Formatter<'_>)
    ensures
        final(f).wrote(old(f), names_text(names_view(names@), bar@, names@.len()), old(f).level()),
{
    let ghost ns = names_view(names@);
    let mut i: usize = 0;
    assert(f.text() =~= old(f).text() + names_text(ns, bar@, 0));
    while i < names.len()
        invariant
            i <= names@.len(),
            ns == names_view(names@),
            f.wrote(old(f), names_text(ns, bar@, i as nat), old(f).level()),
        decreases names@.len() - i,
    {
        let ghost before = f.text();
        if i > 0 {
            f.write(bar);
        }
        f.write(names[i].as_str());
        proof {
            assert(ns[i as int] == names@[i as int]@);
            if i == 0 {
                assert(f.text() =~= old(f).text() + ns[0]);
            } else {
                assert(f.text() =~= before + bar@ + ns[i as int]);
                assert(f.text() =~= old(f).text() + (names_text(ns, bar@, i as nat) + bar@
                    + ns[i as int]));
            }
        }
        i += 1;
    }
}

impl InputValue {
    /// Writes the input value.
    #[verifier::rlimit(40)]
    pub fn display(&self, f: &mut Formatter<'_>)
        ensures
            final(f).wrote(
                old(f),
                input_value_text(self@, old(f).style(), old(f).level()),
                old(f).level(),
            ),
    {
        let ghost style = f.style();
        let ghost level = f.level();
        proof {
            reveal_strlit(": ");
            assert(": "@ =~= seq![':', ' ']);
            reveal_strlit(" = ");
            assert(" = "@ =~= seq![' ', '=', ' ']);
        }
        match &self.description {
            Some(t) => {
                f.write_quoted(t.as_str());
                f.write_char(' ');
            },
            None => {},
        }
        f.write(self.name.as_str());
        f.write(": ");
        self.value_type.display(f);
        let ghost head = f.text();
        assert(head =~= old(f).text() + (inline_description_text(self@.description, style, level)
            + self@.name + seq![':', ' '] + type_text(self@.value_type)));
        match &self.default_value {
            Some(v) => {
                f.write(" = ");
                v.display(f);
            },
            None => {},
        }
        let ghost middle = f.text();
        assert(middle =~= head + (match self@.default_value {
            Some(d) => seq![' ', '=', ' '] + value_text(d, style, level),
            None => Seq::<char>::empty(),
        }));
        format_directives(&self.directives, f);
        assert(f.text() =~= old(f).text() + input_value_text(self@, style, level));
    }
}

/// Writes the arguments of a definition between their parentheses.
#[verifier::rlimit(40)]
fn display_arguments_definition(args: &Vec<InputValue>, f: &mut Formatter<'_>)
    ensures
        final(f).wrote(
            old(f),
            arguments_definition_text(inputs_view(args@), old(f).style(), old(f).level()),
            old(f).level(),
        ),
{
    let ghost style = f.style();
    let ghost level = f.level();
    let ghost vs = inputs_view(args@);
    if args.len() == 0 {
        assert(f.text() =~= old(f).text() + Seq::<char>::empty());
        return ;
    }
    f.write_char('(');
    let ghost opened = f.text();
    let mut i: usize = 0;
    assert(f.text() =~= opened + argument_list_text(vs, style, level, 0));
    while i < args.len()
        invariant
            i <= args@.len(),
            vs == inputs_view(args@),
            style == old(f).style(),
            level == old(f).level(),
            opened == old(f).text() + seq!['('],
            f.text() == opened + argument_list_text(vs, style, level, i as nat),
            f.level() == level,
            f.style() == style,
            f.outer() == old(f).outer(),
        decreases args@.len() - i,
    {
        let ghost before = f.text();
        if i > 0 {
            f.write(", ");
            proof {
                reveal_strlit(", ");
                assert(", "@ =~= seq![',', ' ']);
            }
        }
        args[i].display(f);
        proof {
            assert(vs[i as int] == args@[i as int]@);
            assert(f.text() =~= before + ((if i > 0 {
                seq![',', ' ']
            } else {
                Seq::<char>::empty()
            }) + input_value_text(vs[i as int], style, level)));
            assert(f.text() =~= opened + argument_list_text(vs, style, level, (i + 1) as nat));
        }
        i += 1;
    }
    f.write_char(')');
    assert(f.text() =~= old(f).text() + arguments_definition_text(vs, style, level));
}

impl Field {
    /// Writes the field: its description, and its line.
    #[verifier::rlimit(40)]
    pub fn display(&self, f: &mut Formatter<'_>)
        ensures
            final(f).wrote(
                old(f),
                field_text(self@, old(f).style(), old(f).level()),
                old(f).level(),
            ),
    {
        let ghost style = f.style();
        let ghost level = f.level();
        proof {
            reveal_strlit(": ");
            assert(": "@ =~= seq![':', ' ']);
        }
        description(&self.description, f);
        f.indent();
        f.write(self.name.as_str());
        display_arguments_definition(&self.arguments, f);
        let ghost head = f.text();
        assert(head =~= old(f).text() + (description_text(self@.description, style, level)
            + spaces(level as nat) + self@.name + arguments_definition_text(
            self@.arguments,
            style,
            level,
        )));
        f.write(": ");
        self.field_type.display(f);
        format_directives(&self.directives, f);
        f.endline();
        assert(f.text() =~= head + (seq![':', ' '] + type_text(self@.field_type) + directives_text(
            self@.directives,
            style,
            level,
            self@.directives.len(),
        ) + seq!['\n']));
        assert(f.text() =~= old(f).text() + field_text(self@, style, level));
    }
}

impl EnumValue {
    /// Writes the value: its description, and its line.
    pub fn display(&self, f: &mut Formatter<'_>)
        ensures
            final(f).wrote(
                old(f),
                enum_value_text(self@, old(f).style(), old(f).level()),
                old(f).level(),
            ),
    {
        description(&self.description, f);
        f.indent();
        f.write(self.name.as_str());
        format_directives(&self.directives, f);
        f.endline();
        assert(f.text() =~= old(f).text() + enum_value_text(self@, old(f).style(), old(f).level()));
    }
}

/// Writes the fields of a type as a block, or ends the line if there
/// are none.
#[verifier::rlimit(40)]
fn format_fields(fields: &Vec<Field>, f: &mut Formatter<'_>)
    ensures
        final(f).wrote(
            old(f),
            members_text(
                fields@.len(),
                field_list_text(
                    fields_view(fields@),
                    old(f).style(),
                    deeper(old(f).level(), old(f).style().width()),
                    fields@.len(),
                ),
                old(f).level(),
            ),
            old(f).level(),
        ),
{
    let ghost style = f.style();
    let ghost level = f.level();
    let ghost vs = fields_view(fields@);
    if fields.len() == 0 {
        f.endline();
        return ;
    }
    f.write_char(' ');
    f.start_block();
    let ghost lvl = f.level();
    let ghost opened = f.text();
    assert(opened =~= old(f).text() + seq![' ', '{', '\n']);
    let mut i: usize = 0;
    assert(f.text() =~= opened + field_list_text(vs, style, lvl, 0));
    while i < fields.len()
        invariant
            i <= fields@.len(),
            vs == fields_view(fields@),
            style == old(f).style(),
            lvl == deeper(old(f).level(), old(f).style().width()),
            f.text() == opened + field_list_text(vs, style, lvl, i as nat),
            f.level() == lvl,
            f.style() == style,
            f.outer() == old(f).outer().push(level),
        decreases fields@.len() - i,
    {
        fields[i].display(f);
        proof {
            assert(vs[i as int] == fields@[i as int]@);
            assert(f.text() =~= opened + field_list_text(vs, style, lvl, (i + 1) as nat));
        }
        i += 1;
    }
    f.end_block();
    proof {
        assert(f.outer() =~= old(f).outer());
        assert(f.text() =~= old(f).text() + members_text(
            fields@.len(),
            field_list_text(vs, style, lvl, fields@.len()),
            level,
        ));
    }
}

/// Writes the fields of an input object as a block, or ends the line
/// if there are none.
#[verifier::rlimit(40)]
fn format_inputs(fields: &Vec<InputValue>, f: &mut Formatter<'_>)
    ensures
        final(f).wrote(
            old(f),
            members_text(
                fields@.len(),
                input_list_text(
                    inputs_view(fields@),
                    old(f).style(),
                    deeper(old(f).level(), old(f).style().width()),
                    fields@.len(),
                ),
                old(f).level(),
            ),
            old(f).level(),
        ),
{
    let ghost style = f.style();
    let ghost level = f.level();
    let ghost vs = inputs_view(fields@);
    if fields.len() == 0 {
        f.endline();
        return ;
    }
    f.write_char(' ');
    f.start_block();
    let ghost lvl = f.level();
    let ghost opened = f.text();
    assert(opened =~= old(f).text() + seq![' ', '{', '\n']);
    let mut i: usize = 0;
    assert(f.text() =~= opened + input_list_text(vs, style, lvl, 0));
    while i < fields.len()
        invariant
            i <= fields@.len(),
            vs == inputs_view(fields@),
            style == old(f).style(),
            lvl == deeper(old(f).level(), old(f).style().width()),
            f.text() == opened + input_list_text(vs, style, lvl, i as nat),
            f.level() == lvl,
            f.style() == style,
            f.outer() == old(f).outer().push(level),
        decreases fields@.len() - i,
    {
        let ghost before = f.text();
        f.indent();
        fields[i].display(f);
        f.endline();
        proof {
            assert(vs[i as int] == fields@[i as int]@);
            assert(f.text() =~= before + (spaces(lvl as nat) + input_value_text(
                vs[i as int],
                style,
                lvl,
            ) + seq!['\n']));
            assert(f.text() =~= opened + input_list_text(vs, style, lvl, (i + 1) as nat));
        }
        i += 1;
    }
    f.end_block();
    proof {
        assert(f.outer() =~= old(f).outer());
        assert(f.text() =~= old(f).text() + members_text(
            fields@.len(),
            input_list_text(vs, style, lvl, fields@.len()),
            level,
        ));
    }
}

/// Writes the values of an enum type as a block, or ends the line if
/// there are none.
#[verifier::rlimit(40)]
fn format_enum_values(values: &Vec<EnumValue>, f: &mut Formatter<'_>)
    ensures
        final(f).wrote(
            old(f),
            members_text(
                values@.len(),
                enum_value_list_text(
                    enum_values_view(values@),
                    old(f).style(),
                    deeper(old(f).level(), old(f).style().width()),
                    values@.len(),
                ),
                old(f).level(),
            ),
            old(f).level(),
        ),
{
    let ghost style = f.style();
    let ghost level = f.level();
    let ghost vs = enum_values_view(values@);
    if values.len() == 0 {
        f.endline();
        return ;
    }
    f.write_char(' ');
    f.start_block();
    let ghost lvl = f.level();
    let ghost opened = f.text();
    assert(opened =~= old(f).text() + seq![' ', '{', '\n']);
    let mut i: usize = 0;
    assert(f.text() =~= opened + enum_value_list_text(vs, style, lvl, 0));
    while i < values.len()
        invariant
            i <= values@.len(),
            vs == enum_values_view(values@),
            style == old(f).style(),
            lvl == deeper(old(f).level(), old(f).style().width()),
            f.text() == opened + enum_value_list_text(vs, style, lvl, i as nat),
            f.level() == lvl,
            f.style() == style,
            f.outer() == old(f).outer().push(level),
        decreases values@.len() - i,
    {
        values[i].display(f);
        proof {
            assert(vs[i as int] == values@[i as int]@);
            assert(f.text() =~= opened + enum_value_list_text(vs, style, lvl, (i + 1) as nat));
        }
        i += 1;
    }
    f.end_block();
    proof {
        assert(f.outer() =~= old(f).outer());
        assert(f.text() =~= old(f).text() + members_text(
            values@.len(),
            enum_value_list_text(vs, style, lvl, values@.len()),
            level,
        ));
    }
}

/// Writes what a definition begins with.
fn opening(d: &Option<String>, keyword: &str, f: &mut Formatter<'_>)
    ensures
        final(f).wrote(
            old(f),
            opening_text(text_view(*d), keyword@, old(f).style(), old(f).level(), old(f).text()),
            old(f).level(),
        ),
{
    f.margin();
    description(d, f);
    f.indent();
    f.write(keyword);
    assert(f.text() =~= old(f).text() + opening_text(
        text_view(*d),
        keyword@,
        old(f).style(),
        old(f).level(),
        old(f).text(),
    ));
}

/// Writes a scalar type or its extension.
#[verifier::rlimit(40)]
fn display_scalar(
    position: crate::position::Pos,
    d: &Option<String>,
    name: &String,
    directives: &Vec<Directive>,
    keyword: &str,
    f: &mut Formatter<'_>,
)
    ensures
        final(f).wrote(
            old(f),
            scalar_text(
                ScalarModel {
                    position,
                    description: text_view(*d),
                    name: name@,
                    directives: directives_view(directives@),
                },
                keyword@,
                old(f).style(),
                old(f).level(),
                old(f).text(),
            ),
            old(f).level(),
        ),
{
    opening(d, keyword, f);
    f.write(name.as_str());
    format_directives(directives, f);
    f.endline();
    assert(f.text() =~= old(f).text() + scalar_text(
        ScalarModel {
            position,
            description: text_view(*d),
            name: name@,
            directives: directives_view(directives@),
        },
        keyword@,
        old(f).style(),
        old(f).level(),
        old(f).text(),
    ));
}

/// Writes an object type, an interface or an extension of one of them.
#[verifier::rlimit(40)]
fn display_object(
    position: crate::position::Pos,
    d: &Option<String>,
    name: &String,
    implements: &Vec<String>,
    directives: &Vec<Directive>,
    fields: &Vec<Field>,
    keyword: &str,
    f: &mut Formatter<'_>,
)
    ensures
        final(f).wrote(
            old(f),
            object_text(
                ObjectModel {
                    position,
                    description: text_view(*d),
                    name: name@,
                    implements_interfaces: names_view(implements@),
                    directives: directives_view(directives@),
                    fields: fields_view(fields@),
                },
                keyword@,
                old(f).style(),
                old(f).level(),
                old(f).text(),
            ),
            old(f).level(),
        ),
{
    let ghost style = f.style();
    let ghost level = f.level();
    opening(d, keyword, f);
    f.write(name.as_str());
    display_implements(implements, f);
    let ghost head = f.text();
    assert(head =~= old(f).text() + (opening_text(
        text_view(*d),
        keyword@,
        style,
        level,
        old(f).text(),
    ) + name@ + implements_text(names_view(implements@))));
    format_directives(directives, f);
    format_fields(fields, f);
    assert(f.text() =~= head + (directives_text(
        directives_view(directives@),
        style,
        level,
        directives@.len(),
    ) + members_text(
        fields@.len(),
        field_list_text(fields_view(fields@), style, deeper(level, style.width()), fields@.len()),
        level,
    )));
    assert(f.text() =~= old(f).text() + object_text(
        ObjectModel {
            position,
            description: text_view(*d),
            name: name@,
            implements_interfaces: names_view(implements@),
            directives: directives_view(directives@),
            fields: fields_view(fields@),
        },
        keyword@,
        style,
        level,
        old(f).text(),
    ));
}

/// Writes the interfaces that a type implements.
fn display_implements(implements: &Vec<String>, f: &mut Formatter<'_>)
    ensures
        final(f).wrote(old(f), implements_text(names_view(implements@)), old(f).level()),
{
    if implements.len() > 0 {
        f.write(" implements ");
        write_names(implements, " ", f);
        proof {
            reveal_strlit(" ");
            assert(" "@ =~= seq![' ']);
            assert(f.text() =~= old(f).text() + implements_text(names_view(implements@)));
        }
    } else {
        assert(f.text() =~= old(f).text() + Seq::<char>::empty());
    }
}

/// Writes a union or its extension.
#[verifier::rlimit(40)]
fn display_union(
    position: crate::position::Pos,
    d: &Option<String>,
    name: &String,
    directives: &Vec<Directive>,
    types: &Vec<String>,
    keyword: &str,
    f: &mut Formatter<'_>,
)
    ensures
        final(f).wrote(
            old(f),
            union_text(
                UnionModel {
                    position,
                    description: text_view(*d),
                    name: name@,
                    directives: directives_view(directives@),
                    types: names_view(types@),
                },
                keyword@,
                old(f).style(),
                old(f).level(),
                old(f).text(),
            ),
            old(f).level(),
        ),
{
    let ghost style = f.style();
    let ghost level = f.level();
    opening(d, keyword, f);
    f.write(name.as_str());
    format_directives(directives, f);
    let ghost head = f.text();
    if types.len() > 0 {
        f.write(" = ");
        write_names(types, " | ", f);
        proof {
            reveal_strlit(" = ");
            assert(" = "@ =~= seq![' ', '=', ' ']);
            reveal_strlit(" | ");
            assert(" | "@ =~= seq![' ', '|', ' ']);
        }
    }
    f.endline();
    assert(f.text() =~= head + ((if types@.len() == 0 {
        Seq::<char>::empty()
    } else {
        seq![' ', '=', ' '] + names_text(names_view(types@), seq![' ', '|', ' '], types@.len())
    }) + seq!['\n']));
    assert(f.text() =~= old(f).text() + union_text(
        UnionModel {
            position,
            description: text_view(*d),
            name: name@,
            directives: directives_view(directives@),
            types: names_view(types@),
        },
        keyword@,
        style,
        level,
        old(f).text(),
    ));
}

/// Writes an enum type or its extension.
#[verifier::rlimit(40)]
fn display_enum(
    position: crate::position::Pos,
    d: &Option<String>,
    name: &String,
    directives: &Vec<Directive>,
    values: &Vec<EnumValue>,
    keyword: &str,
    f: &mut Formatter<'_>,
)
    ensures
        final(f).wrote(
            old(f),
            enum_text(
                EnumModel {
                    position,
                    description: text_view(*d),
                    name: name@,
                    directives: directives_view(directives@),
                    values: enum_values_view(values@),
                },
                keyword@,
                old(f).style(),
                old(f).level(),
                old(f).text(),
            ),
            old(f).level(),
        ),
{
    opening(d, keyword, f);
    f.write(name.as_str());
    format_directives(directives, f);
    format_enum_values(values, f);
    assert(f.text() =~= old(f).text() + enum_text(
        EnumModel {
            position,
            description: text_view(*d),
            name: name@,
            directives: directives_view(directives@),
            values: enum_values_view(values@),
        },
        keyword@,
        old(f).style(),
        old(f).level(),
        old(f).text(),
    ));
}

/// Writes an input object type or its extension.
#[verifier::rlimit(40)]
fn display_input_object(
    position: crate::position::Pos,
    d: &Option<String>,
    name: &String,
    directives: &Vec<Directive>,
    fields: &Vec<InputValue>,
    keyword: &str,
    f: &mut Formatter<'_>,
)
    ensures
        final(f).wrote(
            old(f),
            input_object_text(
                InputObjectModel {
                    position,
                    description: text_view(*d),
                    name: name@,
                    directives: directives_view(directives@),
                    fields: inputs_view(fields@),
                },
                keyword@,
                old(f).style(),
                old(f).level(),
                old(f).text(),
            ),
            old(f).level(),
        ),
{
    opening(d, keyword, f);
    f.write(name.as_str());
    format_directives(directives, f);
    format_inputs(fields, f);
    assert(f.text() =~= old(f).text() + input_object_text(
        InputObjectModel {
            position,
            description: text_view(*d),
            name: name@,
            directives: directives_view(directives@),
            fields: inputs_view(fields@),
        },
        keyword@,
        old(f).style(),
        old(f).level(),
        old(f).text(),
    ));
}

/// Writes the names of places with ` | ` between each two.
fn write_locations(locations: &Vec<DirectiveLocation>, f: &mut Formatter<'_>)
    ensures
        final(f).wrote(old(f), locations_text(locations@, locations@.len()), old(f).level()),
{
    let mut i: usize = 0;
    assert(f.text() =~= old(f).text() + locations_text(locations@, 0));
    while i < locations.len()
        invariant
            i <= locations@.len(),
            f.wrote(old(f), locations_text(locations@, i as nat), old(f).level()),
        decreases locations@.len() - i,
    {
        let ghost before = f.text();
        if i > 0 {
            f.write(" | ");
            proof {
                reveal_strlit(" | ");
                assert(" | "@ =~= seq![' ', '|', ' ']);
            }
        }
        f.write(locations[i].as_str());
        proof {
            if i == 0 {
                assert(f.text() =~= old(f).text() + locations@[0].name());
            } else {
                assert(f.text() =~= old(f).text() + (locations_text(locations@, i as nat) + seq![
                    ' ',
                    '|',
                    ' ',
                ] + locations@[i as int].name()));
            }
        }
        i += 1;
    }
}

impl DirectiveDefinition {
    /// Writes the definition of the directive.
    #[verifier::rlimit(40)]
    pub fn display(&self, f: &mut Formatter<'_>)
        ensures
            final(f).wrote(
                old(f),
                directive_definition_text(self@, old(f).style(), old(f).level(), old(f).text()),
                old(f).level(),
            ),
    {
        let ghost style = f.style();
        let ghost level = f.level();
        opening(&self.description, "directive @", f);
        f.write(self.name.as_str());
        display_arguments_definition(&self.arguments, f);
        let ghost head = f.text();
        assert(head =~= old(f).text() + (opening_text(
            self@.description,
            "directive @"@,
            style,
            level,
            old(f).text(),
        ) + self@.name + arguments_definition_text(self@.arguments, style, level)));
        if self.repeatable {
            f.write(" repeatable");
        }
        let ghost middle = f.text();
        assert(middle =~= head + (if self.repeatable {
            " repeatable"@
        } else {
            Seq::<char>::empty()
        }));
        if self.locations.len() > 0 {
            f.write(" on ");
            write_locations(&self.locations, f);
        }
        f.endline();
        assert(f.text() =~= middle + ((if self@.locations.len() == 0 {
            Seq::<char>::empty()
        } else {
            " on "@ + locations_text(self@.locations, self@.locations.len())
        }) + seq!['\n']));
        assert(f.text() =~= old(f).text() + directive_definition_text(
            self@,
            style,
            level,
            old(f).text(),
        ));
    }
}

/// Writes the line that sets the type of an operation of a schema.
fn display_operation_line(operation: &str, target: &Option<String>, f: &mut Formatter<'_>)
    ensures
        final(f).wrote(
            old(f),
            operation_line(operation@, text_view(*target), old(f).level()),
            old(f).level(),
        ),
{
    match target {
        Some(t) => {
            f.indent();
            f.write(operation);
            f.write(": ");
            f.write(t.as_str());
            f.endline();
            proof {
                reveal_strlit(": ");
                assert(": "@ =~= seq![':', ' ']);
                assert(f.text() =~= old(f).text() + operation_line(
                    operation@,
                    text_view(*target),
                    old(f).level(),
                ));
            }
        },
        None => {
            assert(f.text() =~= old(f).text() + Seq::<char>::empty());
        },
    }
}

/// Writes the lines that set the types of the operations of a schema.
fn display_operation_lines(
    query: &Option<String>,
    mutation: &Option<String>,
    subscription: &Option<String>,
    f: &mut Formatter<'_>,
)
    ensures
        final(f).wrote(
            old(f),
            operation_line("query"@, text_view(*query), old(f).level()) + operation_line(
                "mutation"@,
                text_view(*mutation),
                old(f).level(),
            ) + operation_line("subscription"@, text_view(*subscription), old(f).level()),
            old(f).level(),
        ),
{
    display_operation_line("query", query, f);
    display_operation_line("mutation", mutation, f);
    display_operation_line("subscription", subscription, f);
    assert(f.text() =~= old(f).text() + (operation_line(
        "query"@,
        text_view(*query),
        old(f).level(),
    ) + operation_line("mutation"@, text_view(*mutation), old(f).level()) + operation_line(
        "subscription"@,
        text_view(*subscription),
        old(f).level(),
    )));
}

/// Writes what the definition of a schema begins with, up to the brace
/// that opens its block.
fn display_schema_head(directives: &Vec<Directive>, f: &mut Formatter<'_>)
    ensures
        final(f).went_down(
            old(f),
            margin_of(old(f).text()) + spaces(old(f).level() as nat) + "schema"@ + directives_text(
                directives_view(directives@),
                old(f).style(),
                old(f).level(),
                directives@.len(),
            ) + seq![' ', '{', '\n'],
        ),
{
    f.margin();
    f.indent();
    f.write("schema");
    format_directives(directives, f);
    f.write_char(' ');
    f.start_block();
    assert(f.text() =~= old(f).text() + (margin_of(old(f).text()) + spaces(old(f).level() as nat)
        + "schema"@ + directives_text(
        directives_view(directives@),
        old(f).style(),
        old(f).level(),
        directives@.len(),
    ) + seq![' ', '{', '\n']));
}

impl SchemaDefinition {
    /// Writes the definition of the schema.
    #[verifier::rlimit(40)]
    pub fn display(&self, f: &mut Formatter<'_>)
        ensures
            final(f).wrote(
                old(f),
                schema_text(self@, old(f).style(), old(f).level(), old(f).text()),
                old(f).level(),
            ),
    {
        let ghost style = f.style();
        let ghost level = f.level();
        display_schema_head(&self.directives, f);
        let ghost head = f.text();
        display_operation_lines(&self.query, &self.mutation, &self.subscription, f);
        let ghost middle = f.text();
        f.end_block();
        proof {
            assert(f.outer() =~= old(f).outer());
            assert(f.text() =~= middle + end_of_block(level));
            assert(f.text() =~= old(f).text() + schema_text(self@, style, level, old(f).text()));
        }
    }
}

impl TypeDefinition {
    /// Writes the definition of the type.
    pub fn display(&self, f: &mut Formatter<'_>)
        ensures
            final(f).wrote(
                old(f),
                type_text_of(self@, false, old(f).style(), old(f).level(), old(f).text()),
                old(f).level(),
            ),
    {
        match self {
            TypeDefinition::Scalar(t) => display_scalar(
                t.position,
                &t.description,
                &t.name,
                &t.directives,
                "scalar ",
                f,
            ),
            TypeDefinition::Object(t) => display_object(
                t.position,
                &t.description,
                &t.name,
                &t.implements_interfaces,
                &t.directives,
                &t.fields,
                "type ",
                f,
            ),
            TypeDefinition::Interface(t) => display_object(
                t.position,
                &t.description,
                &t.name,
                &t.implements_interfaces,
                &t.directives,
                &t.fields,
                "interface ",
                f,
            ),
            TypeDefinition::Union(t) => display_union(
                t.position,
                &t.description,
                &t.name,
                &t.directives,
                &t.types,
                "union ",
                f,
            ),
            TypeDefinition::Enum(t) => display_enum(
                t.position,
                &t.description,
                &t.name,
                &t.directives,
                &t.values,
                "enum ",
                f,
            ),
            TypeDefinition::InputObject(t) => display_input_object(
                t.position,
                &t.description,
                &t.name,
                &t.directives,
                &t.fields,
                "input ",
                f,
            ),
        }
    }
}

impl TypeExtension {
    /// Writes the extension of the type.
    pub fn display(&self, f: &mut Formatter<'_>)
        ensures
            final(f).wrote(
                old(f),
                type_text_of(self@, true, old(f).style(), old(f).level(), old(f).text()),
                old(f).level(),
            ),
    {
        let none: Option<String> = None;
        match self {
            TypeExtension::Scalar(t) => display_scalar(
                t.position,
                &none,
                &t.name,
                &t.directives,
                "extend scalar ",
                f,
            ),
            TypeExtension::Object(t) => display_object(
                t.position,
                &none,
                &t.name,
                &t.implements_interfaces,
                &t.directives,
                &t.fields,
                "extend type ",
                f,
            ),
            TypeExtension::Interface(t) => display_object(
                t.position,
                &none,
                &t.name,
                &t.implements_interfaces,
                &t.directives,
                &t.fields,
                "extend interface ",
                f,
            ),
            TypeExtension::Union(t) => display_union(
                t.position,
                &none,
                &t.name,
                &t.directives,
                &t.types,
                "extend union ",
                f,
            ),
            TypeExtension::Enum(t) => display_enum(
                t.position,
                &none,
                &t.name,
                &t.directives,
                &t.values,
                "extend enum ",
                f,
            ),
            TypeExtension::InputObject(t) => display_input_object(
                t.position,
                &none,
                &t.name,
                &t.directives,
                &t.fields,
                "extend input ",
                f,
            ),
        }
    }
}

impl Definition {
    /// Writes the definition: after an empty line, unless nothing is
    /// written yet.
    pub fn display(&self, f: &mut Formatter<'_>)
        ensures
            final(f).wrote(
                old(f),
                definition_text(self@, old(f).style(), old(f).level(), old(f).text()),
                old(f).level(),
            ),
    {
        match self {
            Definition::SchemaDefinition(d) => d.display(f),
            Definition::TypeDefinition(d) => d.display(f),
            Definition::TypeExtension(d) => d.display(f),
            Definition::DirectiveDefinition(d) => d.display(f),
        }
    }
}

impl Document {
    /// Writes the document.
    pub fn display(&self, f: &mut Formatter<'_>)
        ensures
            final(f).wrote(
                old(f),
                definitions_text(
                    self@.definitions,
                    old(f).style(),
                    old(f).level(),
                    old(f).text(),
                    self@.definitions.len(),
                ),
                old(f).level(),
            ),
    {
        let ghost style = f.style();
        let ghost level = f.level();
        let ghost written = f.text();
        let ghost ds = definitions_view(self.definitions@);
        let mut i: usize = 0;
        assert(f.text() =~= written + definitions_text(ds, style, level, written, 0));
        while i < self.definitions.len()
            invariant
                i <= self.definitions@.len(),
                ds == definitions_view(self.definitions@),
                style == old(f).style(),
                level == old(f).level(),
                written == old(f).text(),
                f.wrote(old(f), definitions_text(ds, style, level, written, i as nat), level),
            decreases self.definitions@.len() - i,
        {
            self.definitions[i].display(f);
            proof {
                assert(ds[i as int] == self.definitions@[i as int]@);
                assert(f.text() =~= written + definitions_text(
                    ds,
                    style,
                    level,
                    written,
                    (i + 1) as nat,
                ));
            }
            i += 1;
        }
    }

    /// The text of the document in the given style.
    pub fn format(&self, style: &Style) -> (s: String)
        ensures
            s@ == document_text(self@, *style),
    {
        let mut f = Formatter::new(style);
        self.display(&mut f);
        assert(f.text() =~= document_text(self@, *style));
        f.into_string()
    }

    /// The text of the document in the default style.
    pub fn to_string(&self) -> (s: String)
        ensures
            s@ == document_text(self@, Style::standard()),
    {
        let style = Style::default();
        self.format(&style)
    }
}

} // verus!
