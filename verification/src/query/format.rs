//! The printer of the query language: from a syntax tree to its text.
//!
//! The spec functions of this file say what the text of each node is, in
//! a given style and at a given indent. The functions that print are
//! proved to write just that.

use vstd::prelude::*;
use vstd::string::*;
use crate::format::{
    Formatter, Style, deeper, string_literal, end_of_arguments,
    start_of_argument, argument_break, end_of_block, margin_of,
};
use crate::text::{spaces, signed_decimal, push_signed_decimal};
use crate::common::{
    Directive, Type, Value, DirectiveModel, TypeModel, ValueModel, pairs_view, directives_view,
    values_view,
};
use crate::query::ast::{
    Definition, Document, Field, FragmentDefinition, FragmentSpread, InlineFragment, Mutation,
    OperationDefinition, Query, Selection, SelectionSet, Subscription, TypeCondition,
    VariableDefinition, DefinitionModel, DocumentModel, FieldModel, FragmentDefinitionModel,
    FragmentSpreadModel, InlineFragmentModel, OperationDefinitionModel, OperationModel,
    SelectionModel, SelectionSetModel, VariableDefinitionModel, selections_view, variables_view,
    definitions_view, text_view, selection_model, selection_set_model,
};

verus! {

/// The indent of the arguments of a list that stands at indent `level`.
pub open spec fn inner(style: Style, level: u32) -> u32 {
    if style.multiline() {
        deeper(level, style.width())
    } else {
        level
    }
}

/// What closes a list of arguments that stands at indent `level`.
pub open spec fn close_arguments(style: Style, level: u32, close_char: char) -> Seq<char> {
    if style.multiline() {
        seq!['\n'] + spaces(level as nat) + seq![close_char]
    } else {
        seq![close_char]
    }
}

/// What stands before the `k`-th argument of a list whose arguments are
/// at indent `level`.
pub open spec fn before_argument(style: Style, level: u32, k: int) -> Seq<char> {
    if k > 0 {
        argument_break(style) + start_of_argument(style, level)
    } else {
        start_of_argument(style, level)
    }
}

/// The text of a value at indent `level`.
pub open spec fn value_text(v: ValueModel, style: Style, level: u32) -> Seq<char>
    decreases v, 0nat,
{
    match v {
        ValueModel::Variable(name) => seq!['$'] + name,
        ValueModel::Int(i) => signed_decimal(i),
        ValueModel::Float(t) => t,
        ValueModel::String(s) => string_literal(s, level, style.width()),
        ValueModel::Boolean(b) => if b {
            "true"@
        } else {
            "false"@
        },
        ValueModel::Null => "null"@,
        ValueModel::Enum(name) => name,
        ValueModel::List(items) => seq!['['] + items_text(
            items,
            style,
            inner(style, level),
            items.len(),
        ) + close_arguments(style, level, ']'),
        ValueModel::Object(fields) => seq!['{'] + fields_text(
            fields,
            style,
            inner(style, level),
            fields.len(),
        ) + close_arguments(style, level, '}'),
    }
}

/// The text of the first `n` items of a list, at indent `level`.
pub open spec fn items_text(items: Seq<ValueModel>, style: Style, level: u32, n: nat) -> Seq<char>
    decreases items, n,
{
    if n == 0 || n > items.len() {
        Seq::empty()
    } else {
        items_text(items, style, level, (n - 1) as nat) + before_argument(style, level, n - 1)
            + value_text(items[n - 1], style, level)
    }
}

/// The text of the first `n` of a list of names with a value each, at
/// indent `level`.
pub open spec fn fields_text(
    fields: Seq<(Seq<char>, ValueModel)>,
    style: Style,
    level: u32,
    n: nat,
) -> Seq<char>
    decreases fields, n,
{
    if n == 0 || n > fields.len() {
        Seq::empty()
    } else {
        fields_text(fields, style, level, (n - 1) as nat) + before_argument(style, level, n - 1)
            + fields[n - 1].0 + seq![':', ' '] + value_text(fields[n - 1].1, style, level)
    }
}

/// The text of the arguments of a field or of a directive that stands
/// at indent `level`; nothing, if there are none.
pub open spec fn arguments_text(
    arguments: Seq<(Seq<char>, ValueModel)>,
    style: Style,
    level: u32,
) -> Seq<char> {
    if arguments.len() == 0 {
        Seq::empty()
    } else {
        seq!['('] + fields_text(arguments, style, inner(style, level), arguments.len())
            + close_arguments(style, level, ')')
    }
}

/// The text of a directive.
pub open spec fn directive_text(d: DirectiveModel, style: Style, level: u32) -> Seq<char> {
    seq!['@'] + d.name + arguments_text(d.arguments, style, level)
}

/// The text of the first `n` directives, each after a space.
pub open spec fn directives_text(
    directives: Seq<DirectiveModel>,
    style: Style,
    level: u32,
    n: nat,
) -> Seq<char>
    decreases n,
{
    if n == 0 || n > directives.len() {
        Seq::empty()
    } else {
        directives_text(directives, style, level, (n - 1) as nat) + seq![' '] + directive_text(
            directives[n - 1],
            style,
            level,
        )
    }
}

/// The text of a type.
pub open spec fn type_text(t: TypeModel) -> Seq<char>
    decreases t,
{
    match t {
        TypeModel::NamedType(name) => name,
        TypeModel::ListType(inner) => seq!['['] + type_text(*inner) + seq![']'],
        TypeModel::NonNullType(inner) => type_text(*inner) + seq!['!'],
    }
}

/// The text of the definition of a variable.
pub open spec fn variable_text(v: VariableDefinitionModel, style: Style, level: u32) -> Seq<char> {
    seq!['$'] + v.name + seq![':', ' '] + type_text(v.var_type) + match v.default_value {
        Some(d) => seq![' ', '=', ' '] + value_text(d, style, level),
        None => Seq::empty(),
    }
}

/// The text of the first `n` definitions of variables. Those of a query
/// are parted by a comma and a space, those of a mutation or a
/// subscription by nothing.
pub open spec fn variables_text(
    vars: Seq<VariableDefinitionModel>,
    style: Style,
    level: u32,
    parted: bool,
    n: nat,
) -> Seq<char>
    decreases n,
{
    if n == 0 || n > vars.len() {
        Seq::empty()
    } else {
        variables_text(vars, style, level, parted, (n - 1) as nat) + (if parted && n > 1 {
            seq![',', ' ']
        } else {
            Seq::empty()
        }) + variable_text(vars[n - 1], style, level)
    }
}

/// The text of the definitions of variables between their parentheses;
/// nothing, if there are none.
pub open spec fn variable_definitions_text(
    vars: Seq<VariableDefinitionModel>,
    style: Style,
    level: u32,
    parted: bool,
) -> Seq<char> {
    if vars.len() == 0 {
        Seq::empty()
    } else {
        seq!['('] + variables_text(vars, style, level, parted, vars.len()) + seq![')']
    }
}

/// The text of a block of selections whose closing brace stands at
/// indent `level`: from the brace that opens it to the end of the line
/// of the brace that closes it.
pub open spec fn block_text(items: Seq<SelectionModel>, style: Style, level: u32) -> Seq<char>
    decreases items, items.len() + 1,
{
    seq!['{', '\n'] + selections_text(items, style, deeper(level, style.width()), items.len())
        + end_of_block(level)
}

/// The text of the first `n` selections, at indent `level`.
pub open spec fn selections_text(
    items: Seq<SelectionModel>,
    style: Style,
    level: u32,
    n: nat,
) -> Seq<char>
    decreases items, n,
{
    if n == 0 || n > items.len() {
        Seq::empty()
    } else {
        selections_text(items, style, level, (n - 1) as nat) + selection_text(
            items[n - 1],
            style,
            level,
        )
    }
}

/// The text of a selection at indent `level`: one line or more.
pub open spec fn selection_text(s: SelectionModel, style: Style, level: u32) -> Seq<char>
    decreases s, 0nat,
{
    match s {
        SelectionModel::Field(f) => spaces(level as nat) + (match f.alias {
            Some(alias) => alias + seq![':', ' '],
            None => Seq::empty(),
        }) + f.name + arguments_text(f.arguments, style, level) + directives_text(
            f.directives,
            style,
            level,
            f.directives.len(),
        ) + (if f.selection_set.items.len() > 0 {
            seq![' '] + block_text(f.selection_set.items, style, level)
        } else {
            seq!['\n']
        }),
        SelectionModel::FragmentSpread(f) => spaces(level as nat) + seq!['.', '.', '.']
            + f.fragment_name + directives_text(f.directives, style, level, f.directives.len())
            + seq!['\n'],
        SelectionModel::InlineFragment(f) => spaces(level as nat) + seq!['.', '.', '.'] + (
        match f.type_condition {
            Some(name) => seq![' ', 'o', 'n', ' '] + name,
            None => Seq::empty(),
        }) + directives_text(f.directives, style, level, f.directives.len()) + seq![' ']
            + block_text(f.selection_set.items, style, level),
    }
}

/// The text of a query, a mutation or a subscription with its keyword,
/// written behind the text `written`.
pub open spec fn operation_text(
    keyword: Seq<char>,
    parted: bool,
    o: OperationModel,
    style: Style,
    level: u32,
    written: Seq<char>,
) -> Seq<char> {
    margin_of(written) + spaces(level as nat) + keyword + (match o.name {
        Some(name) => seq![' '] + name,
        None => Seq::empty(),
    }) + variable_definitions_text(o.variable_definitions, style, level, parted)
        + directives_text(o.directives, style, level, o.directives.len()) + seq![' ']
        + block_text(o.selection_set.items, style, level)
}

/// The text of a selection set that is an operation of its own, written
/// behind the text `written`.
pub open spec fn selection_set_text(
    s: SelectionSetModel,
    style: Style,
    level: u32,
    written: Seq<char>,
) -> Seq<char> {
    margin_of(written) + spaces(level as nat) + block_text(s.items, style, level)
}

/// The text of the definition of an operation.
pub open spec fn operation_definition_text(
    o: OperationDefinitionModel,
    style: Style,
    level: u32,
    written: Seq<char>,
) -> Seq<char> {
    match o {
        OperationDefinitionModel::SelectionSet(s) => selection_set_text(s, style, level, written),
        OperationDefinitionModel::Query(q) => operation_text(
            "query"@,
            true,
            q,
            style,
            level,
            written,
        ),
        OperationDefinitionModel::Mutation(m) => operation_text(
            "mutation"@,
            false,
            m,
            style,
            level,
            written,
        ),
        OperationDefinitionModel::Subscription(s) => operation_text(
            "subscription"@,
            false,
            s,
            style,
            level,
            written,
        ),
    }
}

/// The text of the definition of a fragment.
pub open spec fn fragment_definition_text(
    d: FragmentDefinitionModel,
    style: Style,
    level: u32,
    written: Seq<char>,
) -> Seq<char> {
    margin_of(written) + spaces(level as nat) + "fragment "@ + d.name + seq![' ', 'o', 'n', ' ']
        + d.type_condition + directives_text(d.directives, style, level, d.directives.len())
        + seq![' '] + block_text(d.selection_set.items, style, level)
}

/// The text of a definition, written behind the text `written`: after
/// an empty line, unless nothing is written yet.
pub open spec fn definition_text(
    d: DefinitionModel,
    style: Style,
    level: u32,
    written: Seq<char>,
) -> Seq<char> {
    match d {
        DefinitionModel::Operation(o) => operation_definition_text(o, style, level, written),
        DefinitionModel::Fragment(f) => fragment_definition_text(f, style, level, written),
    }
}

/// The text of the first `n` definitions of a document, written behind
/// the text `written`.
pub open spec fn definitions_text(
    definitions: Seq<DefinitionModel>,
    style: Style,
    level: u32,
    written: Seq<char>,
    n: nat,
) -> Seq<char>
    decreases n,
{
    if n == 0 || n > definitions.len() {
        Seq::empty()
    } else {
        let before = definitions_text(definitions, style, level, written, (n - 1) as nat);
        before + definition_text(definitions[n - 1], style, level, written + before)
    }
}

/// The text of a document in the given style.
pub open spec fn document_text(d: DocumentModel, style: Style) -> Seq<char> {
    definitions_text(d.definitions, style, 0, Seq::empty(), d.definitions.len())
}

/// Writes a list of names with a value each, as the arguments of a list
/// that is already open.
#[verifier::loop_isolation(false)]
pub fn display_fields(fields: &Vec<(String, Value)>, f: &mut Formatter<'_>)
    ensures
        final(f).wrote(
            old(f),
            fields_text(pairs_view(fields@), old(f).style(), old(f).level(), fields@.len()),
            old(f).level(),
        ),
    decreases fields,
{
    let ghost style = f.style();
    let ghost level = f.level();
    let ghost ps = pairs_view(fields@);
    let mut i: usize = 0;
    assert(f.text() =~= old(f).text() + fields_text(ps, style, level, 0));
    while i < fields.len()
        invariant
            i <= fields@.len(),
            f.wrote(old(f), fields_text(ps, style, level, i as nat), level),
        decreases fields@.len() - i,
    {
        let ghost before = f.text();
        if i > 0 {
            f.deliniate_argument();
        }
        f.start_argument();
        f.write(fields[i].0.as_str());
        f.write(": ");
        proof {
            reveal_strlit(": ");
            assert(": "@ =~= seq![':', ' ']);
            assert(ps[i as int] == (fields@[i as int].0@, fields@[i as int].1@));
        }
        fields[i].1.display(f);
        proof {
            assert(f.text() =~= before + (before_argument(style, level, i as int) + ps[i as int].0
                + seq![':', ' '] + value_text(ps[i as int].1, style, level)));
            assert(f.text() =~= old(f).text() + fields_text(ps, style, level, (i + 1) as nat));
        }
        i += 1;
    }
}

/// Writes the items of a list that is already open.
#[verifier::loop_isolation(false)]
pub fn display_items(items: &Vec<Value>, f: &mut Formatter<'_>)
    ensures
        final(f).wrote(
            old(f),
            items_text(values_view(items@), old(f).style(), old(f).level(), items@.len()),
            old(f).level(),
        ),
    decreases items,
{
    let ghost style = f.style();
    let ghost level = f.level();
    let ghost vs = values_view(items@);
    let mut i: usize = 0;
    assert(f.text() =~= old(f).text() + items_text(vs, style, level, 0));
    while i < items.len()
        invariant
            i <= items@.len(),
            f.wrote(old(f), items_text(vs, style, level, i as nat), level),
        decreases items@.len() - i,
    {
        let ghost before = f.text();
        if i > 0 {
            f.deliniate_argument();
        }
        f.start_argument();
        items[i].display(f);
        proof {
            assert(vs[i as int] == items@[i as int]@);
            assert(f.text() =~= before + (before_argument(style, level, i as int) + value_text(
                vs[i as int],
                style,
                level,
            )));
            assert(f.text() =~= old(f).text() + items_text(vs, style, level, (i + 1) as nat));
        }
        i += 1;
    }
}

/// Writes the arguments of a field or of a directive.
pub fn display_arguments(arguments: &Vec<(String, Value)>, f: &mut Formatter<'_>)
    ensures
        final(f).wrote(
            old(f),
            arguments_text(pairs_view(arguments@), old(f).style(), old(f).level()),
            old(f).level(),
        ),
{
    let ghost style = f.style();
    let ghost level = f.level();
    if arguments.len() > 0 {
        f.start_argument_block('(');
        display_fields(arguments, f);
        f.end_argument_block(')');
        proof {
            assert(f.outer() =~= old(f).outer());
            assert(f.text() =~= old(f).text() + arguments_text(
                pairs_view(arguments@),
                style,
                level,
            ));
        }
    } else {
        assert(f.text() =~= old(f).text() + Seq::<char>::empty());
    }
}

impl Value {
    /// Writes the value.
    pub fn display(&self, f: &mut Formatter<'_>)
        ensures
            final(f).wrote(
                old(f),
                value_text(self@, old(f).style(), old(f).level()),
                old(f).level(),
            ),
        decreases self,
    {
        let ghost style = f.style();
        let ghost level = f.level();
        match self {
            Value::Variable(name) => {
                f.write_char('$');
                f.write(name.as_str());
                assert(f.text() =~= old(f).text() + (seq!['$'] + name@));
            },
            Value::Int(n) => {
                let mut t = String::new();
                push_signed_decimal(&mut t, n.0);
                f.write(t.as_str());
                assert(t@ =~= signed_decimal(n.0 as int));
            },
            Value::Float(t) => {
                f.write(t.as_str());
            },
            Value::String(t) => {
                f.write_quoted(t.as_str());
            },
            Value::Boolean(b) => {
                if *b {
                    f.write("true");
                } else {
                    f.write("false");
                }
            },
            Value::Null => {
                f.write("null");
            },
            Value::Enum(name) => {
                f.write(name.as_str());
            },
            Value::List(items) => {
                f.start_argument_block('[');
                display_items(items, f);
                f.end_argument_block(']');
                proof {
                    assert(f.outer() =~= old(f).outer());
                    assert(f.text() =~= old(f).text() + value_text(self@, style, level));
                }
            },
            Value::Object(fields) => {
                f.start_argument_block('{');
                display_fields(fields, f);
                f.end_argument_block('}');
                proof {
                    assert(f.outer() =~= old(f).outer());
                    assert(f.text() =~= old(f).text() + value_text(self@, style, level));
                }
            },
        }
    }

    /// The text of the value in the default style.
    pub fn to_string(&self) -> (s: String)
        ensures
            s@ == value_text(self@, Style::standard(), 0),
    {
        let style = Style::default();
        let mut f = Formatter::new(&style);
        self.display(&mut f);
        assert(f.text() =~= value_text(self@, style, 0));
        f.into_string()
    }
}

impl Type {
    /// Writes the type.
    pub fn display(&self, f: &mut Formatter<'_>)
        ensures
            final(f).wrote(old(f), type_text(self@), old(f).level()),
        decreases self,
    {
        match self {
            Type::NamedType(name) => {
                f.write(name.as_str());
            },
            Type::ListType(inner) => {
                f.write_char('[');
                inner.display(f);
                f.write_char(']');
                assert(f.text() =~= old(f).text() + type_text(self@));
            },
            Type::NonNullType(inner) => {
                inner.display(f);
                f.write_char('!');
                assert(f.text() =~= old(f).text() + type_text(self@));
            },
        }
    }

    /// The text of the type.
    pub fn to_string(&self) -> (s: String)
        ensures
            s@ == type_text(self@),
    {
        let style = Style::default();
        let mut f = Formatter::new(&style);
        self.display(&mut f);
        assert(f.text() =~= type_text(self@));
        f.into_string()
    }
}

impl Directive {
    /// Writes the directive.
    pub fn display(&self, f: &mut Formatter<'_>)
        ensures
            final(f).wrote(
                old(f),
                directive_text(self@, old(f).style(), old(f).level()),
                old(f).level(),
            ),
    {
        f.write_char('@');
        f.write(self.name.as_str());
        display_arguments(&self.arguments, f);
        assert(f.text() =~= old(f).text() + directive_text(self@, old(f).style(), old(f).level()));
    }
}

/// Writes directives, each after a space.
pub fn format_directives(dirs: &Vec<Directive>, f: &mut Formatter<'_>)
    ensures
        final(f).wrote(
            old(f),
            directives_text(
                directives_view(dirs@),
                old(f).style(),
                old(f).level(),
                dirs@.len(),
            ),
            old(f).level(),
        ),
{
    let ghost style = f.style();
    let ghost level = f.level();
    let ghost ds = directives_view(dirs@);
    let mut i: usize = 0;
    assert(f.text() =~= old(f).text() + directives_text(ds, style, level, 0));
    while i < dirs.len()
        invariant
            i <= dirs@.len(),
            ds == directives_view(dirs@),
            style == old(f).style(),
            level == old(f).level(),
            f.wrote(old(f), directives_text(ds, style, level, i as nat), level),
        decreases dirs@.len() - i,
    {
        let ghost before = f.text();
        f.write_char(' ');
        dirs[i].display(f);
        proof {
            assert(ds[i as int] == dirs@[i as int]@);
            assert(f.text() =~= before + (seq![' '] + directive_text(ds[i as int], style, level)));
            assert(f.text() =~= old(f).text() + directives_text(ds, style, level, (i + 1) as nat));
        }
        i += 1;
    }
}

impl VariableDefinition {
    /// Writes the definition of the variable.
    #[verifier::rlimit(40)]
    pub fn display(&self, f: &mut Formatter<'_>)
        ensures
            final(f).wrote(
                old(f),
                variable_text(self@, old(f).style(), old(f).level()),
                old(f).level(),
            ),
    {
        f.write_char('$');
        f.write(self.name.as_str());
        f.write(": ");
        self.var_type.display(f);
        proof {
            reveal_strlit(": ");
            assert(": "@ =~= seq![':', ' ']);
            reveal_strlit(" = ");
            assert(" = "@ =~= seq![' ', '=', ' ']);
        }
        match &self.default_value {
            Some(v) => {
                f.write(" = ");
                v.display(f);
                assert(f.text() =~= old(f).text() + variable_text(
                    self@,
                    old(f).style(),
                    old(f).level(),
                ));
            },
            None => {
                assert(f.text() =~= old(f).text() + variable_text(
                    self@,
                    old(f).style(),
                    old(f).level(),
                ));
            },
        }
    }
}

/// Writes the definitions of variables between their parentheses, those
/// of a query parted by a comma and a space.
fn display_variables(vars: &Vec<VariableDefinition>, parted: bool, f: &mut Formatter<'_>)
    ensures
        final(f).wrote(
            old(f),
            variable_definitions_text(
                variables_view(vars@),
                old(f).style(),
                old(f).level(),
                parted,
            ),
            old(f).level(),
        ),
{
    let ghost style = f.style();
    let ghost level = f.level();
    let ghost vs = variables_view(vars@);
    if vars.len() == 0 {
        assert(f.text() =~= old(f).text() + Seq::<char>::empty());
        return ;
    }
    f.write_char('(');
    let ghost opened = f.text();
    let mut i: usize = 0;
    assert(f.text() =~= opened + variables_text(vs, style, level, parted, 0));
    while i < vars.len()
        invariant
            i <= vars@.len(),
            vs == variables_view(vars@),
            style == old(f).style(),
            level == old(f).level(),
            opened == old(f).text() + seq!['('],
            f.text() == opened + variables_text(vs, style, level, parted, i as nat),
            f.level() == level,
            f.style() == style,
            f.outer() == old(f).outer(),
        decreases vars@.len() - i,
    {
        let ghost before = f.text();
        if parted && i > 0 {
            f.write(", ");
            proof {
                reveal_strlit(", ");
                assert(", "@ =~= seq![',', ' ']);
            }
        }
        vars[i].display(f);
        proof {
            assert(vs[i as int] == vars@[i as int]@);
            assert(f.text() =~= before + ((if parted && i > 0 {
                seq![',', ' ']
            } else {
                Seq::<char>::empty()
            }) + variable_text(vs[i as int], style, level)));
            assert(f.text() =~= opened + variables_text(vs, style, level, parted, (i + 1) as nat));
        }
        i += 1;
    }
    f.write_char(')');
    assert(f.text() =~= old(f).text() + variable_definitions_text(vs, style, level, parted));
}

/// Writes a block of selections.
#[verifier::loop_isolation(false)]
fn display_block(items: &Vec<Selection>, f: &mut Formatter<'_>)
    ensures
        final(f).wrote(
            old(f),
            block_text(selections_view(items@), old(f).style(), old(f).level()),
            old(f).level(),
        ),
    decreases items,
{
    let ghost style = f.style();
    let ghost level = f.level();
    let ghost ss = selections_view(items@);
    f.start_block();
    let ghost lvl = f.level();
    let ghost opened = f.text();
    let mut i: usize = 0;
    assert(f.text() =~= opened + selections_text(ss, style, lvl, 0));
    while i < items.len()
        invariant
            i <= items@.len(),
            f.text() == opened + selections_text(ss, style, lvl, i as nat),
            f.level() == lvl,
            f.style() == style,
            f.outer() == old(f).outer().push(level),
        decreases items@.len() - i,
    {
        let ghost before = f.text();
        items[i].display(f);
        proof {
            assert(ss[i as int] == items@[i as int]@);
            assert(f.text() =~= opened + selections_text(ss, style, lvl, (i + 1) as nat));
        }
        i += 1;
    }
    f.end_block();
    proof {
        assert(f.outer() =~= old(f).outer());
        assert(f.text() =~= old(f).text() + block_text(ss, style, level));
    }
}

/// Writes a field.
#[verifier::rlimit(40)]
fn display_field(field: &Field, f: &mut Formatter<'_>)
    ensures
        final(f).wrote(
            old(f),
            selection_text(SelectionModel::Field(field@), old(f).style(), old(f).level()),
            old(f).level(),
        ),
    decreases field,
{
    let ghost style = f.style();
    let ghost level = f.level();
    proof {
        reveal_strlit(": ");
        assert(": "@ =~= seq![':', ' ']);
    }
    f.indent();
    match &field.alias {
        Some(alias) => {
            f.write(alias.as_str());
            f.write(": ");
        },
        None => {},
    }
    f.write(field.name.as_str());
    let ghost head = f.text();
    assert(head =~= old(f).text() + (spaces(level as nat) + (match field@.alias {
        Some(alias) => alias + seq![':', ' '],
        None => Seq::<char>::empty(),
    }) + field@.name));
    display_arguments(&field.arguments, f);
    format_directives(&field.directives, f);
    let ghost middle = f.text();
    assert(middle =~= head + (arguments_text(field@.arguments, style, level) + directives_text(
        field@.directives,
        style,
        level,
        field@.directives.len(),
    )));
    if field.selection_set.items.len() > 0 {
        f.write_char(' ');
        display_block(&field.selection_set.items, f);
        assert(f.text() =~= middle + (seq![' '] + block_text(
            field@.selection_set.items,
            style,
            level,
        )));
    } else {
        f.endline();
    }
    assert(f.text() =~= old(f).text() + selection_text(
        SelectionModel::Field(field@),
        style,
        level,
    ));
}

/// Writes a fragment spread.
#[verifier::rlimit(40)]
fn display_spread(spread: &FragmentSpread, f: &mut Formatter<'_>)
    ensures
        final(f).wrote(
            old(f),
            selection_text(SelectionModel::FragmentSpread(spread@), old(f).style(), old(f).level()),
            old(f).level(),
        ),
{
    let ghost style = f.style();
    let ghost level = f.level();
    proof {
        reveal_strlit("...");
        assert("..."@ =~= seq!['.', '.', '.']);
    }
    f.indent();
    f.write("...");
    f.write(spread.fragment_name.as_str());
    format_directives(&spread.directives, f);
    f.endline();
    assert(f.text() =~= old(f).text() + selection_text(
        SelectionModel::FragmentSpread(spread@),
        style,
        level,
    ));
}

/// Writes an inline fragment.
#[verifier::rlimit(40)]
fn display_inline(fragment: &InlineFragment, f: &mut Formatter<'_>)
    ensures
        final(f).wrote(
            old(f),
            selection_text(
                SelectionModel::InlineFragment(fragment@),
                old(f).style(),
                old(f).level(),
            ),
            old(f).level(),
        ),
    decreases fragment,
{
    let ghost style = f.style();
    let ghost level = f.level();
    proof {
        reveal_strlit("...");
        assert("..."@ =~= seq!['.', '.', '.']);
        reveal_strlit(" on ");
        assert(" on "@ =~= seq![' ', 'o', 'n', ' ']);
    }
    f.indent();
    f.write("...");
    match &fragment.type_condition {
        Some(TypeCondition::On(name)) => {
            f.write(" on ");
            f.write(name.as_str());
        },
        None => {},
    }
    let ghost head = f.text();
    assert(head =~= old(f).text() + (spaces(level as nat) + seq!['.', '.', '.'] + (
    match fragment@.type_condition {
        Some(name) => seq![' ', 'o', 'n', ' '] + name,
        None => Seq::<char>::empty(),
    })));
    format_directives(&fragment.directives, f);
    f.write_char(' ');
    display_block(&fragment.selection_set.items, f);
    assert(f.text() =~= head + (directives_text(
        fragment@.directives,
        style,
        level,
        fragment@.directives.len(),
    ) + seq![' '] + block_text(fragment@.selection_set.items, style, level)));
    assert(f.text() =~= old(f).text() + selection_text(
        SelectionModel::InlineFragment(fragment@),
        style,
        level,
    ));
}

impl Selection {
    /// Writes the selection: one line or more, at the indent.
    pub fn display(&self, f: &mut Formatter<'_>)
        ensures
            final(f).wrote(
                old(f),
                selection_text(self@, old(f).style(), old(f).level()),
                old(f).level(),
            ),
        decreases self,
    {
        match self {
            Selection::Field(field) => display_field(field, f),
            Selection::FragmentSpread(spread) => display_spread(spread, f),
            Selection::InlineFragment(fragment) => display_inline(fragment, f),
        }
    }
}

/// The text that an operation begins with: its keyword and its name.
pub open spec fn operation_head_text(
    keyword: Seq<char>,
    name: Option<Seq<char>>,
    level: u32,
    written: Seq<char>,
) -> Seq<char> {
    margin_of(written) + spaces(level as nat) + keyword + (match name {
        Some(name) => seq![' '] + name,
        None => Seq::empty(),
    })
}

/// Writes what an operation begins with.
fn display_operation_head(keyword: &'static str, name: &Option<String>, f: &mut Formatter<'_>)
    ensures
        final(f).wrote(
            old(f),
            operation_head_text(keyword@, text_view(*name), old(f).level(), old(f).text()),
            old(f).level(),
        ),
{
    f.margin();
    f.indent();
    f.write(keyword);
    match name {
        Some(name) => {
            f.write_char(' ');
            f.write(name.as_str());
        },
        None => {},
    }
    assert(f.text() =~= old(f).text() + operation_head_text(
        keyword@,
        text_view(*name),
        old(f).level(),
        old(f).text(),
    ));
}

/// Writes a query, a mutation or a subscription with its keyword.
#[verifier::rlimit(40)]
fn display_operation(
    keyword: &'static str,
    parted: bool,
    position: crate::position::Pos,
    name: &Option<String>,
    variable_definitions: &Vec<VariableDefinition>,
    directives: &Vec<Directive>,
    selection_set: &SelectionSet,
    f: &mut Formatter<'_>,
)
    ensures
        final(f).wrote(
            old(f),
            operation_text(
                keyword@,
                parted,
                OperationModel {
                    position,
                    name: text_view(*name),
                    variable_definitions: variables_view(variable_definitions@),
                    directives: directives_view(directives@),
                    selection_set: selection_set@,
                },
                old(f).style(),
                old(f).level(),
                old(f).text(),
            ),
            old(f).level(),
        ),
{
    let ghost style = f.style();
    let ghost level = f.level();
    let ghost a = operation_head_text(keyword@, text_view(*name), level, old(f).text());
    let ghost b = variable_definitions_text(
        variables_view(variable_definitions@),
        style,
        level,
        parted,
    );
    let ghost c = directives_text(directives_view(directives@), style, level, directives@.len());
    let ghost d = block_text(selection_set@.items, style, level);
    display_operation_head(keyword, name, f);
    assert(f.text() == old(f).text() + a);
    display_variables(variable_definitions, parted, f);
    assert(f.text() == old(f).text() + a + b);
    format_directives(directives, f);
    assert(f.text() == old(f).text() + a + b + c);
    f.write_char(' ');
    display_block(&selection_set.items, f);
    assert(f.text() == old(f).text() + a + b + c + seq![' '] + d);
    assert(old(f).text() + a + b + c + seq![' '] + d =~= old(f).text() + (a + b + c + seq![' ']
        + d));
}

impl SelectionSet {
    /// Writes the selection set as an operation of its own.
    pub fn display(&self, f: &mut Formatter<'_>)
        ensures
            final(f).wrote(
                old(f),
                selection_set_text(self@, old(f).style(), old(f).level(), old(f).text()),
                old(f).level(),
            ),
    {
        f.margin();
        f.indent();
        display_block(&self.items, f);
        assert(f.text() =~= old(f).text() + selection_set_text(
            self@,
            old(f).style(),
            old(f).level(),
            old(f).text(),
        ));
    }
}

impl Query {
    /// Writes the query.
    pub fn display(&self, f: &mut Formatter<'_>)
        ensures
            final(f).wrote(
                old(f),
                operation_text(
                    "query"@,
                    true,
                    self@,
                    old(f).style(),
                    old(f).level(),
                    old(f).text(),
                ),
                old(f).level(),
            ),
    {
        display_operation(
            "query",
            true,
            self.position,
            &self.name,
            &self.variable_definitions,
            &self.directives,
            &self.selection_set,
            f,
        );
    }
}

impl Mutation {
    /// Writes the mutation.
    pub fn display(&self, f: &mut Formatter<'_>)
        ensures
            final(f).wrote(
                old(f),
                operation_text(
                    "mutation"@,
                    false,
                    self@,
                    old(f).style(),
                    old(f).level(),
                    old(f).text(),
                ),
                old(f).level(),
            ),
    {
        display_operation(
            "mutation",
            false,
            self.position,
            &self.name,
            &self.variable_definitions,
            &self.directives,
            &self.selection_set,
            f,
        );
    }
}

impl Subscription {
    /// Writes the subscription.
    pub fn display(&self, f: &mut Formatter<'_>)
        ensures
            final(f).wrote(
                old(f),
                operation_text(
                    "subscription"@,
                    false,
                    self@,
                    old(f).style(),
                    old(f).level(),
                    old(f).text(),
                ),
                old(f).level(),
            ),
    {
        display_operation(
            "subscription",
            false,
            self.position,
            &self.name,
            &self.variable_definitions,
            &self.directives,
            &self.selection_set,
            f,
        );
    }
}

impl OperationDefinition {
    /// Writes the definition of the operation.
    pub fn display(&self, f: &mut Formatter<'_>)
        ensures
            final(f).wrote(
                old(f),
                operation_definition_text(self@, old(f).style(), old(f).level(), old(f).text()),
                old(f).level(),
            ),
    {
        match self {
            OperationDefinition::SelectionSet(s) => s.display(f),
            OperationDefinition::Query(q) => q.display(f),
            OperationDefinition::Mutation(m) => m.display(f),
            OperationDefinition::Subscription(s) => s.display(f),
        }
    }
}

impl FragmentDefinition {
    /// Writes the definition of the fragment.
    #[verifier::rlimit(40)]
    pub fn display(&self, f: &mut Formatter<'_>)
        ensures
            final(f).wrote(
                old(f),
                fragment_definition_text(self@, old(f).style(), old(f).level(), old(f).text()),
                old(f).level(),
            ),
    {
        let ghost style = f.style();
        let ghost level = f.level();
        proof {
            reveal_strlit(" on ");
            assert(" on "@ =~= seq![' ', 'o', 'n', ' ']);
        }
        f.margin();
        f.indent();
        f.write("fragment ");
        f.write(self.name.as_str());
        f.write(" on ");
        match &self.type_condition {
            TypeCondition::On(name) => {
                f.write(name.as_str());
            },
        }
        let ghost head = f.text();
        assert(head =~= old(f).text() + (margin_of(old(f).text()) + spaces(level as nat)
            + "fragment "@ + self@.name + seq![' ', 'o', 'n', ' '] + self@.type_condition));
        format_directives(&self.directives, f);
        f.write_char(' ');
        display_block(&self.selection_set.items, f);
        assert(f.text() =~= head + (directives_text(
            self@.directives,
            style,
            level,
            self@.directives.len(),
        ) + seq![' '] + block_text(self@.selection_set.items, style, level)));
        assert(f.text() =~= old(f).text() + fragment_definition_text(
            self@,
            style,
            level,
            old(f).text(),
        ));
    }
}

impl Definition {
    /// Writes the definition: after an empty line, unless nothing is
    /// written yet.
    pub fn display(&self, f: &mut Formatter<'_>)
        ensures
            final(f).wrote(
                old(f),
                definition_text(self@, old(f).style(), old(f).level(), old(f).text()),
                old(f).level(),
            ),
    {
        match self {
            Definition::Operation(o) => o.display(f),
            Definition::Fragment(d) => d.display(f),
        }
    }
}

impl Document {
    /// Writes the document.
    pub fn display(&self, f: &mut Formatter<'_>)
        ensures
            final(f).wrote(
                old(f),
                definitions_text(
                    self@.definitions,
                    old(f).style(),
                    old(f).level(),
                    old(f).text(),
                    self@.definitions.len(),
                ),
                old(f).level(),
            ),
    {
        let ghost style = f.style();
        let ghost level = f.level();
        let ghost written = f.text();
        let ghost ds = definitions_view(self.definitions@);
        let mut i: usize = 0;
        assert(f.text() =~= written + definitions_text(ds, style, level, written, 0));
        while i < self.definitions.len()
            invariant
                i <= self.definitions@.len(),
                ds == definitions_view(self.definitions@),
                style == old(f).style(),
                level == old(f).level(),
                written == old(f).text(),
                f.wrote(old(f), definitions_text(ds, style, level, written, i as nat), level),
            decreases self.definitions@.len() - i,
        {
            let ghost before = definitions_text(ds, style, level, written, i as nat);
            self.definitions[i].display(f);
            proof {
                assert(ds[i as int] == self.definitions@[i as int]@);
                assert(f.text() =~= written + definitions_text(
                    ds,
                    style,
                    level,
                    written,
                    (i + 1) as nat,
                ));
            }
            i += 1;
        }
    }

    /// The text of the document in the given style.
    pub fn format(&self, style: &Style) -> (s: String)
        ensures
            s@ == document_text(self@, *style),
    {
        let mut f = Formatter::new(style);
        self.display(&mut f);
        assert(f.text() =~= document_text(self@, *style));
        f.into_string()
    }

    /// The text of the document in the default style.
    pub fn to_string(&self) -> (s: String)
        ensures
            s@ == document_text(self@, Style::standard()),
    {
        let style = Style::default();
        self.format(&style)
    }
}

} // verus!
