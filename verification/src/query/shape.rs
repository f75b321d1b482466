//! What a document must be like for its text to be read back as the
//! document, and what it is for two documents to be alike.

use vstd::prelude::*;
use crate::position::Pos;
use crate::common::{DirectiveModel, TypeModel, ValueModel, text_lt};
use crate::format::{has_newline, has_nonprintable};
use crate::inverse::{all_read_back, keeps_layout};
use crate::rescan::{is_name, is_float_text};
use crate::query::ast::{
    DefinitionModel, DocumentModel, FieldModel, FragmentDefinitionModel, FragmentSpreadModel,
    InlineFragmentModel, OperationDefinitionModel, OperationModel, SelectionModel,
    SelectionSetModel, VariableDefinitionModel,
};

verus! {

/// The position of a node that is looked at without its position.
pub open spec fn nowhere() -> Pos {
    Pos { line: 0, column: 0 }
}

/// A directive without its position.
pub open spec fn bare_directive(d: DirectiveModel) -> DirectiveModel {
    DirectiveModel { position: nowhere(), ..d }
}

/// Directives without their positions.
pub open spec fn bare_directives(ds: Seq<DirectiveModel>) -> Seq<DirectiveModel> {
    Seq::new(ds.len(), |k: int| bare_directive(ds[k]))
}

/// A selection set without its positions.
pub open spec fn bare_set(set: SelectionSetModel) -> SelectionSetModel
    decreases set,
{
    SelectionSetModel { span: (nowhere(), nowhere()), items: bare_selections(set.items) }
}

/// Selections without their positions.
pub open spec fn bare_selections(items: Seq<SelectionModel>) -> Seq<SelectionModel>
    decreases items,
{
    Seq::new(
        items.len(),
        |k: int|
            if 0 <= k < items.len() {
                bare_selection(items[k])
            } else {
                SelectionModel::FragmentSpread(
                    FragmentSpreadModel {
                        position: nowhere(),
                        fragment_name: Seq::empty(),
                        directives: Seq::empty(),
                    },
                )
            },
    )
}

/// A selection without its positions.
pub open spec fn bare_selection(s: SelectionModel) -> SelectionModel
    decreases s,
{
    match s {
        SelectionModel::Field(f) => SelectionModel::Field(
            FieldModel {
                position: nowhere(),
                directives: bare_directives(f.directives),
                selection_set: bare_set(f.selection_set),
                ..f
            },
        ),
        SelectionModel::FragmentSpread(f) => SelectionModel::FragmentSpread(
            FragmentSpreadModel {
                position: nowhere(),
                directives: bare_directives(f.directives),
                ..f
            },
        ),
        SelectionModel::InlineFragment(f) => SelectionModel::InlineFragment(
            InlineFragmentModel {
                position: nowhere(),
                directives: bare_directives(f.directives),
                selection_set: bare_set(f.selection_set),
                ..f
            },
        ),
    }
}

/// The definition of a variable without its position.
pub open spec fn bare_variable(v: VariableDefinitionModel) -> VariableDefinitionModel {
    VariableDefinitionModel { position: nowhere(), ..v }
}

/// The definitions of variables without their positions.
pub open spec fn bare_variables(vs: Seq<VariableDefinitionModel>) -> Seq<VariableDefinitionModel> {
    Seq::new(vs.len(), |k: int| bare_variable(vs[k]))
}

/// An operation without its positions.
pub open spec fn bare_operation(o: OperationModel) -> OperationModel {
    OperationModel {
        position: nowhere(),
        name: o.name,
        variable_definitions: bare_variables(o.variable_definitions),
        directives: bare_directives(o.directives),
        selection_set: bare_set(o.selection_set),
    }
}

/// A definition without its positions.
pub open spec fn bare_definition(d: DefinitionModel) -> DefinitionModel {
    match d {
        DefinitionModel::Operation(OperationDefinitionModel::SelectionSet(s)) =>
            DefinitionModel::Operation(OperationDefinitionModel::SelectionSet(bare_set(s))),
        DefinitionModel::Operation(OperationDefinitionModel::Query(o)) =>
            DefinitionModel::Operation(OperationDefinitionModel::Query(bare_operation(o))),
        DefinitionModel::Operation(OperationDefinitionModel::Mutation(o)) =>
            DefinitionModel::Operation(OperationDefinitionModel::Mutation(bare_operation(o))),
        DefinitionModel::Operation(OperationDefinitionModel::Subscription(o)) =>
            DefinitionModel::Operation(
            OperationDefinitionModel::Subscription(bare_operation(o)),
        ),
        DefinitionModel::Fragment(f) => DefinitionModel::Fragment(
            FragmentDefinitionModel {
                position: nowhere(),
                directives: bare_directives(f.directives),
                selection_set: bare_set(f.selection_set),
                ..f
            },
        ),
    }
}

/// A document without its positions.
pub open spec fn bare_document(d: DocumentModel) -> DocumentModel {
    DocumentModel {
        definitions: Seq::new(d.definitions.len(), |k: int| bare_definition(d.definitions[k])),
    }
}

/// Two documents are alike: they are the same but for the positions of
/// their nodes.
pub open spec fn alike(a: DocumentModel, b: DocumentModel) -> bool {
    bare_document(a) == bare_document(b)
}

/// A string that is read back as it was when it is written as a
/// literal. Written as a block, which it is if it holds a line feed
/// and nothing unprintable, it must keep its layout. Written on one
/// line, each of its characters must be one that is handed back as it
/// was, and the last of them no backslash, which would hide the quote
/// that closes the literal from the tokenizer.
pub open spec fn legible(x: Seq<char>) -> bool {
    if has_newline(x) && !has_nonprintable(x) {
        keeps_layout(x)
    } else {
        all_read_back(x) && (x.len() > 0 ==> x.last() != '\\')
    }
}

/// The name of an enum value: a name that is none of `true`, `false`
/// and `null`.
pub open spec fn is_enum_name(n: Seq<char>) -> bool {
    is_name(n) && n != "true"@ && n != "false"@ && n != "null"@
}

/// The names of the fields of an object stand in their order, each
/// once.
pub open spec fn in_order(fields: Seq<(Seq<char>, ValueModel)>) -> bool {
    forall|a: int, b: int|
        0 <= a < b < fields.len() ==> text_lt((#[trigger] fields[a]).0, (#[trigger] fields[b]).0)
}

/// A value that the grammar can give, with `room` brackets left to
/// open: its names are names, its floats float literals, its strings
/// legible, its objects in order; it nests no deeper than the room
/// allows, and holds variables only where `vars` allows them.
pub open spec fn fit_value(v: ValueModel, vars: bool, room: int) -> bool
    decreases v,
{
    match v {
        ValueModel::Variable(n) => vars && is_name(n),
        ValueModel::Int(i) => i64::MIN <= i <= i64::MAX,
        ValueModel::Float(t) => is_float_text(t),
        ValueModel::String(x) => legible(x),
        ValueModel::Boolean(_) => true,
        ValueModel::Null => true,
        ValueModel::Enum(n) => is_enum_name(n),
        ValueModel::List(items) => room >= 1 && forall|k: int|
            0 <= k < items.len() ==> fit_value(#[trigger] items[k], vars, room - 1),
        ValueModel::Object(fields) => room >= 1 && in_order(fields) && forall|k: int|
            0 <= k < fields.len() ==> is_name((#[trigger] fields[k]).0) && fit_value(
                fields[k].1,
                vars,
                room - 1,
            ),
    }
}

/// A type that the grammar can give, with `room` brackets left to open.
pub open spec fn fit_type(t: TypeModel, room: int) -> bool
    decreases t,
{
    match t {
        TypeModel::NamedType(n) => is_name(n),
        TypeModel::ListType(inner) => room >= 1 && fit_type(*inner, room - 1),
        TypeModel::NonNullType(inner) => !(*inner is NonNullType) && fit_type(*inner, room),
    }
}

/// Arguments that the grammar can give.
pub open spec fn fit_arguments(args: Seq<(Seq<char>, ValueModel)>, room: int) -> bool {
    args.len() > 0 ==> room >= 1 && forall|k: int|
        0 <= k < args.len() ==> is_name((#[trigger] args[k]).0) && fit_value(
            args[k].1,
            true,
            room - 1,
        )
}

/// Directives that the grammar can give.
pub open spec fn fit_directives(ds: Seq<DirectiveModel>, room: int) -> bool {
    forall|k: int|
        0 <= k < ds.len() ==> is_name((#[trigger] ds[k]).name) && fit_arguments(
            ds[k].arguments,
            room,
        )
}

/// Selections that the grammar can give, with `room` brackets left to
/// open.
pub open spec fn fit_selections(items: Seq<SelectionModel>, room: int) -> bool
    decreases items, 0nat,
{
    forall|k: int| 0 <= k < items.len() ==> fit_selection(#[trigger] items[k], room)
}

/// A block of selections that the grammar can give: one selection or
/// more.
pub open spec fn fit_block(items: Seq<SelectionModel>, room: int) -> bool
    decreases items, 1nat,
{
    items.len() > 0 && room >= 1 && fit_selections(items, room - 1)
}

/// A selection that the grammar can give. No fragment that is spread
/// is named `on`.
pub open spec fn fit_selection(s: SelectionModel, room: int) -> bool
    decreases s, 0nat,
{
    match s {
        SelectionModel::Field(f) => {
            &&& is_name(f.name)
            &&& (f.alias is Some ==> is_name(f.alias->0))
            &&& fit_arguments(f.arguments, room)
            &&& fit_directives(f.directives, room)
            &&& (f.selection_set.items.len() > 0 ==> fit_block(f.selection_set.items, room))
        },
        SelectionModel::FragmentSpread(f) => {
            &&& is_name(f.fragment_name)
            &&& f.fragment_name != "on"@
            &&& fit_directives(f.directives, room)
        },
        SelectionModel::InlineFragment(f) => {
            &&& (f.type_condition is Some ==> is_name(f.type_condition->0))
            &&& fit_directives(f.directives, room)
            &&& fit_block(f.selection_set.items, room)
        },
    }
}

/// The definition of a variable that the grammar can give.
pub open spec fn fit_variable(v: VariableDefinitionModel, room: int) -> bool {
    &&& is_name(v.name)
    &&& fit_type(v.var_type, room)
    &&& (v.default_value is Some ==> fit_value(v.default_value->0, false, room))
}

/// An operation that the grammar can give.
pub open spec fn fit_operation(o: OperationModel, room: int) -> bool {
    &&& (o.name is Some ==> is_name(o.name->0))
    &&& (o.variable_definitions.len() > 0 ==> room >= 1 && forall|k: int|
        0 <= k < o.variable_definitions.len() ==> fit_variable(
            #[trigger] o.variable_definitions[k],
            room - 1,
        ))
    &&& fit_directives(o.directives, room)
    &&& fit_block(o.selection_set.items, room)
}

/// A definition that the grammar can give.
pub open spec fn fit_definition(d: DefinitionModel, room: int) -> bool {
    match d {
        DefinitionModel::Operation(OperationDefinitionModel::SelectionSet(s)) => fit_block(
            s.items,
            room,
        ),
        DefinitionModel::Operation(OperationDefinitionModel::Query(o)) => fit_operation(o, room),
        DefinitionModel::Operation(OperationDefinitionModel::Mutation(o)) => fit_operation(
            o,
            room,
        ),
        DefinitionModel::Operation(OperationDefinitionModel::Subscription(o)) => fit_operation(
            o,
            room,
        ),
        DefinitionModel::Fragment(f) => {
            &&& is_name(f.name)
            &&& is_name(f.type_condition)
            &&& fit_directives(f.directives, room)
            &&& fit_block(f.selection_set.items, room)
        },
    }
}

/// A document that the grammar can give with the depth that a fresh
/// tokenizer has: one definition or more.
pub open spec fn fit_document(d: DocumentModel) -> bool {
    d.definitions.len() > 0 && forall|k: int|
        0 <= k < d.definitions.len() ==> fit_definition(
            #[trigger] d.definitions[k],
            crate::tokenizer::RECURSION_LIMIT as int,
        )
}

} // verus!
