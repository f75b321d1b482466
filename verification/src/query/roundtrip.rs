//! Parsing, printing and parsing again: the document that is read back
//! from the text of a document is like the document, and its text is
//! the same text.

use vstd::prelude::*;
use crate::format::Style;
use crate::parser::lex;
use crate::common::DirectiveModel;
use crate::query::ast::{
    DefinitionModel, DocumentModel, FieldModel, FragmentDefinitionModel, FragmentSpreadModel,
    InlineFragmentModel, OperationDefinitionModel, OperationModel, SelectionModel,
    SelectionSetModel, VariableDefinitionModel,
};
use crate::query::format::{
    directive_text, directives_text, variable_text, variables_text, variable_definitions_text,
    block_text, selections_text, selection_text, operation_text, selection_set_text,
    operation_definition_text, fragment_definition_text, definition_text, definitions_text,
    document_text,
};
use crate::query::grammar::query_document;
use crate::query::shape::{
    alike, bare_directive, bare_directives, bare_selection, bare_selections, bare_set,
    bare_variable, bare_variables, bare_operation, bare_definition, bare_document, fit_document,
};
use crate::query::sound::{strings_legible, document_sound};
use crate::query::reread::document_reads;

verus! {

/// A document that is parsed, written in any style and parsed again is
/// like the document that was parsed first: the same but for the
/// positions of its nodes. This holds of every source whose strings
/// are legible, each read back as it was when it is written as a
/// literal.
pub proof fn parse_of_format(s: Seq<char>, style: Style)
    requires
        query_document(s) is Ok,
        strings_legible(lex(s)),
    ensures
        query_document(document_text(query_document(s)->Ok_0, style)) is Ok,
        alike(
            query_document(document_text(query_document(s)->Ok_0, style))->Ok_0,
            query_document(s)->Ok_0,
        ),
{
    document_sound(s);
    document_reads(query_document(s)->Ok_0, style);
}

/// The text of directives does not depend on their positions.
pub proof fn directives_text_bare(ds: Seq<DirectiveModel>, style: Style, level: u32, n: nat)
    requires
        n <= ds.len(),
    ensures
        directives_text(bare_directives(ds), style, level, n) == directives_text(
            ds,
            style,
            level,
            n,
        ),
    decreases n,
{
    if n > 0 {
        directives_text_bare(ds, style, level, (n - 1) as nat);
        assert(bare_directives(ds)[n - 1] == bare_directive(ds[n - 1]));
    }
}

/// The text of a block of selections does not depend on their
/// positions.
pub proof fn block_text_bare(items: Seq<SelectionModel>, style: Style, level: u32)
    ensures
        block_text(bare_selections(items), style, level) == block_text(items, style, level),
    decreases items, items.len() + 1,
{
    selections_text_bare(
        items,
        style,
        crate::format::deeper(level, style.width()),
        items.len(),
    );
}

/// The text of selections does not depend on their positions.
pub proof fn selections_text_bare(items: Seq<SelectionModel>, style: Style, level: u32, n: nat)
    requires
        n <= items.len(),
    ensures
        selections_text(bare_selections(items), style, level, n) == selections_text(
            items,
            style,
            level,
            n,
        ),
    decreases items, n,
{
    if n > 0 {
        selections_text_bare(items, style, level, (n - 1) as nat);
        selection_text_bare(items[n - 1], style, level);
        assert(bare_selections(items)[n - 1] == bare_selection(items[n - 1]));
    }
}

/// The text of a selection does not depend on its positions.
pub proof fn selection_text_bare(sel: SelectionModel, style: Style, level: u32)
    ensures
        selection_text(bare_selection(sel), style, level) == selection_text(sel, style, level),
    decreases sel, 0nat,
{
    match sel {
        SelectionModel::Field(f) => {
            directives_text_bare(f.directives, style, level, f.directives.len());
            block_text_bare(f.selection_set.items, style, level);
        },
        SelectionModel::FragmentSpread(f) => {
            directives_text_bare(f.directives, style, level, f.directives.len());
        },
        SelectionModel::InlineFragment(f) => {
            directives_text_bare(f.directives, style, level, f.directives.len());
            block_text_bare(f.selection_set.items, style, level);
        },
    }
}

/// The text of the definitions of variables does not depend on their
/// positions.
pub proof fn variables_text_bare(
    vars: Seq<VariableDefinitionModel>,
    style: Style,
    level: u32,
    parted: bool,
    n: nat,
)
    requires
        n <= vars.len(),
    ensures
        variables_text(bare_variables(vars), style, level, parted, n) == variables_text(
            vars,
            style,
            level,
            parted,
            n,
        ),
    decreases n,
{
    if n > 0 {
        variables_text_bare(vars, style, level, parted, (n - 1) as nat);
        assert(bare_variables(vars)[n - 1] == bare_variable(vars[n - 1]));
    }
}

/// The text of an operation does not depend on its positions.
pub proof fn operation_text_bare(
    keyword: Seq<char>,
    parted: bool,
    o: OperationModel,
    style: Style,
    level: u32,
    written: Seq<char>,
)
    ensures
        operation_text(keyword, parted, bare_operation(o), style, level, written)
            == operation_text(keyword, parted, o, style, level, written),
{
    variables_text_bare(
        o.variable_definitions,
        style,
        level,
        parted,
        o.variable_definitions.len(),
    );
    directives_text_bare(o.directives, style, level, o.directives.len());
    block_text_bare(o.selection_set.items, style, level);
}

/// The text of a definition does not depend on its positions.
pub proof fn definition_text_bare(
    d: DefinitionModel,
    style: Style,
    level: u32,
    written: Seq<char>,
)
    ensures
        definition_text(bare_definition(d), style, level, written) == definition_text(
            d,
            style,
            level,
            written,
        ),
{
    match d {
        DefinitionModel::Operation(OperationDefinitionModel::SelectionSet(s)) => {
            block_text_bare(s.items, style, level);
        },
        DefinitionModel::Operation(OperationDefinitionModel::Query(o)) => {
            operation_text_bare("query"@, true, o, style, level, written);
        },
        DefinitionModel::Operation(OperationDefinitionModel::Mutation(o)) => {
            operation_text_bare("mutation"@, false, o, style, level, written);
        },
        DefinitionModel::Operation(OperationDefinitionModel::Subscription(o)) => {
            operation_text_bare("subscription"@, false, o, style, level, written);
        },
        DefinitionModel::Fragment(f) => {
            directives_text_bare(f.directives, style, level, f.directives.len());
            block_text_bare(f.selection_set.items, style, level);
        },
    }
}

/// The text of definitions does not depend on their positions.
pub proof fn definitions_text_bare(
    ds: Seq<DefinitionModel>,
    style: Style,
    level: u32,
    written: Seq<char>,
    n: nat,
)
    requires
        n <= ds.len(),
    ensures
        definitions_text(bare_document(DocumentModel { definitions: ds }).definitions, style, level, written, n)
            == definitions_text(ds, style, level, written, n),
    decreases n,
{
    if n > 0 {
        definitions_text_bare(ds, style, level, written, (n - 1) as nat);
        let before = definitions_text(ds, style, level, written, (n - 1) as nat);
        definition_text_bare(ds[n - 1], style, level, written + before);
        let bare = bare_document(DocumentModel { definitions: ds }).definitions;
        assert(bare[n - 1] == bare_definition(ds[n - 1]));
    }
}

/// Documents that are alike have the same text.
pub proof fn text_of_alike(a: DocumentModel, b: DocumentModel, style: Style)
    requires
        alike(a, b),
    ensures
        document_text(a, style) == document_text(b, style),
{
    definitions_text_bare(a.definitions, style, 0, Seq::empty(), a.definitions.len());
    definitions_text_bare(b.definitions, style, 0, Seq::empty(), b.definitions.len());
    assert(bare_document(a).definitions.len() == a.definitions.len());
    assert(bare_document(b).definitions.len() == b.definitions.len());
}

/// Formatting twice yields the same text: the text of a document that
/// was parsed, written and parsed again is the text of the document
/// that was parsed first, in whatever style the two are written. This
/// holds of every source whose strings are legible.
pub proof fn format_of_parse_of_format(s: Seq<char>, style: Style, again: Style)
    requires
        query_document(s) is Ok,
        strings_legible(lex(s)),
    ensures
        query_document(document_text(query_document(s)->Ok_0, style)) is Ok,
        document_text(
            query_document(document_text(query_document(s)->Ok_0, style))->Ok_0,
            again,
        ) == document_text(query_document(s)->Ok_0, again),
{
    parse_of_format(s, style);
    text_of_alike(
        query_document(document_text(query_document(s)->Ok_0, style))->Ok_0,
        query_document(s)->Ok_0,
        again,
    );
}

} // verus!
