//! The grammar of the query language.
//!
//! The spec functions of this file say, production by production, what
//! the tokens of a source are as a syntax tree, or at which token and
//! why they are none. The functions that read are proved to give just
//! that.

use vstd::prelude::*;
use vstd::string::*;
use crate::position::Pos;
use crate::tokenizer::Kind;
use crate::error::{Error, Info, ErrorModel, InfoModel, Failure};
use crate::parser::{Parser, Parsed, Lexed, lex, texts, outcome, failure_of, model_of};
use crate::common::{
    Directive, Type, Value, DirectiveModel, TypeModel, ValueModel, parsed_arguments,
    parsed_directives, parsed_type, parsed_value, arguments, directives, parse_type, default_value,
    pairs_view, directives_view,
};
use crate::query::ast::{
    Definition, Document, Field, FragmentDefinition, FragmentSpread, InlineFragment, Mutation,
    OperationDefinition, Query, Selection, SelectionSet, Subscription, TypeCondition,
    VariableDefinition, DefinitionModel, DocumentModel, FieldModel, FragmentDefinitionModel,
    FragmentSpreadModel, InlineFragmentModel, OperationDefinitionModel, OperationModel,
    SelectionModel, SelectionSetModel, VariableDefinitionModel, selections_view, variables_view,
    definitions_view, text_view,
};
use crate::query::error::ParseError;

verus! {

/// Token `i` begins a selection.
pub open spec fn starts_selection(lx: Lexed, i: int) -> bool {
    lx.is_kind(i, Kind::Name) || lx.is_punct(i, "..."@)
}

/// The selection set of a field that has none in the source: empty, at
/// the field's position.
pub open spec fn no_selection_set(position: Pos) -> SelectionSetModel {
    SelectionSetModel { span: (position, position), items: Seq::empty() }
}

/// A field at token `i`: a name, or an alias, a colon and a name; then
/// arguments, directives and a selection set, as far as they are there.
pub open spec fn parsed_field(lx: Lexed, i: int) -> Parsed<FieldModel>
    decreases lx.tokens.len() - i, 1int,
{
    if !lx.is_kind(i, Kind::Name) {
        Parsed::Failed(lx.failure(i, texts(seq!["Name"])))
    } else if lx.is_punct(i + 1, ":"@) && !lx.is_kind(i + 2, Kind::Name) {
        Parsed::Failed(lx.failure(i + 2, texts(seq!["Name"])))
    } else {
        let aliased = lx.is_punct(i + 1, ":"@);
        let alias = if aliased {
            Some(lx.tokens[i].text)
        } else {
            None
        };
        let name = if aliased {
            lx.tokens[i + 2].text
        } else {
            lx.tokens[i].text
        };
        let k = if aliased {
            i + 3
        } else {
            i + 1
        };
        match parsed_arguments(lx, k) {
            Parsed::Failed(f) => Parsed::Failed(f),
            Parsed::Done(arguments, j) => match parsed_directives(lx, j, Seq::empty()) {
                Parsed::Failed(f) => Parsed::Failed(f),
                Parsed::Done(directives, m) => if i < m && lx.is_punct(m, "{"@) {
                    match parsed_selection_set(lx, m) {
                        Parsed::Failed(f) => Parsed::Failed(f),
                        Parsed::Done(selection_set, n) => Parsed::Done(
                            FieldModel {
                                position: lx.pos(i),
                                alias,
                                name,
                                arguments,
                                directives,
                                selection_set,
                            },
                            n,
                        ),
                    }
                } else {
                    Parsed::Done(
                        FieldModel {
                            position: lx.pos(i),
                            alias,
                            name,
                            arguments,
                            directives,
                            selection_set: no_selection_set(lx.pos(i)),
                        },
                        m,
                    )
                },
            },
        }
    }
}

/// What follows the three dots of a selection, from token `k` on: the
/// rest of an inline fragment or of a fragment spread.
pub open spec fn parsed_fragment(lx: Lexed, k: int) -> Parsed<SelectionModel>
    decreases lx.tokens.len() - k, 2int,
{
    if lx.is_word(k, "on"@) {
        if !lx.is_kind(k + 1, Kind::Name) {
            Parsed::Failed(lx.failure(k + 1, texts(seq!["Name"])))
        } else {
            parsed_inline(lx, k, Some(lx.tokens[k + 1].text), k + 2)
        }
    } else if lx.is_punct(k, "@"@) || lx.is_punct(k, "{"@) {
        parsed_inline(lx, k, None, k)
    } else if lx.is_kind(k, Kind::Name) {
        match parsed_directives(lx, k + 1, Seq::empty()) {
            Parsed::Failed(f) => Parsed::Failed(f),
            Parsed::Done(directives, j) => Parsed::Done(
                SelectionModel::FragmentSpread(
                    FragmentSpreadModel {
                        position: lx.pos(k),
                        fragment_name: lx.tokens[k].text,
                        directives,
                    },
                ),
                j,
            ),
        }
    } else {
        Parsed::Failed(lx.failure(k, texts(seq!["{", "on", "Name"])))
    }
}

/// An inline fragment that began at token `k`, from its directives on,
/// which begin at token `d`.
pub open spec fn parsed_inline(
    lx: Lexed,
    k: int,
    type_condition: Option<Seq<char>>,
    d: int,
) -> Parsed<SelectionModel>
    decreases lx.tokens.len() - k, 1int,
{
    match parsed_directives(lx, d, Seq::empty()) {
        Parsed::Failed(f) => Parsed::Failed(f),
        Parsed::Done(directives, j) => if k <= j <= lx.tokens.len() {
            match parsed_selection_set(lx, j) {
                Parsed::Failed(f) => Parsed::Failed(f),
                Parsed::Done(selection_set, n) => Parsed::Done(
                    SelectionModel::InlineFragment(
                        InlineFragmentModel {
                            position: lx.pos(k),
                            type_condition,
                            directives,
                            selection_set,
                        },
                    ),
                    n,
                ),
            }
        } else {
            Parsed::Failed(lx.failure(j, texts(seq!["{"])))
        },
    }
}

/// A selection at token `i`: a field, or three dots and a fragment.
pub open spec fn parsed_selection(lx: Lexed, i: int) -> Parsed<SelectionModel>
    decreases lx.tokens.len() - i, 3int,
{
    if lx.is_kind(i, Kind::Name) {
        match parsed_field(lx, i) {
            Parsed::Failed(f) => Parsed::Failed(f),
            Parsed::Done(field, j) => Parsed::Done(SelectionModel::Field(field), j),
        }
    } else if lx.is_punct(i, "..."@) {
        parsed_fragment(lx, i + 1)
    } else {
        Parsed::Failed(lx.failure(i, texts(seq!["Name", "..."])))
    }
}

/// The selections from token `i` on, after the selections `acc`: as
/// many as there are. A selection takes at least one token, which the
/// last case relies on.
pub open spec fn parsed_selections(lx: Lexed, i: int, acc: Seq<SelectionModel>) -> Parsed<
    Seq<SelectionModel>,
>
    decreases lx.tokens.len() - i, 4int,
{
    if !starts_selection(lx, i) {
        Parsed::Done(acc, i)
    } else {
        match parsed_selection(lx, i) {
            Parsed::Failed(f) => Parsed::Failed(f),
            Parsed::Done(s, j) => if i < j <= lx.tokens.len() {
                parsed_selections(lx, j, acc.push(s))
            } else {
                Parsed::Done(acc.push(s), j)
            },
        }
    }
}

/// A selection set at token `i`: one selection or more between braces.
pub open spec fn parsed_selection_set(lx: Lexed, i: int) -> Parsed<SelectionSetModel>
    decreases lx.tokens.len() - i, 0int,
{
    if !lx.is_punct(i, "{"@) {
        Parsed::Failed(lx.failure(i, texts(seq!["{"])))
    } else if !starts_selection(lx, i + 1) {
        Parsed::Failed(lx.failure(i + 1, texts(seq!["Name", "..."])))
    } else {
        match parsed_selections(lx, i + 1, Seq::empty()) {
            Parsed::Failed(f) => Parsed::Failed(f),
            Parsed::Done(items, j) => if lx.is_punct(j, "}"@) {
                Parsed::Done(SelectionSetModel { span: (lx.pos(i), lx.pos(j)), items }, j + 1)
            } else {
                Parsed::Failed(lx.failure(j, texts(seq!["}"])))
            },
        }
    }
}

/// The definition of a variable at token `i`: `$`, a name, a colon and a
/// type, and a default where `=` follows.
pub open spec fn parsed_variable(lx: Lexed, i: int) -> Parsed<VariableDefinitionModel> {
    if !lx.is_punct(i, "$"@) {
        Parsed::Failed(lx.failure(i, texts(seq!["$"])))
    } else if !lx.is_kind(i + 1, Kind::Name) {
        Parsed::Failed(lx.failure(i + 1, texts(seq!["Name"])))
    } else if !lx.is_punct(i + 2, ":"@) {
        Parsed::Failed(lx.failure(i + 2, texts(seq![":"])))
    } else {
        match parsed_type(lx, i + 3) {
            Parsed::Failed(f) => Parsed::Failed(f),
            Parsed::Done(var_type, j) => if lx.is_punct(j, "="@) {
                match parsed_value(lx, j + 1, false) {
                    Parsed::Failed(f) => Parsed::Failed(f),
                    Parsed::Done(v, m) => Parsed::Done(
                        VariableDefinitionModel {
                            position: lx.pos(i),
                            name: lx.tokens[i + 1].text,
                            var_type,
                            default_value: Some(v),
                        },
                        m,
                    ),
                }
            } else {
                Parsed::Done(
                    VariableDefinitionModel {
                        position: lx.pos(i),
                        name: lx.tokens[i + 1].text,
                        var_type,
                        default_value: None,
                    },
                    j,
                )
            },
        }
    }
}

/// The definitions of variables from token `i` on, after the
/// definitions `acc`: as many as there are.
pub open spec fn parsed_variables(lx: Lexed, i: int, acc: Seq<VariableDefinitionModel>) -> Parsed<
    Seq<VariableDefinitionModel>,
>
    decreases lx.tokens.len() - i,
{
    if !lx.is_punct(i, "$"@) {
        Parsed::Done(acc, i)
    } else {
        match parsed_variable(lx, i) {
            Parsed::Failed(f) => Parsed::Failed(f),
            Parsed::Done(v, j) => if i < j <= lx.tokens.len() {
                parsed_variables(lx, j, acc.push(v))
            } else {
                Parsed::Done(acc.push(v), j)
            },
        }
    }
}

/// The definitions of variables at token `i`: none where no parenthesis
/// opens, and else one or more between parentheses.
pub open spec fn parsed_variable_definitions(lx: Lexed, i: int) -> Parsed<
    Seq<VariableDefinitionModel>,
> {
    if !lx.is_punct(i, "("@) {
        Parsed::Done(Seq::empty(), i)
    } else if !lx.is_punct(i + 1, "$"@) {
        Parsed::Failed(lx.failure(i + 1, texts(seq!["$"])))
    } else {
        match parsed_variables(lx, i + 1, Seq::empty()) {
            Parsed::Failed(f) => Parsed::Failed(f),
            Parsed::Done(vars, j) => if lx.is_punct(j, ")"@) {
                Parsed::Done(vars, j + 1)
            } else {
                Parsed::Failed(lx.failure(j, texts(seq!["$", ")"])))
            },
        }
    }
}

/// The model of what a query, a mutation and a subscription share: a
/// name, the definitions of variables, directives and a selection set.
pub struct CommonModel {
    pub name: Option<Seq<char>>,
    pub variable_definitions: Seq<VariableDefinitionModel>,
    pub directives: Seq<DirectiveModel>,
    pub selection_set: SelectionSetModel,
}

/// What a query, a mutation and a subscription share, from token `i`
/// on: a name, the definitions of variables and directives, as far as
/// they are there, and a selection set. Where none of them is there,
/// the failure names all that could have stood there.
pub open spec fn parsed_operation_common(lx: Lexed, i: int) -> Parsed<CommonModel> {
    let named = lx.is_kind(i, Kind::Name);
    let name = if named {
        Some(lx.tokens[i].text)
    } else {
        None
    };
    let k = if named {
        i + 1
    } else {
        i
    };
    match parsed_variable_definitions(lx, k) {
        Parsed::Failed(f) => Parsed::Failed(f),
        Parsed::Done(variable_definitions, j) => match parsed_directives(lx, j, Seq::empty()) {
            Parsed::Failed(f) => Parsed::Failed(f),
            Parsed::Done(directives, m) => if m == i && !lx.is_punct(m, "{"@) {
                Parsed::Failed(lx.failure(m, texts(seq!["{", "Name", "("])))
            } else {
                match parsed_selection_set(lx, m) {
                    Parsed::Failed(f) => Parsed::Failed(f),
                    Parsed::Done(selection_set, n) => Parsed::Done(
                        CommonModel { name, variable_definitions, directives, selection_set },
                        n,
                    ),
                }
            },
        },
    }
}

/// An operation at token `i` that begins with the keyword `keyword`.
pub open spec fn parsed_operation(lx: Lexed, i: int, keyword: &'static str) -> Parsed<
    OperationModel,
> {
    if lx.is_word(i, keyword@) {
        match parsed_operation_common(lx, i + 1) {
            Parsed::Failed(f) => Parsed::Failed(f),
            Parsed::Done(c, j) => Parsed::Done(
                OperationModel {
                    position: lx.pos(i),
                    name: c.name,
                    variable_definitions: c.variable_definitions,
                    directives: c.directives,
                    selection_set: c.selection_set,
                },
                j,
            ),
        }
    } else {
        Parsed::Failed(lx.failure(i, texts(seq![keyword])))
    }
}

/// The definition of an operation at token `i`: a selection set alone,
/// or a query, a mutation or a subscription with its keyword.
pub open spec fn parsed_operation_definition(lx: Lexed, i: int) -> Parsed<
    OperationDefinitionModel,
> {
    if lx.is_punct(i, "{"@) {
        match parsed_selection_set(lx, i) {
            Parsed::Failed(f) => Parsed::Failed(f),
            Parsed::Done(s, j) => Parsed::Done(OperationDefinitionModel::SelectionSet(s), j),
        }
    } else if lx.is_word(i, "query"@) {
        match parsed_operation(lx, i, "query") {
            Parsed::Failed(f) => Parsed::Failed(f),
            Parsed::Done(o, j) => Parsed::Done(OperationDefinitionModel::Query(o), j),
        }
    } else if lx.is_word(i, "mutation"@) {
        match parsed_operation(lx, i, "mutation") {
            Parsed::Failed(f) => Parsed::Failed(f),
            Parsed::Done(o, j) => Parsed::Done(OperationDefinitionModel::Mutation(o), j),
        }
    } else if lx.is_word(i, "subscription"@) {
        match parsed_operation(lx, i, "subscription") {
            Parsed::Failed(f) => Parsed::Failed(f),
            Parsed::Done(o, j) => Parsed::Done(OperationDefinitionModel::Subscription(o), j),
        }
    } else {
        Parsed::Failed(lx.failure(i, texts(seq!["{", "query", "mutation", "subscription"])))
    }
}

/// The definition of a fragment at token `i`: `fragment`, a name, `on`,
/// the name of a type, directives and a selection set.
pub open spec fn parsed_fragment_definition(lx: Lexed, i: int) -> Parsed<FragmentDefinitionModel> {
    if !lx.is_word(i, "fragment"@) {
        Parsed::Failed(lx.failure(i, texts(seq!["fragment"])))
    } else if !lx.is_kind(i + 1, Kind::Name) {
        Parsed::Failed(lx.failure(i + 1, texts(seq!["Name"])))
    } else if !lx.is_word(i + 2, "on"@) {
        Parsed::Failed(lx.failure(i + 2, texts(seq!["on"])))
    } else if !lx.is_kind(i + 3, Kind::Name) {
        Parsed::Failed(lx.failure(i + 3, texts(seq!["Name"])))
    } else {
        match parsed_directives(lx, i + 4, Seq::empty()) {
            Parsed::Failed(f) => Parsed::Failed(f),
            Parsed::Done(directives, j) => match parsed_selection_set(lx, j) {
                Parsed::Failed(f) => Parsed::Failed(f),
                Parsed::Done(selection_set, n) => Parsed::Done(
                    FragmentDefinitionModel {
                        position: lx.pos(i),
                        name: lx.tokens[i + 1].text,
                        type_condition: lx.tokens[i + 3].text,
                        directives,
                        selection_set,
                    },
                    n,
                ),
            },
        }
    }
}

/// Token `i` begins the definition of an operation.
pub open spec fn starts_operation(lx: Lexed, i: int) -> bool {
    lx.is_punct(i, "{"@) || lx.is_word(i, "query"@) || lx.is_word(i, "mutation"@) || lx.is_word(
        i,
        "subscription"@,
    )
}

/// Token `i` begins a definition.
pub open spec fn starts_definition(lx: Lexed, i: int) -> bool {
    starts_operation(lx, i) || lx.is_word(i, "fragment"@)
}

/// What is expected where a definition must stand.
pub open spec fn definition_expected() -> Seq<&'static str> {
    seq!["{", "query", "mutation", "subscription", "fragment"]
}

/// A definition at token `i`: of an operation or of a fragment.
pub open spec fn parsed_definition(lx: Lexed, i: int) -> Parsed<DefinitionModel> {
    if starts_operation(lx, i) {
        match parsed_operation_definition(lx, i) {
            Parsed::Failed(f) => Parsed::Failed(f),
            Parsed::Done(o, j) => Parsed::Done(DefinitionModel::Operation(o), j),
        }
    } else if lx.is_word(i, "fragment"@) {
        match parsed_fragment_definition(lx, i) {
            Parsed::Failed(f) => Parsed::Failed(f),
            Parsed::Done(d, j) => Parsed::Done(DefinitionModel::Fragment(d), j),
        }
    } else {
        Parsed::Failed(lx.failure(i, texts(definition_expected())))
    }
}

/// The definitions from token `i` on, after the definitions `acc`: as
/// many as there are.
pub open spec fn parsed_definitions(lx: Lexed, i: int, acc: Seq<DefinitionModel>) -> Parsed<
    Seq<DefinitionModel>,
>
    decreases lx.tokens.len() - i,
{
    if !starts_definition(lx, i) {
        Parsed::Done(acc, i)
    } else {
        match parsed_definition(lx, i) {
            Parsed::Failed(f) => Parsed::Failed(f),
            Parsed::Done(d, j) => if i < j <= lx.tokens.len() {
                parsed_definitions(lx, j, acc.push(d))
            } else {
                Parsed::Done(acc.push(d), j)
            },
        }
    }
}

/// The failure of a document behind whose definitions, at token `j`,
/// the source goes on. Where the tokenizer stops there for a fault of
/// its own, the failure does not say which.
pub open spec fn trailing_failure(lx: Lexed, j: int) -> Failure {
    Failure {
        position: lx.pos(j),
        errors: if 0 <= j < lx.tokens.len() {
            seq![lx.found(j), ErrorModel::Expected(InfoModel::Owned("end of input"@))]
        } else {
            seq![ErrorModel::Expected(InfoModel::Owned("end of input"@))]
        },
    }
}

/// The tokens `lx` as a document: one definition or more, and nothing
/// behind them.
pub open spec fn parsed_document(lx: Lexed) -> Result<DocumentModel, Failure> {
    if !starts_definition(lx, 0) {
        Err(lx.failure(0, texts(definition_expected())))
    } else {
        match parsed_definitions(lx, 0, Seq::empty()) {
            Parsed::Failed(f) => Err(f),
            Parsed::Done(definitions, j) => if j >= lx.tokens.len() && lx.ending
                == crate::tokenizer::ScanFault::EndOfInput {
                Ok(DocumentModel { definitions })
            } else {
                Err(trailing_failure(lx, j))
            },
        }
    }
}

/// What `s` is as a query document.
pub open spec fn query_document(s: Seq<char>) -> Result<DocumentModel, Failure> {
    parsed_document(lex(s))
}

/// The first definition of `s` and the offset in `s` of what follows it.
pub open spec fn first_definition(s: Seq<char>) -> Result<(DefinitionModel, int), Failure> {
    match parsed_definition(lex(s), 0) {
        Parsed::Failed(f) => Err(f),
        Parsed::Done(d, j) => Ok((d, lex(s).off(j))),
    }
}

/// The model of what a result holds of the parts that operations share.
pub open spec fn common_of(
    r: Result<
        (Option<String>, Vec<VariableDefinition>, Vec<Directive>, SelectionSet),
        crate::error::ParseError,
    >,
) -> Option<CommonModel> {
    match r {
        Ok(c) => Some(
            CommonModel {
                name: text_view(c.0),
                variable_definitions: variables_view(c.1@),
                directives: directives_view(c.2@),
                selection_set: c.3@,
            },
        ),
        Err(_) => None,
    }
}

/// The models of the definitions of variables that a result holds.
pub open spec fn variables_of(
    r: Result<Vec<VariableDefinition>, crate::error::ParseError>,
) -> Option<Seq<VariableDefinitionModel>> {
    match r {
        Ok(v) => Some(variables_view(v@)),
        Err(_) => None,
    }
}

/// Reads a field.
pub fn field<'a>(input: &mut Parser<'a>) -> (r: Result<Field, crate::error::ParseError>)
    requires
        old(input).ready(),
    ensures
        outcome(
            old(input),
            final(input),
            model_of(r),
            failure_of(r),
            parsed_field(old(input).lexed(), old(input).index()),
        ),
        r is Ok ==> final(input).index() > old(input).index(),
    decreases old(input).left(), 1int,
{
    if !input.at_kind(Kind::Name) {
        return Err(input.fail1("Name"));
    }
    let position = input.position();
    let first = input.take_text();
    let aliased = input.at_punct(":");
    let mut alias: Option<String> = None;
    let mut name = first;
    if aliased {
        input.bump();
        if !input.at_kind(Kind::Name) {
            return Err(input.fail1("Name"));
        }
        alias = Some(name);
        name = input.take_text();
    }
    let arguments = match arguments(input) {
        Ok(a) => a,
        Err(e) => {
            return Err(e);
        },
    };
    let directives = match directives(input) {
        Ok(d) => d,
        Err(e) => {
            return Err(e);
        },
    };
    let selection_set = if input.at_punct("{") {
        match selection_set(input) {
            Ok(s) => s,
            Err(e) => {
                return Err(e);
            },
        }
    } else {
        let s = SelectionSet { span: (position, position), items: Vec::new() };
        assert(s@.items =~= Seq::<SelectionModel>::empty());
        s
    };
    Ok(Field { position, alias, name, arguments, directives, selection_set })
}

/// Reads what follows the three dots of a selection: the rest of an
/// inline fragment or of a fragment spread.
fn fragment<'a>(input: &mut Parser<'a>) -> (r: Result<Selection, crate::error::ParseError>)
    requires
        old(input).ready(),
    ensures
        outcome(
            old(input),
            final(input),
            model_of(r),
            failure_of(r),
            parsed_fragment(old(input).lexed(), old(input).index()),
        ),
    decreases old(input).left(), 2int,
{
    let ghost start = input.index();
    let position = input.position();
    if input.at_word("on") {
        input.bump();
        if !input.at_kind(Kind::Name) {
            return Err(input.fail1("Name"));
        }
        let condition = TypeCondition::On(input.take_text());
        inline(input, position, Some(condition), Ghost(start))
    } else if input.at_punct("@") || input.at_punct("{") {
        inline(input, position, None, Ghost(start))
    } else if input.at_kind(Kind::Name) {
        let fragment_name = input.take_text();
        match directives(input) {
            Ok(directives) => Ok(
                Selection::FragmentSpread(FragmentSpread { position, fragment_name, directives }),
            ),
            Err(e) => Err(e),
        }
    } else {
        let v = vec!["{", "on", "Name"];
        assert(v@ =~= seq!["{", "on", "Name"]);
        Err(input.fail(v))
    }
}

/// The model of an optional type condition.
pub open spec fn condition_view(c: Option<TypeCondition>) -> Option<Seq<char>> {
    match c {
        Some(TypeCondition::On(name)) => Some(name@),
        None => None,
    }
}

/// Reads an inline fragment from its directives on; it began at token
/// `k`, at position `position`.
fn inline<'a>(
    input: &mut Parser<'a>,
    position: Pos,
    type_condition: Option<TypeCondition>,
    Ghost(k): Ghost<int>,
) -> (r: Result<Selection, crate::error::ParseError>)
    requires
        old(input).ready(),
        old(input).left() >= 0,
        k <= old(input).index(),
        position == old(input).lexed().pos(k),
    ensures
        outcome(
            old(input),
            final(input),
            model_of(r),
            failure_of(r),
            parsed_inline(
                old(input).lexed(),
                k,
                condition_view(type_condition),
                old(input).index(),
            ),
        ),
    decreases old(input).left(), 1int,
{
    let directives = match directives(input) {
        Ok(d) => d,
        Err(e) => {
            return Err(e);
        },
    };
    match selection_set(input) {
        Ok(selection_set) => Ok(
            Selection::InlineFragment(
                InlineFragment { position, type_condition, directives, selection_set },
            ),
        ),
        Err(e) => Err(e),
    }
}

/// Reads a selection.
pub fn selection<'a>(input: &mut Parser<'a>) -> (r: Result<Selection, crate::error::ParseError>)
    requires
        old(input).ready(),
    ensures
        outcome(
            old(input),
            final(input),
            model_of(r),
            failure_of(r),
            parsed_selection(old(input).lexed(), old(input).index()),
        ),
        r is Ok ==> final(input).index() > old(input).index(),
    decreases old(input).left(), 3int,
{
    if input.at_kind(Kind::Name) {
        match field(input) {
            Ok(f) => Ok(Selection::Field(f)),
            Err(e) => Err(e),
        }
    } else if input.at_punct("...") {
        input.bump();
        fragment(input)
    } else {
        Err(input.fail2("Name", "..."))
    }
}

/// Whether the next token begins a selection.
fn at_selection<'a>(input: &Parser<'a>) -> (b: bool)
    requires
        input.ready(),
    ensures
        b == starts_selection(input.lexed(), input.index()),
{
    input.at_kind(Kind::Name) || input.at_punct("...")
}

/// Reads a selection set.
#[verifier::loop_isolation(false)]
pub fn selection_set<'a>(input: &mut Parser<'a>) -> (r: Result<
    SelectionSet,
    crate::error::ParseError,
>)
    requires
        old(input).ready(),
    ensures
        outcome(
            old(input),
            final(input),
            model_of(r),
            failure_of(r),
            parsed_selection_set(old(input).lexed(), old(input).index()),
        ),
        r is Ok ==> final(input).index() > old(input).index(),
    decreases old(input).left(), 0int,
{
    let ghost lx = input.lexed();
    let ghost start = input.index();
    if !input.at_punct("{") {
        return Err(input.fail1("{"));
    }
    let open = input.position();
    input.bump();
    if !at_selection(input) {
        return Err(input.fail2("Name", "..."));
    }
    let mut items: Vec<Selection> = Vec::new();
    assert(selections_view(items@) =~= Seq::<SelectionModel>::empty());
    while at_selection(input)
        invariant
            input.moved(old(input), input.index()),
            start < input.index(),
            parsed_selections(lx, start + 1, Seq::empty()) == parsed_selections(
                lx,
                input.index(),
                selections_view(items@),
            ),
        decreases input.left(),
    {
        let ghost before = selections_view(items@);
        match selection(input) {
            Ok(s) => {
                items.push(s);
                assert(selections_view(items@) =~= before.push(s@));
            },
            Err(e) => {
                return Err(e);
            },
        }
    }
    if !input.at_punct("}") {
        return Err(input.fail1("}"));
    }
    let close = input.position();
    input.bump();
    Ok(SelectionSet { span: (open, close), items })
}

/// Reads the definition of a variable.
fn variable<'a>(input: &mut Parser<'a>) -> (r: Result<
    VariableDefinition,
    crate::error::ParseError,
>)
    requires
        old(input).ready(),
    ensures
        outcome(
            old(input),
            final(input),
            model_of(r),
            failure_of(r),
            parsed_variable(old(input).lexed(), old(input).index()),
        ),
        r is Ok ==> final(input).index() > old(input).index(),
{
    if !input.at_punct("$") {
        return Err(input.fail1("$"));
    }
    let position = input.position();
    input.bump();
    if !input.at_kind(Kind::Name) {
        return Err(input.fail1("Name"));
    }
    let name = input.take_text();
    if !input.at_punct(":") {
        return Err(input.fail1(":"));
    }
    input.bump();
    let var_type = match parse_type(input) {
        Ok(t) => t,
        Err(e) => {
            return Err(e);
        },
    };
    let default = if input.at_punct("=") {
        input.bump();
        match default_value(input) {
            Ok(v) => Some(v),
            Err(e) => {
                return Err(e);
            },
        }
    } else {
        None
    };
    Ok(VariableDefinition { position, name, var_type, default_value: default })
}

/// Reads the definitions of variables: none where no parenthesis
/// opens, and else one or more between parentheses.
#[verifier::loop_isolation(false)]
fn variable_definitions<'a>(input: &mut Parser<'a>) -> (r: Result<
    Vec<VariableDefinition>,
    crate::error::ParseError,
>)
    requires
        old(input).ready(),
    ensures
        outcome(
            old(input),
            final(input),
            variables_of(r),
            failure_of(r),
            parsed_variable_definitions(old(input).lexed(), old(input).index()),
        ),
        r is Ok && old(input).lexed().is_punct(old(input).index(), "("@) ==> final(input).index()
            > old(input).index(),
{
    let ghost lx = input.lexed();
    let ghost start = input.index();
    let mut vars: Vec<VariableDefinition> = Vec::new();
    assert(variables_view(vars@) =~= Seq::<VariableDefinitionModel>::empty());
    if !input.at_punct("(") {
        return Ok(vars);
    }
    input.bump();
    if !input.at_punct("$") {
        return Err(input.fail1("$"));
    }
    while input.at_punct("$")
        invariant
            input.moved(old(input), input.index()),
            start < input.index(),
            parsed_variables(lx, start + 1, Seq::empty()) == parsed_variables(
                lx,
                input.index(),
                variables_view(vars@),
            ),
        decreases input.left(),
    {
        let ghost before = variables_view(vars@);
        match variable(input) {
            Ok(v) => {
                vars.push(v);
                assert(variables_view(vars@) =~= before.push(v@));
            },
            Err(e) => {
                return Err(e);
            },
        }
    }
    if !input.at_punct(")") {
        return Err(input.fail2("$", ")"));
    }
    input.bump();
    Ok(vars)
}

/// Reads what a query, a mutation and a subscription share: a name,
/// the definitions of variables, directives and a selection set.
pub fn operation_common<'a>(input: &mut Parser<'a>) -> (r: Result<
    (Option<String>, Vec<VariableDefinition>, Vec<Directive>, SelectionSet),
    crate::error::ParseError,
>)
    requires
        old(input).ready(),
    ensures
        outcome(
            old(input),
            final(input),
            common_of(r),
            failure_of(r),
            parsed_operation_common(old(input).lexed(), old(input).index()),
        ),
        r is Ok ==> final(input).index() > old(input).index(),
{
    let ghost start = input.index();
    let mut consumed = false;
    let name = if input.at_kind(Kind::Name) {
        consumed = true;
        Some(input.take_text())
    } else {
        None
    };
    if input.at_punct("(") {
        consumed = true;
    }
    let vars = match variable_definitions(input) {
        Ok(v) => v,
        Err(e) => {
            return Err(e);
        },
    };
    if input.at_punct("@") {
        consumed = true;
    }
    proof {
        crate::common::directives_start(input.lexed(), input.index());
    }
    let directives = match directives(input) {
        Ok(d) => d,
        Err(e) => {
            return Err(e);
        },
    };
    if !consumed && !input.at_punct("{") {
        let v = vec!["{", "Name", "("];
        assert(v@ =~= seq!["{", "Name", "("]);
        return Err(input.fail(v));
    }
    match selection_set(input) {
        Ok(s) => Ok((name, vars, directives, s)),
        Err(e) => Err(e),
    }
}

/// Reads a query that begins with its keyword.
pub fn query<'a>(input: &mut Parser<'a>) -> (r: Result<Query, crate::error::ParseError>)
    requires
        old(input).ready(),
    ensures
        outcome(
            old(input),
            final(input),
            model_of(r),
            failure_of(r),
            parsed_operation(old(input).lexed(), old(input).index(), "query"),
        ),
        r is Ok ==> final(input).index() > old(input).index(),
{
    if !input.at_word("query") {
        return Err(input.fail1("query"));
    }
    let position = input.position();
    input.bump();
    match operation_common(input) {
        Ok(c) => Ok(
            Query {
                position,
                name: c.0,
                variable_definitions: c.1,
                directives: c.2,
                selection_set: c.3,
            },
        ),
        Err(e) => Err(e),
    }
}

/// Reads a mutation.
pub fn mutation<'a>(input: &mut Parser<'a>) -> (r: Result<Mutation, crate::error::ParseError>)
    requires
        old(input).ready(),
    ensures
        outcome(
            old(input),
            final(input),
            model_of(r),
            failure_of(r),
            parsed_operation(old(input).lexed(), old(input).index(), "mutation"),
        ),
        r is Ok ==> final(input).index() > old(input).index(),
{
    if !input.at_word("mutation") {
        return Err(input.fail1("mutation"));
    }
    let position = input.position();
    input.bump();
    match operation_common(input) {
        Ok(c) => Ok(
            Mutation {
                position,
                name: c.0,
                variable_definitions: c.1,
                directives: c.2,
                selection_set: c.3,
            },
        ),
        Err(e) => Err(e),
    }
}

/// Reads a subscription.
pub fn subscription<'a>(input: &mut Parser<'a>) -> (r: Result<
    Subscription,
    crate::error::ParseError,
>)
    requires
        old(input).ready(),
    ensures
        outcome(
            old(input),
            final(input),
            model_of(r),
            failure_of(r),
            parsed_operation(old(input).lexed(), old(input).index(), "subscription"),
        ),
        r is Ok ==> final(input).index() > old(input).index(),
{
    if !input.at_word("subscription") {
        return Err(input.fail1("subscription"));
    }
    let position = input.position();
    input.bump();
    match operation_common(input) {
        Ok(c) => Ok(
            Subscription {
                position,
                name: c.0,
                variable_definitions: c.1,
                directives: c.2,
                selection_set: c.3,
            },
        ),
        Err(e) => Err(e),
    }
}

/// Reads the definition of an operation.
pub fn operation_definition<'a>(input: &mut Parser<'a>) -> (r: Result<
    OperationDefinition,
    crate::error::ParseError,
>)
    requires
        old(input).ready(),
    ensures
        outcome(
            old(input),
            final(input),
            model_of(r),
            failure_of(r),
            parsed_operation_definition(old(input).lexed(), old(input).index()),
        ),
        r is Ok ==> final(input).index() > old(input).index(),
{
    if input.at_punct("{") {
        match selection_set(input) {
            Ok(s) => Ok(OperationDefinition::SelectionSet(s)),
            Err(e) => Err(e),
        }
    } else if input.at_word("query") {
        match query(input) {
            Ok(q) => Ok(OperationDefinition::Query(q)),
            Err(e) => Err(e),
        }
    } else if input.at_word("mutation") {
        match mutation(input) {
            Ok(m) => Ok(OperationDefinition::Mutation(m)),
            Err(e) => Err(e),
        }
    } else if input.at_word("subscription") {
        match subscription(input) {
            Ok(s) => Ok(OperationDefinition::Subscription(s)),
            Err(e) => Err(e),
        }
    } else {
        let v = vec!["{", "query", "mutation", "subscription"];
        assert(v@ =~= seq!["{", "query", "mutation", "subscription"]);
        Err(input.fail(v))
    }
}

/// Reads the definition of a fragment.
pub fn fragment_definition<'a>(input: &mut Parser<'a>) -> (r: Result<
    FragmentDefinition,
    crate::error::ParseError,
>)
    requires
        old(input).ready(),
    ensures
        outcome(
            old(input),
            final(input),
            model_of(r),
            failure_of(r),
            parsed_fragment_definition(old(input).lexed(), old(input).index()),
        ),
        r is Ok ==> final(input).index() > old(input).index(),
{
    if !input.at_word("fragment") {
        return Err(input.fail1("fragment"));
    }
    let position = input.position();
    input.bump();
    if !input.at_kind(Kind::Name) {
        return Err(input.fail1("Name"));
    }
    let name = input.take_text();
    if !input.at_word("on") {
        return Err(input.fail1("on"));
    }
    input.bump();
    if !input.at_kind(Kind::Name) {
        return Err(input.fail1("Name"));
    }
    let type_condition = TypeCondition::On(input.take_text());
    let directives = match directives(input) {
        Ok(d) => d,
        Err(e) => {
            return Err(e);
        },
    };
    match selection_set(input) {
        Ok(selection_set) => Ok(
            FragmentDefinition { position, name, type_condition, directives, selection_set },
        ),
        Err(e) => Err(e),
    }
}

/// Whether the next token begins the definition of an operation.
fn at_operation<'a>(input: &Parser<'a>) -> (b: bool)
    requires
        input.ready(),
    ensures
        b == starts_operation(input.lexed(), input.index()),
{
    input.at_punct("{") || input.at_word("query") || input.at_word("mutation") || input.at_word(
        "subscription",
    )
}

/// Whether the next token begins a definition.
fn at_definition<'a>(input: &Parser<'a>) -> (b: bool)
    requires
        input.ready(),
    ensures
        b == starts_definition(input.lexed(), input.index()),
{
    at_operation(input) || input.at_word("fragment")
}

/// The failure of a grammar that finds no definition where the reader
/// stands.
fn fail_definition<'a>(input: &Parser<'a>) -> (e: crate::error::ParseError)
    requires
        input.ready(),
    ensures
        e@ == input.lexed().failure(input.index(), texts(definition_expected())),
{
    let v = vec!["{", "query", "mutation", "subscription", "fragment"];
    assert(v@ =~= definition_expected());
    input.fail(v)
}

/// Reads a definition.
pub fn definition<'a>(input: &mut Parser<'a>) -> (r: Result<Definition, crate::error::ParseError>)
    requires
        old(input).ready(),
    ensures
        outcome(
            old(input),
            final(input),
            model_of(r),
            failure_of(r),
            parsed_definition(old(input).lexed(), old(input).index()),
        ),
        r is Ok ==> final(input).index() > old(input).index(),
{
    if at_operation(input) {
        match operation_definition(input) {
            Ok(o) => Ok(Definition::Operation(o)),
            Err(e) => Err(e),
        }
    } else if input.at_word("fragment") {
        match fragment_definition(input) {
            Ok(f) => Ok(Definition::Fragment(f)),
            Err(e) => Err(e),
        }
    } else {
        Err(fail_definition(input))
    }
}

/// The failure of a document behind whose definitions the source goes
/// on.
pub(crate) fn fail_trailing<'a>(input: &Parser<'a>) -> (e: crate::error::ParseError)
    requires
        input.ready(),
    ensures
        e@ == trailing_failure(input.lexed(), input.index()),
{
    let mut errors: Vec<Error> = Vec::new();
    let expected = Error::Expected(Info::Owned(String::from_str("end of input")));
    if input.has_token() {
        let found = input.found();
        errors.push(found);
        errors.push(expected);
        let e = crate::error::ParseError { position: input.position(), errors };
        assert(e@.errors =~= seq![found@, expected@]);
        e
    } else {
        errors.push(expected);
        let e = crate::error::ParseError { position: input.position(), errors };
        assert(e@.errors =~= seq![expected@]);
        e
    }
}

/// The models of the definitions that a result holds.
pub open spec fn definitions_of(r: Result<Vec<Definition>, crate::error::ParseError>) -> Option<
    Seq<DefinitionModel>,
> {
    match r {
        Ok(v) => Some(definitions_view(v@)),
        Err(_) => None,
    }
}

/// Reads definitions: as many as there are.
#[verifier::loop_isolation(false)]
fn definitions<'a>(input: &mut Parser<'a>) -> (r: Result<
    Vec<Definition>,
    crate::error::ParseError,
>)
    requires
        old(input).ready(),
    ensures
        outcome(
            old(input),
            final(input),
            definitions_of(r),
            failure_of(r),
            parsed_definitions(old(input).lexed(), old(input).index(), Seq::empty()),
        ),
{
    let ghost lx = input.lexed();
    let ghost start = input.index();
    let mut list: Vec<Definition> = Vec::new();
    assert(definitions_view(list@) =~= Seq::<DefinitionModel>::empty());
    while at_definition(input)
        invariant
            input.moved(old(input), input.index()),
            start <= input.index(),
            parsed_definitions(lx, start, Seq::empty()) == parsed_definitions(
                lx,
                input.index(),
                definitions_view(list@),
            ),
        decreases input.left(),
    {
        let ghost before = definitions_view(list@);
        match definition(input) {
            Ok(d) => {
                list.push(d);
                assert(definitions_view(list@) =~= before.push(d@));
            },
            Err(e) => {
                return Err(e);
            },
        }
    }
    Ok(list)
}

/// Parses a query document: one definition or more, with nothing but
/// what the tokenizer ignores behind them.
pub fn parse_query(s: &str) -> (r: Result<Document, ParseError>)
    ensures
        match query_document(s@) {
            Ok(d) => r is Ok && r->Ok_0@ == d,
            Err(f) => r is Err && r->Err_0@ == f,
        },
{
    let mut input = Parser::new(s);
    if !at_definition(&input) {
        return Err(ParseError(fail_definition(&input)));
    }
    let definitions = match definitions(&mut input) {
        Ok(d) => d,
        Err(e) => {
            return Err(ParseError(e));
        },
    };
    if input.at_end() {
        Ok(Document { definitions })
    } else {
        Err(ParseError(fail_trailing(&input)))
    }
}

/// Parses the first definition of `s` and gives it with the rest of
/// `s`: what follows the definition and what the tokenizer ignores
/// behind it.
pub fn consume_definition<'a>(s: &'a str) -> (r: Result<(Definition, &'a str), ParseError>)
    ensures
        match first_definition(s@) {
            Ok((d, off)) => r is Ok && r->Ok_0.0@ == d && 0 <= off <= s@.len() && r->Ok_0.1@
                == s@.skip(off),
            Err(f) => r is Err && r->Err_0@ == f,
        },
{
    let mut input = Parser::new(s);
    match definition(&mut input) {
        Ok(d) => {
            let off = input.offset();
            let n = s.unicode_len();
            let rest = s.substring_char(off, n);
            assert(s@.subrange(off as int, n as int) =~= s@.skip(off as int));
            Ok((d, rest))
        },
        Err(e) => Err(ParseError(e)),
    }
}

} // verus!
