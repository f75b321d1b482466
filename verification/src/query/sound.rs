//! What the grammar gives is fit to be written and read back: the
//! names of a document that the grammar gave are names, its floats
//! float literals, its objects in order, and it nests no deeper than
//! the tokenizer allows.

use vstd::prelude::*;
use crate::position::Pos;
use crate::number::{is_digit, is_float_literal};
use crate::tokenizer::{
    Kind, Cursor, Step, Scanned, ScanFault, step, scan_token, is_punct, opens, closes,
    is_name_start, is_name_char, name_end, number_end, ends_number, step_advances, last_dot,
    last_exponent, name_end_bounds, number_end_bounds,
};
use crate::parser::{Lexed, Lexeme, Parsed, lex, lex_from};
use crate::unquote::{unquoted, block_value};
use crate::common::{
    DirectiveModel, TypeModel, ValueModel, parsed_value, parsed_values, parsed_fields,
    parsed_plain, parsed_pairs, parsed_arguments, parsed_directives, parsed_type, non_null,
    starts_plain, starts_value, put, slot, text_lt, text_lt_at, value_advances, block_body,
};
use crate::rescan::{
    cursor_at, is_name, is_float_text, depth_after, punctuators, aligned, aligned_start,
};
use crate::query::shape::{
    fit_value, fit_type, fit_arguments, fit_directives, legible, is_enum_name, in_order,
};
use crate::query::reread::{value_words, unlike, word_on, definition_words};
use crate::query::shape::{
    fit_selection, fit_selections, fit_block, fit_variable, fit_operation, fit_definition,
    fit_document,
};
use crate::query::ast::{
    DefinitionModel, DocumentModel, FieldModel, FragmentDefinitionModel, FragmentSpreadModel,
    InlineFragmentModel, OperationDefinitionModel, OperationModel, SelectionModel,
    SelectionSetModel, VariableDefinitionModel,
};
use crate::query::grammar::{
    parsed_field, parsed_fragment, parsed_inline, parsed_selection, parsed_selections,
    parsed_selection_set, starts_selection, no_selection_set, parsed_variable,
    parsed_variables, parsed_variable_definitions, parsed_operation_common, parsed_operation,
    parsed_operation_definition, parsed_fragment_definition, parsed_definition,
    parsed_definitions, parsed_document, query_document, starts_operation, starts_definition,
    CommonModel,
};

verus! {

/// The tokenizer reaches token `i` of the tokens `lx` of `s`, or their
/// end, with the depth `depth`.
pub open spec fn reached(s: Seq<char>, lx: Lexed, i: int, depth: usize) -> bool {
    0 <= i <= lx.tokens.len() && lex_from(s, cursor_at(lx, i, depth)) == lx.from(i)
}

/// The string that a token stands for is legible, if the token is a
/// string.
pub open spec fn token_legible(t: Lexeme) -> bool {
    &&& (t.kind == Kind::StringValue ==> match unquoted(t.text) {
        Ok(x) => legible(x),
        Err(_) => true,
    })
    &&& (t.kind == Kind::BlockString ==> legible(
        block_value(t.text.subrange(3, t.text.len() - 3)),
    ))
}

/// The strings of a source are legible: each is read back as it was
/// when it is written as a literal.
pub open spec fn strings_legible(lx: Lexed) -> bool {
    forall|i: int| 0 <= i < lx.tokens.len() ==> token_legible(#[trigger] lx.tokens[i])
}

/// The depth that is left behind a token.
pub open spec fn depth_behind(t: Lexeme, depth: usize) -> usize {
    if t.kind == Kind::Punctuator && t.text.len() == 1 {
        depth_after(t.text[0], depth)
    } else {
        depth
    }
}

/// The characters of a name are characters of names.
pub proof fn name_end_chars(s: Seq<char>, from: int)
    requires
        0 <= from <= s.len(),
    ensures
        forall|k: int| from <= k < name_end(s, from) ==> is_name_char(#[trigger] s[k]),
    decreases s.len() - from,
{
    if from < s.len() && is_name_char(s[from]) {
        name_end_chars(s, from + 1);
    }
}

/// The characters of a number end no number.
pub proof fn number_end_chars(s: Seq<char>, from: int)
    requires
        0 <= from <= s.len(),
    ensures
        forall|k: int| from <= k < number_end(s, from) ==> !ends_number(#[trigger] s[k]),
    decreases s.len() - from,
{
    if from < s.len() && !ends_number(s[from]) {
        number_end_chars(s, from + 1);
    }
}

/// What is known of a token that the tokenizer reaches: a name is a
/// name, a float the text of a float, a punctuator one of them; a
/// bracket opens only where depth is left; and the tokenizer reaches
/// the next token with the depth that is left behind this one.
pub proof fn token_known(s: Seq<char>, lx: Lexed, i: int, depth: usize)
    requires
        reached(s, lx, i, depth),
        i < lx.tokens.len(),
    ensures
        lx.tokens[i].text.len() >= 1,
        lx.tokens[i].kind == Kind::Name ==> is_name(lx.tokens[i].text),
        lx.tokens[i].kind == Kind::FloatValue ==> is_float_text(lx.tokens[i].text),
        lx.tokens[i].kind == Kind::Punctuator ==> (lx.tokens[i].text.len() == 1 && is_punct(
            lx.tokens[i].text[0],
        )) || lx.tokens[i].text == seq!['.', '.', '.'],
        lx.tokens[i].kind == Kind::Punctuator && opens(lx.tokens[i].text[0]) ==> depth >= 1,
        reached(s, lx, i + 1, depth_behind(lx.tokens[i], depth)),
{
    let c = cursor_at(lx, i, depth);
    let whole = lex_from(s, c);
    assert(whole == lx.from(i));
    assert(whole.tokens.len() >= 1);
    assert(step(s, c) is Token);
    step_advances(s, c);
    let end = step(s, c)->end;
    let next = step(s, c)->next;
    let kind = step(s, c)->kind;
    let rest = lex_from(s, next);
    assert(whole.tokens[0] == lx.tokens[i]);
    assert(whole.tokens.skip(1) =~= rest.tokens);
    assert(lx.tokens.skip(i + 1) =~= whole.tokens.skip(1));
    assert(rest == lx.from(i + 1));
    assert(lx.off(i + 1) == next.off && lx.pos(i + 1) == next.position) by {
        if i + 1 < lx.tokens.len() {
            assert(rest.tokens[0] == lx.tokens[i + 1]);
        }
    }
    let off = c.off;
    let t = s.subrange(off, end);
    assert(lx.tokens[i].text == t);
    assert(t[0] == s[off]);
    if kind == Kind::Name {
        name_end_bounds(s, off + 1);
        name_end_chars(s, off + 1);
        assert forall|k: int| 0 <= k < t.len() implies is_name_char(#[trigger] t[k]) by {
            assert(t[k] == s[off + k]);
        }
    }
    if kind == Kind::FloatValue {
        number_end_bounds(s, off + 1);
        number_end_chars(s, off + 1);
        assert forall|k: int| 0 <= k < t.len() implies !ends_number(#[trigger] t[k]) by {
            assert(t[k] == s[off + k]);
        }
    }
    if kind == Kind::Punctuator {
        if s[off] == '.' {
            assert(t =~= seq!['.', '.', '.']);
        } else {
            assert(t =~= seq![s[off]]);
        }
    }
}

/// The order of names: of two names that differ, one stands before the
/// other.
pub proof fn text_lt_either(a: Seq<char>, b: Seq<char>, i: int)
    requires
        0 <= i <= a.len(),
        i <= b.len(),
        a.skip(i) != b.skip(i),
    ensures
        text_lt_at(a, b, i) || text_lt_at(b, a, i),
    decreases a.len() - i,
{
    if i >= b.len() {
        assert(b.skip(i) =~= Seq::<char>::empty());
        if i >= a.len() {
            assert(a.skip(i) =~= Seq::<char>::empty());
        }
    } else if i >= a.len() {
    } else if a[i] != b[i] {
    } else {
        if a.skip(i + 1) == b.skip(i + 1) {
            assert(a.skip(i) =~= seq![a[i]] + a.skip(i + 1));
            assert(b.skip(i) =~= seq![b[i]] + b.skip(i + 1));
        }
        text_lt_either(a, b, i + 1);
    }
}

/// The order of names: what stands before a name that stands before
/// another stands before that one.
pub proof fn text_lt_chain(a: Seq<char>, b: Seq<char>, c: Seq<char>, i: int)
    requires
        0 <= i,
        text_lt_at(a, b, i),
        text_lt_at(b, c, i),
    ensures
        text_lt_at(a, c, i),
    decreases a.len() - i,
{
    if i < a.len() && i < b.len() && i < c.len() && a[i] == b[i] && b[i] == c[i] {
        text_lt_chain(a, b, c, i + 1);
    }
}

/// Where the names of an object stand in their order, the place of a
/// name among them is behind all names that stand before it.
proof fn slot_known(obj: Seq<(Seq<char>, ValueModel)>, key: Seq<char>, i: int)
    requires
        0 <= i <= obj.len(),
        forall|k: int| 0 <= k < i ==> text_lt((#[trigger] obj[k]).0, key),
    ensures
        i <= slot(obj, key, i) <= obj.len(),
        forall|k: int| 0 <= k < slot(obj, key, i) ==> text_lt((#[trigger] obj[k]).0, key),
        slot(obj, key, i) < obj.len() ==> !text_lt(obj[slot(obj, key, i)].0, key),
    decreases obj.len() - i,
{
    if i < obj.len() && text_lt(obj[i].0, key) {
        slot_known(obj, key, i + 1);
    }
}

/// An object whose names stand in their order keeps them in order when
/// a field is put into it.
pub proof fn put_in_order(obj: Seq<(Seq<char>, ValueModel)>, key: Seq<char>, v: ValueModel)
    requires
        in_order(obj),
    ensures
        in_order(put(obj, key, v)),
        put(obj, key, v).len() >= 1,
        forall|k: int|
            0 <= k < put(obj, key, v).len() ==> (#[trigger] put(obj, key, v)[k] == (key, v) || (
            exists|m: int| 0 <= m < obj.len() && put(obj, key, v)[k] == obj[m])),
{
    let p = slot(obj, key, 0);
    slot_known(obj, key, 0);
    let r = put(obj, key, v);
    if p < obj.len() && obj[p].0 == key {
        assert forall|a: int, b: int| 0 <= a < b < r.len() implies text_lt(
            (#[trigger] r[a]).0,
            (#[trigger] r[b]).0,
        ) by {
            assert(r[a].0 == obj[a].0);
            assert(r[b].0 == obj[b].0);
        }
        assert forall|k: int| 0 <= k < r.len() implies (#[trigger] r[k] == (key, v) || (exists|
            m: int,
        |
            0 <= m < obj.len() && r[k] == obj[m])) by {
            if k != p {
                assert(r[k] == obj[k]);
            }
        }
    } else {
        assert(r == obj.insert(p, (key, v)));
        if p < obj.len() {
            assert(obj[p].0.skip(0) =~= obj[p].0);
            assert(key.skip(0) =~= key);
            text_lt_either(obj[p].0, key, 0);
        }
        assert forall|a: int, b: int| 0 <= a < b < r.len() implies text_lt(
            (#[trigger] r[a]).0,
            (#[trigger] r[b]).0,
        ) by {
            if b < p {
                assert(r[a] == obj[a] && r[b] == obj[b]);
            } else if b == p {
                assert(r[a] == obj[a]);
            } else if a < p {
                assert(r[a] == obj[a] && r[b] == obj[b - 1]);
            } else if a == p {
                assert(r[b] == obj[b - 1]);
                if b - 1 > p {
                    text_lt_chain(key, obj[p].0, obj[b - 1].0, 0);
                }
            } else {
                assert(r[a] == obj[a - 1] && r[b] == obj[b - 1]);
            }
        }
        assert forall|k: int| 0 <= k < r.len() implies (#[trigger] r[k] == (key, v) || (exists|
            m: int,
        |
            0 <= m < obj.len() && r[k] == obj[m])) by {
            if k < p {
                assert(r[k] == obj[k]);
            } else if k > p {
                assert(r[k] == obj[k - 1]);
            }
        }
    }
}

/// A value that the grammar gives is fit, and behind it the depth is
/// what it was before it.
pub proof fn value_sound(s: Seq<char>, lx: Lexed, i: int, depth: usize, vars: bool)
    requires
        reached(s, lx, i, depth),
        strings_legible(lx),
        parsed_value(lx, i, vars) is Done,
    ensures
        fit_value(parsed_value(lx, i, vars)->Done_0, vars, depth as int),
        reached(s, lx, parsed_value(lx, i, vars)->Done_1, depth),
        i < parsed_value(lx, i, vars)->Done_1,
    decreases lx.tokens.len() - i, 0int,
{
    punctuators();
    value_words();
    value_advances(lx, i, vars);
    if starts_plain(lx, i) {
        token_known(s, lx, i, depth);
        assert(token_legible(lx.tokens[i]));
        if lx.is_kind(i, Kind::BlockString) {
            assert(block_body(lx, i) == lx.tokens[i].text.subrange(
                3,
                lx.tokens[i].text.len() - 3,
            ));
        }
    } else if vars && lx.is_punct(i, "$"@) {
        token_known(s, lx, i, depth);
        token_known(s, lx, i + 1, depth);
    } else if lx.is_punct(i, "["@) {
        token_known(s, lx, i, depth);
        let d = (depth - 1) as usize;
        values_sound(s, lx, i + 1, d, vars, Seq::empty());
        let j = parsed_values(lx, i + 1, vars, Seq::empty())->Done_1;
        token_known(s, lx, j, d);
    } else if lx.is_punct(i, "{"@) {
        token_known(s, lx, i, depth);
        let d = (depth - 1) as usize;
        fields_sound(s, lx, i + 1, d, vars, Seq::empty());
        let j = parsed_fields(lx, i + 1, vars, Seq::empty())->Done_1;
        token_known(s, lx, j, d);
    }
}

/// The values that the grammar gives are fit.
pub proof fn values_sound(
    s: Seq<char>,
    lx: Lexed,
    i: int,
    depth: usize,
    vars: bool,
    acc: Seq<ValueModel>,
)
    requires
        reached(s, lx, i, depth),
        strings_legible(lx),
        parsed_values(lx, i, vars, acc) is Done,
        forall|k: int| 0 <= k < acc.len() ==> fit_value(#[trigger] acc[k], vars, depth as int),
    ensures
        forall|k: int|
            0 <= k < parsed_values(lx, i, vars, acc)->Done_0.len() ==> fit_value(
                #[trigger] parsed_values(lx, i, vars, acc)->Done_0[k],
                vars,
                depth as int,
            ),
        reached(s, lx, parsed_values(lx, i, vars, acc)->Done_1, depth),
    decreases lx.tokens.len() - i, 1int,
{
    if starts_value(lx, i, vars) {
        value_sound(s, lx, i, depth, vars);
        let v = parsed_value(lx, i, vars)->Done_0;
        let j = parsed_value(lx, i, vars)->Done_1;
        let next = acc.push(v);
        assert forall|k: int| 0 <= k < next.len() implies fit_value(
            #[trigger] next[k],
            vars,
            depth as int,
        ) by {
            if k < acc.len() {
                assert(next[k] == acc[k]);
            }
        }
        values_sound(s, lx, j, depth, vars, next);
    }
}

/// The fields of an object that the grammar gives are fit and in
/// order.
pub proof fn fields_sound(
    s: Seq<char>,
    lx: Lexed,
    i: int,
    depth: usize,
    vars: bool,
    acc: Seq<(Seq<char>, ValueModel)>,
)
    requires
        reached(s, lx, i, depth),
        strings_legible(lx),
        parsed_fields(lx, i, vars, acc) is Done,
        in_order(acc),
        forall|k: int|
            0 <= k < acc.len() ==> is_name((#[trigger] acc[k]).0) && fit_value(
                acc[k].1,
                vars,
                depth as int,
            ),
    ensures
        in_order(parsed_fields(lx, i, vars, acc)->Done_0),
        forall|k: int|
            0 <= k < parsed_fields(lx, i, vars, acc)->Done_0.len() ==> is_name(
                (#[trigger] parsed_fields(lx, i, vars, acc)->Done_0[k]).0,
            ) && fit_value(parsed_fields(lx, i, vars, acc)->Done_0[k].1, vars, depth as int),
        reached(s, lx, parsed_fields(lx, i, vars, acc)->Done_1, depth),
    decreases lx.tokens.len() - i, 1int,
{
    punctuators();
    if lx.is_kind(i, Kind::Name) {
        token_known(s, lx, i, depth);
        token_known(s, lx, i + 1, depth);
        value_sound(s, lx, i + 2, depth, vars);
        let v = parsed_value(lx, i + 2, vars)->Done_0;
        let j = parsed_value(lx, i + 2, vars)->Done_1;
        let key = lx.tokens[i].text;
        let next = put(acc, key, v);
        put_in_order(acc, key, v);
        assert forall|k: int| 0 <= k < next.len() implies is_name((#[trigger] next[k]).0)
            && fit_value(next[k].1, vars, depth as int) by {
            if next[k] != (key, v) {
                let m = choose|m: int| 0 <= m < acc.len() && next[k] == acc[m];
                assert(is_name(acc[m].0));
            }
        }
        fields_sound(s, lx, j, depth, vars, next);
    }
}

/// The arguments that the grammar gives, one after the other, are fit.
pub proof fn pairs_sound(
    s: Seq<char>,
    lx: Lexed,
    i: int,
    depth: usize,
    acc: Seq<(Seq<char>, ValueModel)>,
)
    requires
        reached(s, lx, i, depth),
        strings_legible(lx),
        parsed_pairs(lx, i, acc) is Done,
        forall|k: int|
            0 <= k < acc.len() ==> is_name((#[trigger] acc[k]).0) && fit_value(
                acc[k].1,
                true,
                depth as int,
            ),
    ensures
        forall|k: int|
            0 <= k < parsed_pairs(lx, i, acc)->Done_0.len() ==> is_name(
                (#[trigger] parsed_pairs(lx, i, acc)->Done_0[k]).0,
            ) && fit_value(parsed_pairs(lx, i, acc)->Done_0[k].1, true, depth as int),
        reached(s, lx, parsed_pairs(lx, i, acc)->Done_1, depth),
        i <= parsed_pairs(lx, i, acc)->Done_1,
    decreases lx.tokens.len() - i,
{
    punctuators();
    if lx.is_kind(i, Kind::Name) {
        token_known(s, lx, i, depth);
        token_known(s, lx, i + 1, depth);
        value_sound(s, lx, i + 2, depth, true);
        let v = parsed_value(lx, i + 2, true)->Done_0;
        let j = parsed_value(lx, i + 2, true)->Done_1;
        let next = acc.push((lx.tokens[i].text, v));
        assert forall|k: int| 0 <= k < next.len() implies is_name((#[trigger] next[k]).0)
            && fit_value(next[k].1, true, depth as int) by {
            if k < acc.len() {
                assert(next[k] == acc[k]);
            }
        }
        pairs_sound(s, lx, j, depth, next);
    }
}

/// The arguments that the grammar gives are fit.
pub proof fn arguments_sound(s: Seq<char>, lx: Lexed, i: int, depth: usize)
    requires
        reached(s, lx, i, depth),
        strings_legible(lx),
        parsed_arguments(lx, i) is Done,
    ensures
        fit_arguments(parsed_arguments(lx, i)->Done_0, depth as int),
        reached(s, lx, parsed_arguments(lx, i)->Done_1, depth),
        i <= parsed_arguments(lx, i)->Done_1,
{
    punctuators();
    if lx.is_punct(i, "("@) {
        token_known(s, lx, i, depth);
        let d = (depth - 1) as usize;
        pairs_sound(s, lx, i + 1, d, Seq::empty());
        let j = parsed_pairs(lx, i + 1, Seq::empty())->Done_1;
        token_known(s, lx, j, d);
    }
}

/// The directives that the grammar gives are fit.
pub proof fn directives_sound(
    s: Seq<char>,
    lx: Lexed,
    i: int,
    depth: usize,
    acc: Seq<DirectiveModel>,
)
    requires
        reached(s, lx, i, depth),
        strings_legible(lx),
        parsed_directives(lx, i, acc) is Done,
        fit_directives(acc, depth as int),
    ensures
        fit_directives(parsed_directives(lx, i, acc)->Done_0, depth as int),
        reached(s, lx, parsed_directives(lx, i, acc)->Done_1, depth),
        i <= parsed_directives(lx, i, acc)->Done_1,
    decreases lx.tokens.len() - i,
{
    punctuators();
    if lx.is_punct(i, "@"@) {
        token_known(s, lx, i, depth);
        token_known(s, lx, i + 1, depth);
        arguments_sound(s, lx, i + 2, depth);
        let arguments = parsed_arguments(lx, i + 2)->Done_0;
        let j = parsed_arguments(lx, i + 2)->Done_1;
        let d = DirectiveModel { position: lx.pos(i), name: lx.tokens[i + 1].text, arguments };
        let next = acc.push(d);
        assert forall|k: int| 0 <= k < next.len() implies is_name((#[trigger] next[k]).name)
            && fit_arguments(next[k].arguments, depth as int) by {
            if k < acc.len() {
                assert(next[k] == acc[k]);
            }
        }
        directives_sound(s, lx, j, depth, next);
    }
}

/// A type that the grammar gives is fit.
pub proof fn type_sound(s: Seq<char>, lx: Lexed, i: int, depth: usize)
    requires
        reached(s, lx, i, depth),
        parsed_type(lx, i) is Done,
    ensures
        fit_type(parsed_type(lx, i)->Done_0, depth as int),
        reached(s, lx, parsed_type(lx, i)->Done_1, depth),
        i < parsed_type(lx, i)->Done_1,
    decreases lx.tokens.len() - i,
{
    punctuators();
    if lx.is_kind(i, Kind::Name) {
        token_known(s, lx, i, depth);
        let base = TypeModel::NamedType(lx.tokens[i].text);
        assert(fit_type(base, depth as int));
        if lx.is_punct(i + 1, "!"@) {
            token_known(s, lx, i + 1, depth);
            assert(fit_type(TypeModel::NonNullType(Box::new(base)), depth as int));
        }
    } else if lx.is_punct(i, "["@) {
        token_known(s, lx, i, depth);
        let d = (depth - 1) as usize;
        type_sound(s, lx, i + 1, d);
        let inner = parsed_type(lx, i + 1)->Done_0;
        let j = parsed_type(lx, i + 1)->Done_1;
        token_known(s, lx, j, d);
        let base = TypeModel::ListType(Box::new(inner));
        assert(fit_type(base, depth as int));
        if lx.is_punct(j + 1, "!"@) {
            token_known(s, lx, j + 1, depth);
            assert(fit_type(TypeModel::NonNullType(Box::new(base)), depth as int));
        }
    }
}

/// A selection set that the grammar gives is fit.
pub proof fn selection_set_sound(s: Seq<char>, lx: Lexed, i: int, depth: usize)
    requires
        reached(s, lx, i, depth),
        strings_legible(lx),
        parsed_selection_set(lx, i) is Done,
    ensures
        fit_block(parsed_selection_set(lx, i)->Done_0.items, depth as int),
        reached(s, lx, parsed_selection_set(lx, i)->Done_1, depth),
        i < parsed_selection_set(lx, i)->Done_1,
    decreases lx.tokens.len() - i, 0int,
{
    punctuators();
    token_known(s, lx, i, depth);
    let d = (depth - 1) as usize;
    selections_sound(s, lx, i + 1, d, Seq::empty());
    let j = parsed_selections(lx, i + 1, Seq::empty())->Done_1;
    token_known(s, lx, j, d);
}

/// The selections that the grammar gives are fit.
pub proof fn selections_sound(
    s: Seq<char>,
    lx: Lexed,
    i: int,
    depth: usize,
    acc: Seq<SelectionModel>,
)
    requires
        reached(s, lx, i, depth),
        strings_legible(lx),
        parsed_selections(lx, i, acc) is Done,
        fit_selections(acc, depth as int),
    ensures
        fit_selections(parsed_selections(lx, i, acc)->Done_0, depth as int),
        reached(s, lx, parsed_selections(lx, i, acc)->Done_1, depth),
        i <= parsed_selections(lx, i, acc)->Done_1,
        parsed_selections(lx, i, acc)->Done_0.len() >= acc.len(),
        starts_selection(lx, i) ==> parsed_selections(lx, i, acc)->Done_0.len() > acc.len(),
    decreases lx.tokens.len() - i, 4int,
{
    if starts_selection(lx, i) {
        selection_sound(s, lx, i, depth);
        let v = parsed_selection(lx, i)->Done_0;
        let j = parsed_selection(lx, i)->Done_1;
        let next = acc.push(v);
        assert forall|k: int| 0 <= k < next.len() implies fit_selection(
            #[trigger] next[k],
            depth as int,
        ) by {
            if k < acc.len() {
                assert(next[k] == acc[k]);
            }
        }
        selections_sound(s, lx, j, depth, next);
    }
}

/// A selection that the grammar gives is fit.
pub proof fn selection_sound(s: Seq<char>, lx: Lexed, i: int, depth: usize)
    requires
        reached(s, lx, i, depth),
        strings_legible(lx),
        parsed_selection(lx, i) is Done,
    ensures
        fit_selection(parsed_selection(lx, i)->Done_0, depth as int),
        reached(s, lx, parsed_selection(lx, i)->Done_1, depth),
        i < parsed_selection(lx, i)->Done_1,
    decreases lx.tokens.len() - i, 3int,
{
    punctuators();
    if lx.is_kind(i, Kind::Name) {
        field_sound(s, lx, i, depth);
    } else if lx.is_punct(i, "..."@) {
        token_known(s, lx, i, depth);
        fragment_sound(s, lx, i + 1, depth);
    }
}

/// A field that the grammar gives is fit.
pub proof fn field_sound(s: Seq<char>, lx: Lexed, i: int, depth: usize)
    requires
        reached(s, lx, i, depth),
        strings_legible(lx),
        parsed_field(lx, i) is Done,
    ensures
        fit_selection(SelectionModel::Field(parsed_field(lx, i)->Done_0), depth as int),
        reached(s, lx, parsed_field(lx, i)->Done_1, depth),
        i < parsed_field(lx, i)->Done_1,
    decreases lx.tokens.len() - i, 1int,
{
    punctuators();
    token_known(s, lx, i, depth);
    let aliased = lx.is_punct(i + 1, ":"@);
    let k = if aliased {
        i + 3
    } else {
        i + 1
    };
    if aliased {
        token_known(s, lx, i + 1, depth);
        token_known(s, lx, i + 2, depth);
    }
    arguments_sound(s, lx, k, depth);
    let j = parsed_arguments(lx, k)->Done_1;
    directives_sound(s, lx, j, depth, Seq::empty());
    let m = parsed_directives(lx, j, Seq::empty())->Done_1;
    if i < m && lx.is_punct(m, "{"@) {
        selection_set_sound(s, lx, m, depth);
    }
}

/// What the grammar gives for what follows the three dots of a
/// selection is fit.
pub proof fn fragment_sound(s: Seq<char>, lx: Lexed, k: int, depth: usize)
    requires
        reached(s, lx, k, depth),
        strings_legible(lx),
        parsed_fragment(lx, k) is Done,
    ensures
        fit_selection(parsed_fragment(lx, k)->Done_0, depth as int),
        reached(s, lx, parsed_fragment(lx, k)->Done_1, depth),
        k <= parsed_fragment(lx, k)->Done_1,
    decreases lx.tokens.len() - k, 2int,
{
    punctuators();
    word_on();
    if lx.is_word(k, "on"@) {
        token_known(s, lx, k, depth);
        token_known(s, lx, k + 1, depth);
        inline_sound(s, lx, k, Some(lx.tokens[k + 1].text), k + 2, depth);
    } else if lx.is_punct(k, "@"@) || lx.is_punct(k, "{"@) {
        inline_sound(s, lx, k, None, k, depth);
    } else if lx.is_kind(k, Kind::Name) {
        token_known(s, lx, k, depth);
        directives_sound(s, lx, k + 1, depth, Seq::empty());
    }
}

/// An inline fragment that the grammar gives is fit.
pub proof fn inline_sound(
    s: Seq<char>,
    lx: Lexed,
    k: int,
    type_condition: Option<Seq<char>>,
    d: int,
    depth: usize,
)
    requires
        reached(s, lx, d, depth),
        k <= d,
        strings_legible(lx),
        parsed_inline(lx, k, type_condition, d) is Done,
        type_condition is Some ==> is_name(type_condition->0),
    ensures
        fit_selection(parsed_inline(lx, k, type_condition, d)->Done_0, depth as int),
        reached(s, lx, parsed_inline(lx, k, type_condition, d)->Done_1, depth),
        k <= parsed_inline(lx, k, type_condition, d)->Done_1,
    decreases lx.tokens.len() - k, 1int,
{
    directives_sound(s, lx, d, depth, Seq::empty());
    let j = parsed_directives(lx, d, Seq::empty())->Done_1;
    selection_set_sound(s, lx, j, depth);
}

/// The definition of a variable that the grammar gives is fit.
pub proof fn variable_sound(s: Seq<char>, lx: Lexed, i: int, depth: usize)
    requires
        reached(s, lx, i, depth),
        strings_legible(lx),
        parsed_variable(lx, i) is Done,
    ensures
        fit_variable(parsed_variable(lx, i)->Done_0, depth as int),
        reached(s, lx, parsed_variable(lx, i)->Done_1, depth),
        i < parsed_variable(lx, i)->Done_1,
{
    punctuators();
    token_known(s, lx, i, depth);
    token_known(s, lx, i + 1, depth);
    token_known(s, lx, i + 2, depth);
    type_sound(s, lx, i + 3, depth);
    let j = parsed_type(lx, i + 3)->Done_1;
    if lx.is_punct(j, "="@) {
        token_known(s, lx, j, depth);
        value_sound(s, lx, j + 1, depth, false);
    }
}

/// The definitions of variables that the grammar gives are fit.
pub proof fn variables_sound(
    s: Seq<char>,
    lx: Lexed,
    i: int,
    depth: usize,
    acc: Seq<VariableDefinitionModel>,
)
    requires
        reached(s, lx, i, depth),
        strings_legible(lx),
        parsed_variables(lx, i, acc) is Done,
        forall|k: int| 0 <= k < acc.len() ==> fit_variable(#[trigger] acc[k], depth as int),
    ensures
        forall|k: int|
            0 <= k < parsed_variables(lx, i, acc)->Done_0.len() ==> fit_variable(
                #[trigger] parsed_variables(lx, i, acc)->Done_0[k],
                depth as int,
            ),
        reached(s, lx, parsed_variables(lx, i, acc)->Done_1, depth),
        i <= parsed_variables(lx, i, acc)->Done_1,
    decreases lx.tokens.len() - i,
{
    punctuators();
    if lx.is_punct(i, "$"@) {
        variable_sound(s, lx, i, depth);
        let v = parsed_variable(lx, i)->Done_0;
        let j = parsed_variable(lx, i)->Done_1;
        let next = acc.push(v);
        assert forall|k: int| 0 <= k < next.len() implies fit_variable(
            #[trigger] next[k],
            depth as int,
        ) by {
            if k < acc.len() {
                assert(next[k] == acc[k]);
            }
        }
        variables_sound(s, lx, j, depth, next);
    }
}

/// What the grammar gives for what a query, a mutation and a
/// subscription share is fit.
pub proof fn common_sound(s: Seq<char>, lx: Lexed, i: int, depth: usize)
    requires
        reached(s, lx, i, depth),
        strings_legible(lx),
        parsed_operation_common(lx, i) is Done,
    ensures
        fit_operation(
            OperationModel {
                position: Pos { line: 0, column: 0 },
                name: parsed_operation_common(lx, i)->Done_0.name,
                variable_definitions: parsed_operation_common(lx, i)->Done_0.variable_definitions,
                directives: parsed_operation_common(lx, i)->Done_0.directives,
                selection_set: parsed_operation_common(lx, i)->Done_0.selection_set,
            },
            depth as int,
        ),
        reached(s, lx, parsed_operation_common(lx, i)->Done_1, depth),
        i < parsed_operation_common(lx, i)->Done_1,
{
    punctuators();
    let named = lx.is_kind(i, Kind::Name);
    let k = if named {
        i + 1
    } else {
        i
    };
    if named {
        token_known(s, lx, i, depth);
    }
    if lx.is_punct(k, "("@) {
        token_known(s, lx, k, depth);
        let d = (depth - 1) as usize;
        variables_sound(s, lx, k + 1, d, Seq::empty());
        let m = parsed_variables(lx, k + 1, Seq::empty())->Done_1;
        token_known(s, lx, m, d);
    }
    let j = parsed_variable_definitions(lx, k)->Done_1;
    directives_sound(s, lx, j, depth, Seq::empty());
    let m = parsed_directives(lx, j, Seq::empty())->Done_1;
    selection_set_sound(s, lx, m, depth);
}

/// An operation with its keyword that the grammar gives is fit.
pub proof fn operation_sound(
    s: Seq<char>,
    lx: Lexed,
    i: int,
    depth: usize,
    keyword: &'static str,
)
    requires
        reached(s, lx, i, depth),
        strings_legible(lx),
        parsed_operation(lx, i, keyword) is Done,
    ensures
        fit_operation(parsed_operation(lx, i, keyword)->Done_0, depth as int),
        reached(s, lx, parsed_operation(lx, i, keyword)->Done_1, depth),
        i < parsed_operation(lx, i, keyword)->Done_1,
{
    token_known(s, lx, i, depth);
    common_sound(s, lx, i + 1, depth);
    let c = parsed_operation_common(lx, i + 1)->Done_0;
    let o = parsed_operation(lx, i, keyword)->Done_0;
    let n = OperationModel {
        position: Pos { line: 0, column: 0 },
        name: c.name,
        variable_definitions: c.variable_definitions,
        directives: c.directives,
        selection_set: c.selection_set,
    };
    assert(o.name == n.name && o.variable_definitions == n.variable_definitions && o.directives
        == n.directives && o.selection_set == n.selection_set);
    assert(fit_operation(n, depth as int));
    assert(fit_operation(o, depth as int));
}

/// The definition of a fragment that the grammar gives is fit.
pub proof fn fragment_definition_sound(s: Seq<char>, lx: Lexed, i: int, depth: usize)
    requires
        reached(s, lx, i, depth),
        strings_legible(lx),
        parsed_fragment_definition(lx, i) is Done,
    ensures
        fit_definition(
            DefinitionModel::Fragment(parsed_fragment_definition(lx, i)->Done_0),
            depth as int,
        ),
        reached(s, lx, parsed_fragment_definition(lx, i)->Done_1, depth),
        i < parsed_fragment_definition(lx, i)->Done_1,
{
    token_known(s, lx, i, depth);
    token_known(s, lx, i + 1, depth);
    token_known(s, lx, i + 2, depth);
    token_known(s, lx, i + 3, depth);
    directives_sound(s, lx, i + 4, depth, Seq::empty());
    let j = parsed_directives(lx, i + 4, Seq::empty())->Done_1;
    selection_set_sound(s, lx, j, depth);
}

/// The definition of an operation that the grammar gives is fit.
pub proof fn operation_definition_sound(s: Seq<char>, lx: Lexed, i: int, depth: usize)
    requires
        reached(s, lx, i, depth),
        strings_legible(lx),
        parsed_operation_definition(lx, i) is Done,
    ensures
        fit_definition(
            DefinitionModel::Operation(parsed_operation_definition(lx, i)->Done_0),
            depth as int,
        ),
        reached(s, lx, parsed_operation_definition(lx, i)->Done_1, depth),
        i < parsed_operation_definition(lx, i)->Done_1,
{
    if lx.is_punct(i, "{"@) {
        selection_set_sound(s, lx, i, depth);
    } else if lx.is_word(i, "query"@) {
        operation_sound(s, lx, i, depth, "query");
    } else if lx.is_word(i, "mutation"@) {
        operation_sound(s, lx, i, depth, "mutation");
    } else if lx.is_word(i, "subscription"@) {
        operation_sound(s, lx, i, depth, "subscription");
    }
}

/// A definition that the grammar gives is fit.
pub proof fn definition_sound(s: Seq<char>, lx: Lexed, i: int, depth: usize)
    requires
        reached(s, lx, i, depth),
        strings_legible(lx),
        parsed_definition(lx, i) is Done,
    ensures
        fit_definition(parsed_definition(lx, i)->Done_0, depth as int),
        reached(s, lx, parsed_definition(lx, i)->Done_1, depth),
        i < parsed_definition(lx, i)->Done_1,
{
    if starts_operation(lx, i) {
        operation_definition_sound(s, lx, i, depth);
    } else if lx.is_word(i, "fragment"@) {
        fragment_definition_sound(s, lx, i, depth);
    }
}

/// The definitions that the grammar gives are fit.
pub proof fn definitions_sound(
    s: Seq<char>,
    lx: Lexed,
    i: int,
    depth: usize,
    acc: Seq<DefinitionModel>,
)
    requires
        reached(s, lx, i, depth),
        strings_legible(lx),
        parsed_definitions(lx, i, acc) is Done,
        forall|k: int| 0 <= k < acc.len() ==> fit_definition(#[trigger] acc[k], depth as int),
    ensures
        forall|k: int|
            0 <= k < parsed_definitions(lx, i, acc)->Done_0.len() ==> fit_definition(
                #[trigger] parsed_definitions(lx, i, acc)->Done_0[k],
                depth as int,
            ),
        parsed_definitions(lx, i, acc)->Done_0.len() >= acc.len(),
        starts_definition(lx, i) ==> parsed_definitions(lx, i, acc)->Done_0.len() > acc.len(),
    decreases lx.tokens.len() - i,
{
    if starts_definition(lx, i) {
        definition_sound(s, lx, i, depth);
        let v = parsed_definition(lx, i)->Done_0;
        let j = parsed_definition(lx, i)->Done_1;
        let next = acc.push(v);
        assert forall|k: int| 0 <= k < next.len() implies fit_definition(
            #[trigger] next[k],
            depth as int,
        ) by {
            if k < acc.len() {
                assert(next[k] == acc[k]);
            }
        }
        definitions_sound(s, lx, j, depth, next);
    }
}

/// A document that the grammar gives for a source whose strings are
/// legible is fit to be written and read back.
pub proof fn document_sound(s: Seq<char>)
    requires
        query_document(s) is Ok,
        strings_legible(lex(s)),
    ensures
        fit_document(query_document(s)->Ok_0),
{
    let lx = lex(s);
    aligned_start(s);
    definitions_sound(s, lx, 0, crate::tokenizer::RECURSION_LIMIT, Seq::empty());
}

} // verus!
