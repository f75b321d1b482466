//! Reading back what the printer writes: the text of a value, of a
//! type, of a selection and of a document is read by the tokenizer and
//! the grammar as that value, type, selection and document.

use vstd::prelude::*;
use crate::position::Pos;
use crate::tokenizer::{Kind, ScanFault, is_punct, opens, closes, is_name_start, is_name_char};
use crate::parser::{Lexed, Parsed, lex, lex_from, texts};
use crate::format::{
    Style, deeper, string_literal, end_of_arguments, start_of_argument, argument_break,
    end_of_block, margin_of, quoted, block_quoted, has_newline, has_nonprintable,
};
use crate::text::{spaces, signed_decimal};
use crate::unquote::{unquoted, block_value, UnquoteFault};
use crate::inverse::{
    unquote_inverts_quote, block_value_inverts_block_quoted, body_of, all_read_back, keeps_layout,
};
use crate::common::{
    DirectiveModel, TypeModel, ValueModel, parsed_value, parsed_values, parsed_fields,
    parsed_plain, parsed_int, parsed_float, parsed_string_value, parsed_block_string_value,
    parsed_pairs, parsed_arguments, parsed_directives, parsed_type, non_null, starts_plain,
    starts_value, put, slot, text_lt, literal_value, block_body, value_advances,
};
use crate::rescan::{
    aligned, at, stands, breaks, all_blank, is_blank_char, is_break, is_name, is_float_text,
    stands_chars, stands_parts, at_token, at_blank, at_blanks, token_step, token_end,
    punct_token, spread_token, name_token, int_token, float_token, string_token, block_token,
    punctuators, depth_after, cursor_at, signed_decimal_shape, break_ends_name,
};
use crate::query::format::{
    value_text, items_text, fields_text, arguments_text, directive_text, directives_text,
    type_text, inner, close_arguments, before_argument,
};
use crate::query::shape::{
    fit_value, fit_type, fit_arguments, fit_directives, legible, is_enum_name, in_order,
    bare_directive, bare_directives, nowhere, fit_selection, fit_selections, fit_block,
    bare_selection, bare_selections, bare_set,
};
use crate::query::ast::{
    FieldModel, FragmentSpreadModel, InlineFragmentModel, SelectionModel, SelectionSetModel,
    VariableDefinitionModel, OperationModel, OperationDefinitionModel, DefinitionModel,
    DocumentModel, FragmentDefinitionModel,
};
use crate::query::format::{
    variable_text, variables_text, variable_definitions_text, operation_text,
    selection_set_text, operation_definition_text, fragment_definition_text, definition_text,
    definitions_text, document_text,
};
use crate::query::grammar::{
    parsed_variable, parsed_variables, parsed_variable_definitions, parsed_operation_common,
    parsed_operation, parsed_operation_definition, parsed_fragment_definition,
    parsed_definition, parsed_definitions, parsed_document, query_document, starts_operation,
    starts_definition, CommonModel,
};
use crate::query::shape::{
    fit_variable, fit_operation, fit_definition, fit_document, bare_variable, bare_variables,
    bare_operation, bare_definition, bare_document, alike,
};
use crate::query::format::{block_text, selections_text, selection_text};
use crate::query::grammar::{
    parsed_field, parsed_fragment, parsed_inline, parsed_selection, parsed_selections,
    parsed_selection_set, starts_selection, no_selection_set,
};

verus! {

/// What the literals of the words of values hold.
pub proof fn value_words()
    ensures
        "true"@ == seq!['t', 'r', 'u', 'e'],
        "false"@ == seq!['f', 'a', 'l', 's', 'e'],
        "null"@ == seq!['n', 'u', 'l', 'l'],
        is_name("true"@),
        is_name("false"@),
        is_name("null"@),
{
    reveal_strlit("true");
    reveal_strlit("false");
    reveal_strlit("null");
    assert("true"@ =~= seq!['t', 'r', 'u', 'e']);
    assert("false"@ =~= seq!['f', 'a', 'l', 's', 'e']);
    assert("null"@ =~= seq!['n', 'u', 'l', 'l']);
}

/// The first character of the token `j`, where the tokens are aligned
/// with the offset `e`: it is the character at which the token
/// stands, and it tells what the token can be.
pub proof fn token_head(s: Seq<char>, lx: Lexed, j: int, e: int, depth: usize)
    requires
        aligned(s, lx, j, e, depth),
    ensures
        j < lx.tokens.len() ==> {
            &&& at(s, e) < s.len()
            &&& lx.tokens[j].text.len() >= 1
            &&& lx.tokens[j].text[0] == s[at(s, e)]
            &&& (lx.tokens[j].kind == Kind::Name ==> is_name_start(s[at(s, e)]))
            &&& (lx.tokens[j].kind == Kind::Punctuator ==> is_punct(s[at(s, e)]) || s[at(s, e)]
                == '.')
            &&& (lx.tokens[j].kind == Kind::IntValue || lx.tokens[j].kind == Kind::FloatValue
                ==> s[at(s, e)] == '-' || crate::number::is_digit(s[at(s, e)]))
            &&& (lx.tokens[j].kind == Kind::StringValue || lx.tokens[j].kind == Kind::BlockString
                ==> s[at(s, e)] == '"')
        },
        at(s, e) >= s.len() ==> j == lx.tokens.len(),
{
    let c = cursor_at(lx, j, depth);
    if j < lx.tokens.len() {
        assert(lex_from(s, c) == lx.from(j));
        assert(lx.from(j).tokens.len() > 0);
        assert(crate::tokenizer::step(s, c) is Token);
        token_step(s, lx, j, e, depth);
        crate::tokenizer::step_advances(s, c);
        let end = crate::tokenizer::step(s, c)->end;
        assert(s.subrange(at(s, e), end)[0] == s[at(s, e)]);
    }
    if at(s, e) >= s.len() {
        token_end(s, lx, j, e, depth);
    }
}

/// What stands before an argument parts tokens.
pub proof fn before_argument_blank(style: Style, level: u32, k: int)
    ensures
        all_blank(before_argument(style, level, k)),
{
    let t = before_argument(style, level, k);
    let a = argument_break(style);
    let b = start_of_argument(style, level);
    assert forall|j: int| 0 <= j < a.len() implies is_blank_char(#[trigger] a[j]) by {}
    assert forall|j: int| 0 <= j < b.len() implies is_blank_char(#[trigger] b[j]) by {
        if style.multiline() && j > 0 {
            assert(b[j] == spaces(level as nat)[j - 1]);
        }
    }
    assert forall|j: int| 0 <= j < t.len() implies is_blank_char(#[trigger] t[j]) by {
        if k > 0 {
            if j < a.len() {
                assert(t[j] == a[j]);
            } else {
                assert(t[j] == b[j - a.len()]);
            }
        }
    }
}

/// The bracket that closes a list of arguments is read: it is the next
/// token behind what stands before it.
pub proof fn close_token(
    s: Seq<char>,
    lx: Lexed,
    i: int,
    off: int,
    depth: usize,
    style: Style,
    level: u32,
    c: char,
)
    requires
        aligned(s, lx, i, off, depth),
        stands(s, off, close_arguments(style, level, c)),
        closes(c),
        depth < usize::MAX,
    ensures
        lx.is_kind(i, Kind::Punctuator),
        lx.tokens[i].text == seq![c],
        aligned(s, lx, i + 1, off + close_arguments(style, level, c).len(), (depth + 1) as usize),
{
    let t = close_arguments(style, level, c);
    if style.multiline() {
        let b = seq!['\n'] + spaces(level as nat);
        assert(t == b + seq![c]);
        stands_parts(s, off, b, seq![c]);
        assert forall|j: int| 0 <= j < b.len() implies is_blank_char(#[trigger] b[j]) by {
            if j > 0 {
                assert(b[j] == spaces(level as nat)[j - 1]);
            }
        }
        at_blanks(s, off, b);
        let o = off + b.len();
        stands_chars(s, o, seq![c]);
        assert(s[o + 0] == seq![c][0]);
        at_token(s, o);
        punct_token(s, lx, i, o, depth, c);
    } else {
        stands_chars(s, off, seq![c]);
        assert(s[off + 0] == seq![c][0]);
        punct_token(s, lx, i, off, depth, c);
    }
}

/// A name that stands behind all names of an object in the order of
/// names takes its place behind them.
proof fn put_behind(obj: Seq<(Seq<char>, ValueModel)>, key: Seq<char>, v: ValueModel)
    requires
        forall|k: int| 0 <= k < obj.len() ==> text_lt((#[trigger] obj[k]).0, key),
    ensures
        put(obj, key, v) == obj.push((key, v)),
{
    put_behind_all(obj, key, 0);
    assert(obj.insert(obj.len() as int, (key, v)) =~= obj.push((key, v)));
}

proof fn put_behind_all(obj: Seq<(Seq<char>, ValueModel)>, key: Seq<char>, i: int)
    requires
        0 <= i <= obj.len(),
        forall|k: int| 0 <= k < obj.len() ==> text_lt((#[trigger] obj[k]).0, key),
    ensures
        slot(obj, key, i) == obj.len(),
    decreases obj.len() - i,
{
    if i < obj.len() {
        put_behind_all(obj, key, i + 1);
    }
}

/// Two texts of one character each are the same only if the characters
/// are.
pub proof fn unlike(a: char, b: char)
    requires
        a != b,
    ensures
        seq![a] != seq![b],
{
    assert(seq![a][0] != seq![b][0]);
}

/// The bracket that closes a list of arguments begins with a character
/// that parts tokens.
pub proof fn close_breaks(s: Seq<char>, off: int, style: Style, level: u32, c: char)
    requires
        stands(s, off, close_arguments(style, level, c)),
        closes(c),
    ensures
        breaks(s, off),
{
    let t = close_arguments(style, level, c);
    stands_chars(s, off, t);
    assert(s[off + 0] == t[0]);
}

/// The text of a value begins with a character at which a token
/// stands.
pub proof fn value_text_head(v: ValueModel, style: Style, level: u32)
    requires
        fit_value(v, true, 1) || fit_value(v, false, 1) || exists|vars: bool, room: int|
            fit_value(v, vars, room),
    ensures
        value_text(v, style, level).len() >= 1,
        !is_blank_char(value_text(v, style, level)[0]),
        value_text(v, style, level)[0] != '#',
        value_text(v, style, level)[0] != '\u{feff}',
{
    value_words();
    match v {
        ValueModel::Int(i) => {
            signed_decimal_shape(i);
        },
        ValueModel::String(x) => {
            let t = string_literal(x, level, style.width());
            assert(t[0] == '"');
        },
        _ => {},
    }
}

/// The text of a string is read as the string.
pub proof fn string_reads(
    s: Seq<char>,
    lx: Lexed,
    i: int,
    off: int,
    depth: usize,
    t: Seq<char>,
    style: Style,
    level: u32,
    vars: bool,
)
    requires
        aligned(s, lx, i, off, depth),
        stands(s, off, string_literal(t, level, style.width())),
        breaks(s, off + string_literal(t, level, style.width()).len()),
        legible(t),
    ensures
        parsed_value(lx, i, vars) == Parsed::Done(ValueModel::String(t), i + 1),
        aligned(s, lx, i + 1, off + string_literal(t, level, style.width()).len(), depth),
{
    if has_newline(t) && !has_nonprintable(t) {
        let inner_level = deeper(level, style.width());
        block_token(s, lx, i, off, depth, t, level, inner_level);
        block_value_inverts_block_quoted(t, level, inner_level);
        assert(block_body(lx, i) == body_of(block_quoted(t, level, inner_level)));
    } else {
        string_token(s, lx, i, off, depth, t);
        unquote_inverts_quote(t);
    }
}

/// The text of a value without parts is read as the value.
pub proof fn atom_reads(
    s: Seq<char>,
    lx: Lexed,
    i: int,
    off: int,
    depth: usize,
    v: ValueModel,
    style: Style,
    level: u32,
    vars: bool,
) -> (j: int)
    requires
        aligned(s, lx, i, off, depth),
        stands(s, off, value_text(v, style, level)),
        breaks(s, off + value_text(v, style, level).len()),
        fit_value(v, vars, depth as int),
        !(v is List),
        !(v is Object),
    ensures
        parsed_value(lx, i, vars) == Parsed::Done(v, j),
        aligned(s, lx, j, off + value_text(v, style, level).len(), depth),
        i < j,
{
    let x = value_text(v, style, level);
    let e = off + x.len();
    punctuators();
    value_words();
    if e < s.len() {
        break_ends_name(s[e]);
    }
    match v {
        ValueModel::Variable(n) => {
            stands_parts(s, off, seq!['$'], n);
            stands_chars(s, off, seq!['$']);
            assert(s[off + 0] == seq!['$'][0]);
            next_is(s, off, '$');
            punct_token(s, lx, i, off, depth, '$');
            name_token(s, lx, i + 1, off + 1, depth, n);
            i + 2
        },
        ValueModel::Int(n) => {
            signed_decimal_shape(n);
            stands_chars(s, off, x);
            assert(s[off + 0] == x[0]);
            at_token(s, off);
            int_token(s, lx, i, off, depth, n);
            i + 1
        },
        ValueModel::Float(t) => {
            stands_chars(s, off, x);
            assert(s[off + 0] == x[0]);
            at_token(s, off);
            float_token(s, lx, i, off, depth, t);
            i + 1
        },
        ValueModel::String(t) => {
            string_reads(s, lx, i, off, depth, t, style, level, vars);
            i + 1
        },
        ValueModel::Boolean(b) => {
            stands_chars(s, off, x);
            assert(s[off + 0] == x[0]);
            at_token(s, off);
            name_token(s, lx, i, off, depth, x);
            i + 1
        },
        ValueModel::Null => {
            stands_chars(s, off, x);
            assert(s[off + 0] == x[0]);
            at_token(s, off);
            name_token(s, lx, i, off, depth, x);
            i + 1
        },
        ValueModel::Enum(n) => {
            stands_chars(s, off, x);
            assert(s[off + 0] == x[0]);
            at_token(s, off);
            name_token(s, lx, i, off, depth, n);
            i + 1
        },
        _ => { i },
    }
}

/// The text of a value is read as the value.
#[verifier::rlimit(80)]
pub proof fn value_reads(
    s: Seq<char>,
    lx: Lexed,
    i: int,
    off: int,
    depth: usize,
    v: ValueModel,
    style: Style,
    level: u32,
    vars: bool,
) -> (j: int)
    requires
        aligned(s, lx, i, off, depth),
        stands(s, off, value_text(v, style, level)),
        breaks(s, off + value_text(v, style, level).len()),
        fit_value(v, vars, depth as int),
    ensures
        parsed_value(lx, i, vars) == Parsed::Done(v, j),
        aligned(s, lx, j, off + value_text(v, style, level).len(), depth),
        i < j,
    decreases v, 0nat,
{
    let x = value_text(v, style, level);
    match v {
        ValueModel::List(items) => {
            punctuators();
            let lvl = inner(style, level);
            let body = items_text(items, style, lvl, items.len());
            let close = close_arguments(style, level, ']');
            assert(x == seq!['['] + body + close);
            stands_parts(s, off, seq!['['] + body, close);
            stands_parts(s, off, seq!['['], body);
            stands_chars(s, off, seq!['[']);
            assert(s[off + 0] == seq!['['][0]);
            next_is(s, off, '[');
            punct_token(s, lx, i, off, depth, '[');
            close_breaks(s, off + 1 + body.len(), style, level, ']');
            let d = (depth - 1) as usize;
            let j = items_read(s, lx, i + 1, off + 1, d, items, style, lvl, vars, items.len());
            assert(items.take(items.len() as int) =~= items);
            close_token(s, lx, j, off + 1 + body.len(), d, style, level, ']');
            assert(!starts_value(lx, j, vars)) by {
                unlike(']', '$');
                unlike(']', '[');
                unlike(']', '{');
            }
            j + 1
        },
        ValueModel::Object(fields) => {
            punctuators();
            let lvl = inner(style, level);
            let body = fields_text(fields, style, lvl, fields.len());
            let close = close_arguments(style, level, '}');
            assert(x == seq!['{'] + body + close);
            stands_parts(s, off, seq!['{'] + body, close);
            stands_parts(s, off, seq!['{'], body);
            stands_chars(s, off, seq!['{']);
            assert(s[off + 0] == seq!['{'][0]);
            next_is(s, off, '{');
            punct_token(s, lx, i, off, depth, '{');
            close_breaks(s, off + 1 + body.len(), style, level, '}');
            let d = (depth - 1) as usize;
            let j = fields_read(s, lx, i + 1, off + 1, d, fields, style, lvl, vars, fields.len());
            assert(fields.take(fields.len() as int) =~= fields);
            close_token(s, lx, j, off + 1 + body.len(), d, style, level, '}');
            j + 1
        },
        _ => atom_reads(s, lx, i, off, depth, v, style, level, vars),
    }
}

/// The text of the first `n` items of a list is read as those items.
pub proof fn items_read(
    s: Seq<char>,
    lx: Lexed,
    i: int,
    off: int,
    depth: usize,
    items: Seq<ValueModel>,
    style: Style,
    level: u32,
    vars: bool,
    n: nat,
) -> (j: int)
    requires
        aligned(s, lx, i, off, depth),
        n <= items.len(),
        stands(s, off, items_text(items, style, level, n)),
        breaks(s, off + items_text(items, style, level, n).len()),
        forall|k: int| 0 <= k < items.len() ==> fit_value(#[trigger] items[k], vars, depth as int),
    ensures
        parsed_values(lx, i, vars, Seq::empty()) == parsed_values(
            lx,
            j,
            vars,
            items.take(n as int),
        ),
        aligned(s, lx, j, off + items_text(items, style, level, n).len(), depth),
        i <= j,
    decreases items, n,
{
    if n == 0 {
        assert(items.take(0) =~= Seq::<ValueModel>::empty());
        i
    } else {
        let before = items_text(items, style, level, (n - 1) as nat);
        let gap = before_argument(style, level, n - 1);
        let item = value_text(items[n - 1], style, level);
        assert(items_text(items, style, level, n) == before + gap + item);
        stands_parts(s, off, before + gap, item);
        stands_parts(s, off, before, gap);
        before_argument_blank(style, level, n - 1);
        // what follows the items before is blank or the item itself
        value_text_head(items[n - 1], style, level);
        stands_chars(s, off + before.len(), gap);
        stands_chars(s, off + before.len() + gap.len(), item);
        if n - 1 > 0 {
            assert(gap.len() > 0 && is_blank_char(gap[0])) by {
                assert(gap[0] == argument_break(style)[0]);
            }
            assert(s[off + before.len() + 0] == gap[0]);
            assert(breaks(s, off + before.len()));
        }
        let k = if n - 1 == 0 {
            assert(before =~= Seq::<char>::empty());
            assert(items.take(0) =~= Seq::<ValueModel>::empty());
            i
        } else {
            items_read(s, lx, i, off, depth, items, style, level, vars, (n - 1) as nat)
        };
        at_blanks(s, off + before.len(), gap);
        let o = off + before.len() + gap.len();
        let j = value_reads(s, lx, k, o, depth, items[n - 1], style, level, vars);
        value_advances(lx, k, vars);
        assert(items.take(n as int) =~= items.take(n - 1).push(items[n - 1]));
        j
    }
}

/// The text of a name, a colon and a value is read as the three.
pub proof fn pair_reads(
    s: Seq<char>,
    lx: Lexed,
    i: int,
    off: int,
    depth: usize,
    name: Seq<char>,
    value: ValueModel,
    style: Style,
    level: u32,
    vars: bool,
) -> (j: int)
    requires
        aligned(s, lx, i, off, depth),
        stands(s, off, name + seq![':', ' '] + value_text(value, style, level)),
        breaks(s, off + (name + seq![':', ' '] + value_text(value, style, level)).len()),
        is_name(name),
        fit_value(value, vars, depth as int),
    ensures
        lx.is_kind(i, Kind::Name),
        lx.tokens[i].text == name,
        lx.is_punct(i + 1, ":"@),
        parsed_value(lx, i + 2, vars) == Parsed::Done(value, j),
        aligned(
            s,
            lx,
            j,
            off + (name + seq![':', ' '] + value_text(value, style, level)).len(),
            depth,
        ),
        i + 2 < j,
    decreases value, 1nat,
{
    punctuators();
    let sep = seq![':', ' '];
    let vt = value_text(value, style, level);
    stands_parts(s, off, name + sep, vt);
    stands_parts(s, off, name, sep);
    stands_chars(s, off + name.len(), sep);
    assert(s[off + name.len() + 0] == sep[0] && s[off + name.len() + 1] == sep[1]);
    name_token(s, lx, i, off, depth, name);
    at_token(s, off + name.len());
    punct_token(s, lx, i + 1, off + name.len(), depth, ':');
    at_blank(s, off + name.len() + 1);
    value_reads(s, lx, i + 2, off + name.len() + 2, depth, value, style, level, vars)
}

/// What stands between the fields before and a field: the text of the
/// first `n` fields is the text of the fields before, what stands
/// before an argument, and a name, a colon and a value.
pub proof fn fields_text_parts(
    fields: Seq<(Seq<char>, ValueModel)>,
    style: Style,
    level: u32,
    n: nat,
)
    requires
        1 <= n <= fields.len(),
    ensures
        fields_text(fields, style, level, n) == fields_text(fields, style, level, (n - 1) as nat)
            + before_argument(style, level, n - 1) + (fields[n - 1].0 + seq![':', ' ']
            + value_text(fields[n - 1].1, style, level)),
{
    let a = fields_text(fields, style, level, (n - 1) as nat);
    let b = before_argument(style, level, n - 1);
    let c = fields[n - 1].0;
    let d = seq![':', ' '];
    let e = value_text(fields[n - 1].1, style, level);
    assert(a + b + c + d + e =~= a + b + (c + d + e));
}

/// The first `n` fields, with what stands before each: the tokens are
/// aligned behind the fields before and what stands before the last.
proof fn before_pair(
    s: Seq<char>,
    lx: Lexed,
    k: int,
    off: int,
    depth: usize,
    before: Seq<char>,
    gap: Seq<char>,
    pair: Seq<char>,
    first: bool,
)
    requires
        aligned(s, lx, k, off + before.len(), depth),
        stands(s, off, before + gap + pair),
        all_blank(gap),
    ensures
        aligned(s, lx, k, off + before.len() + gap.len(), depth),
        stands(s, off + before.len() + gap.len(), pair),
        stands(s, off, before),
{
    stands_parts(s, off, before + gap, pair);
    stands_parts(s, off, before, gap);
    at_blanks(s, off + before.len(), gap);
}

/// The text of the first `n` fields of an object is read as those
/// fields.
pub proof fn fields_read(
    s: Seq<char>,
    lx: Lexed,
    i: int,
    off: int,
    depth: usize,
    fields: Seq<(Seq<char>, ValueModel)>,
    style: Style,
    level: u32,
    vars: bool,
    n: nat,
) -> (j: int)
    requires
        aligned(s, lx, i, off, depth),
        n <= fields.len(),
        stands(s, off, fields_text(fields, style, level, n)),
        breaks(s, off + fields_text(fields, style, level, n).len()),
        in_order(fields),
        forall|k: int|
            0 <= k < fields.len() ==> is_name((#[trigger] fields[k]).0) && fit_value(
                fields[k].1,
                vars,
                depth as int,
            ),
    ensures
        parsed_fields(lx, i, vars, Seq::empty()) == parsed_fields(
            lx,
            j,
            vars,
            fields.take(n as int),
        ),
        aligned(s, lx, j, off + fields_text(fields, style, level, n).len(), depth),
        i <= j,
    decreases fields, n,
{
    if n == 0 {
        assert(fields.take(0) =~= Seq::<(Seq<char>, ValueModel)>::empty());
        i
    } else {
        let before = fields_text(fields, style, level, (n - 1) as nat);
        let gap = before_argument(style, level, n - 1);
        let name = fields[n - 1].0;
        let value = fields[n - 1].1;
        let pair = name + seq![':', ' '] + value_text(value, style, level);
        fields_text_parts(fields, style, level, n);
        before_argument_blank(style, level, n - 1);
        stands_parts(s, off, before + gap, pair);
        stands_parts(s, off, before, gap);
        stands_chars(s, off + before.len(), gap);
        stands_chars(s, off + before.len() + gap.len(), pair);
        if n - 1 > 0 {
            assert(gap.len() > 0 && is_blank_char(gap[0])) by {
                assert(gap[0] == argument_break(style)[0]);
            }
            assert(s[off + before.len() + 0] == gap[0]);
            assert(breaks(s, off + before.len()));
        }
        let k = if n - 1 == 0 {
            assert(before =~= Seq::<char>::empty());
            assert(fields.take(0) =~= Seq::<(Seq<char>, ValueModel)>::empty());
            i
        } else {
            fields_read(s, lx, i, off, depth, fields, style, level, vars, (n - 1) as nat)
        };
        before_pair(s, lx, k, off, depth, before, gap, pair, n - 1 == 0);
        let o = off + before.len() + gap.len();
        let j = pair_reads(s, lx, k, o, depth, name, value, style, level, vars);
        let acc = fields.take(n - 1);
        assert forall|a: int| 0 <= a < acc.len() implies text_lt((#[trigger] acc[a]).0, name) by {
            assert(acc[a] == fields[a]);
        }
        put_behind(acc, name, value);
        assert(fields.take(n as int) =~= acc.push(fields[n - 1]));
        assert(acc.push((name, value)) == acc.push(fields[n - 1]));
        j
    }
}

/// The text of the first `n` arguments is read as those arguments.
pub proof fn pairs_read(
    s: Seq<char>,
    lx: Lexed,
    i: int,
    off: int,
    depth: usize,
    args: Seq<(Seq<char>, ValueModel)>,
    style: Style,
    level: u32,
    n: nat,
) -> (j: int)
    requires
        aligned(s, lx, i, off, depth),
        n <= args.len(),
        stands(s, off, fields_text(args, style, level, n)),
        breaks(s, off + fields_text(args, style, level, n).len()),
        forall|k: int|
            0 <= k < args.len() ==> is_name((#[trigger] args[k]).0) && fit_value(
                args[k].1,
                true,
                depth as int,
            ),
    ensures
        parsed_pairs(lx, i, Seq::empty()) == parsed_pairs(lx, j, args.take(n as int)),
        aligned(s, lx, j, off + fields_text(args, style, level, n).len(), depth),
        i <= j,
        n >= 1 ==> lx.is_kind(i, Kind::Name),
    decreases n,
{
    if n == 0 {
        assert(args.take(0) =~= Seq::<(Seq<char>, ValueModel)>::empty());
        i
    } else {
        let before = fields_text(args, style, level, (n - 1) as nat);
        let gap = before_argument(style, level, n - 1);
        let name = args[n - 1].0;
        let value = args[n - 1].1;
        let pair = name + seq![':', ' '] + value_text(value, style, level);
        fields_text_parts(args, style, level, n);
        before_argument_blank(style, level, n - 1);
        stands_parts(s, off, before + gap, pair);
        stands_parts(s, off, before, gap);
        stands_chars(s, off + before.len(), gap);
        stands_chars(s, off + before.len() + gap.len(), pair);
        if n - 1 > 0 {
            assert(gap.len() > 0 && is_blank_char(gap[0])) by {
                assert(gap[0] == argument_break(style)[0]);
            }
            assert(s[off + before.len() + 0] == gap[0]);
            assert(breaks(s, off + before.len()));
        }
        let k = if n - 1 == 0 {
            assert(before =~= Seq::<char>::empty());
            assert(args.take(0) =~= Seq::<(Seq<char>, ValueModel)>::empty());
            i
        } else {
            pairs_read(s, lx, i, off, depth, args, style, level, (n - 1) as nat)
        };
        before_pair(s, lx, k, off, depth, before, gap, pair, n - 1 == 0);
        let o = off + before.len() + gap.len();
        let j = pair_reads(s, lx, k, o, depth, name, value, style, level, true);
        assert(args.take(n as int) =~= args.take(n - 1).push((name, value)));
        j
    }
}

/// The token that stands at or after the offset `e` does not begin
/// with the character `c`.
pub open spec fn next_is_not(s: Seq<char>, e: int, c: char) -> bool {
    at(s, e) >= s.len() || s[at(s, e)] != c
}

/// A token that does not begin with the character of a punctuator is
/// not that punctuator.
pub proof fn not_punct(s: Seq<char>, lx: Lexed, j: int, e: int, depth: usize, c: char)
    requires
        aligned(s, lx, j, e, depth),
        next_is_not(s, e, c),
    ensures
        !(j < lx.tokens.len() && lx.tokens[j].text == seq![c]),
        !lx.is_punct(j, seq![c]),
{
    token_head(s, lx, j, e, depth);
    if j < lx.tokens.len() && lx.tokens[j].text == seq![c] {
        assert(seq![c][0] == c);
    }
}

/// A token that does not begin with a character that begins a name is
/// no name.
pub proof fn not_name(s: Seq<char>, lx: Lexed, j: int, e: int, depth: usize)
    requires
        aligned(s, lx, j, e, depth),
        at(s, e) >= s.len() || !is_name_start(s[at(s, e)]),
    ensures
        !lx.is_kind(j, Kind::Name),
{
    token_head(s, lx, j, e, depth);
}

/// Where a character stands at which a token stands, the token that
/// stands at or after that offset begins with it.
pub proof fn next_is(s: Seq<char>, e: int, c: char)
    requires
        0 <= e < s.len(),
        s[e] == c,
        !is_blank_char(c),
        c != '#',
        c != '\u{feff}',
    ensures
        at(s, e) == e,
{
    at_token(s, e);
}

/// The text of a type that is not one that is never null is read: as
/// the type, or as the type that is never null if an exclamation mark
/// follows it.
pub proof fn type_base_reads(s: Seq<char>, lx: Lexed, i: int, off: int, depth: usize, t: TypeModel)
    -> (j: int)
    requires
        aligned(s, lx, i, off, depth),
        stands(s, off, type_text(t)),
        breaks(s, off + type_text(t).len()),
        fit_type(t, depth as int),
        !(t is NonNullType),
    ensures
        aligned(s, lx, j, off + type_text(t).len(), depth),
        i < j,
        parsed_type(lx, i) == non_null(lx, t, j),
    decreases t, 0nat,
{
    punctuators();
    let x = type_text(t);
    let e = off + x.len();
    if e < s.len() {
        break_ends_name(s[e]);
    }
    match t {
        TypeModel::NamedType(n) => {
            name_token(s, lx, i, off, depth, n);
            i + 1
        },
        TypeModel::ListType(u) => {
            let body = type_text(*u);
            assert(x == seq!['['] + body + seq![']']);
            stands_parts(s, off, seq!['['] + body, seq![']']);
            stands_parts(s, off, seq!['['], body);
            stands_chars(s, off, seq!['[']);
            assert(s[off + 0] == seq!['['][0]);
            stands_chars(s, off + 1 + body.len(), seq![']']);
            assert(s[off + 1 + body.len() + 0] == seq![']'][0]);
            next_is(s, off, '[');
            punct_token(s, lx, i, off, depth, '[');
            let d = (depth - 1) as usize;
            next_is(s, off + 1 + body.len(), ']');
            let k = type_reads(s, lx, i + 1, off + 1, d, *u);
            punct_token(s, lx, k, off + 1 + body.len(), d, ']');
            k + 1
        },
        TypeModel::NonNullType(u) => { i },
    }
}

/// The text of a type is read as the type, where no exclamation mark
/// follows it.
pub proof fn type_reads(s: Seq<char>, lx: Lexed, i: int, off: int, depth: usize, t: TypeModel) -> (j:
    int)
    requires
        aligned(s, lx, i, off, depth),
        stands(s, off, type_text(t)),
        breaks(s, off + type_text(t).len()),
        next_is_not(s, off + type_text(t).len(), '!'),
        fit_type(t, depth as int),
    ensures
        parsed_type(lx, i) == Parsed::Done(t, j),
        aligned(s, lx, j, off + type_text(t).len(), depth),
        i < j,
    decreases t, 1nat,
{
    punctuators();
    match t {
        TypeModel::NonNullType(u) => {
            let body = type_text(*u);
            assert(type_text(t) == body + seq!['!']);
            stands_parts(s, off, body, seq!['!']);
            stands_chars(s, off + body.len(), seq!['!']);
            assert(s[off + body.len() + 0] == seq!['!'][0]);
            let k = type_base_reads(s, lx, i, off, depth, *u);
            next_is(s, off + body.len(), '!');
            punct_token(s, lx, k, off + body.len(), depth, '!');
            k + 1
        },
        _ => {
            let k = type_base_reads(s, lx, i, off, depth, t);
            not_punct(s, lx, k, off + type_text(t).len(), depth, '!');
            k
        },
    }
}

/// The text of arguments is read as the arguments. Where there are
/// none, no parenthesis may follow.
pub proof fn arguments_read(
    s: Seq<char>,
    lx: Lexed,
    i: int,
    off: int,
    depth: usize,
    args: Seq<(Seq<char>, ValueModel)>,
    style: Style,
    level: u32,
) -> (j: int)
    requires
        aligned(s, lx, i, off, depth),
        stands(s, off, arguments_text(args, style, level)),
        fit_arguments(args, depth as int),
        args.len() == 0 ==> next_is_not(s, off, '('),
    ensures
        parsed_arguments(lx, i) == Parsed::Done(args, j),
        aligned(s, lx, j, off + arguments_text(args, style, level).len(), depth),
        i <= j,
{
    punctuators();
    if args.len() == 0 {
        not_punct(s, lx, i, off, depth, '(');
        assert(args =~= Seq::<(Seq<char>, ValueModel)>::empty());
        i
    } else {
        let lvl = inner(style, level);
        let body = fields_text(args, style, lvl, args.len());
        let close = close_arguments(style, level, ')');
        let x = arguments_text(args, style, level);
        assert(x == seq!['('] + body + close);
        stands_parts(s, off, seq!['('] + body, close);
        stands_parts(s, off, seq!['('], body);
        stands_chars(s, off, seq!['(']);
        assert(s[off + 0] == seq!['('][0]);
        next_is(s, off, '(');
        punct_token(s, lx, i, off, depth, '(');
        close_breaks(s, off + 1 + body.len(), style, level, ')');
        let d = (depth - 1) as usize;
        let j = pairs_read(s, lx, i + 1, off + 1, d, args, style, lvl, args.len());
        assert(args.take(args.len() as int) =~= args);
        close_token(s, lx, j, off + 1 + body.len(), d, style, level, ')');
        j + 1
    }
}

/// The text of a directive is read as the directive, but for its
/// position. Where it has no arguments, no parenthesis may follow.
pub proof fn directive_reads(
    s: Seq<char>,
    lx: Lexed,
    i: int,
    off: int,
    depth: usize,
    d: DirectiveModel,
    style: Style,
    level: u32,
) -> (j: int)
    requires
        aligned(s, lx, i, off, depth),
        stands(s, off, directive_text(d, style, level)),
        breaks(s, off + directive_text(d, style, level).len()),
        next_is_not(s, off + directive_text(d, style, level).len(), '('),
        is_name(d.name),
        fit_arguments(d.arguments, depth as int),
    ensures
        lx.is_punct(i, "@"@),
        lx.is_kind(i + 1, Kind::Name),
        lx.tokens[i + 1].text == d.name,
        parsed_arguments(lx, i + 2) == Parsed::Done(d.arguments, j),
        aligned(s, lx, j, off + directive_text(d, style, level).len(), depth),
        i + 2 <= j,
{
    punctuators();
    let args = arguments_text(d.arguments, style, level);
    let x = directive_text(d, style, level);
    assert(x == seq!['@'] + d.name + args);
    stands_parts(s, off, seq!['@'] + d.name, args);
    stands_parts(s, off, seq!['@'], d.name);
    stands_chars(s, off, seq!['@']);
    assert(s[off + 0] == seq!['@'][0]);
    next_is(s, off, '@');
    punct_token(s, lx, i, off, depth, '@');
    let e = off + 1 + d.name.len();
    // what follows the name: a parenthesis, or what follows the directive
    if d.arguments.len() > 0 {
        stands_chars(s, e, args);
        assert(s[e + 0] == args[0]);
        assert(args[0] == '(');
    } else {
        assert(args =~= Seq::<char>::empty());
        if e < s.len() {
            break_ends_name(s[e]);
        }
    }
    name_token(s, lx, i + 1, off + 1, depth, d.name);
    arguments_read(s, lx, i + 2, e, depth, d.arguments, style, level)
}

/// The text of the first `n` directives begins with a space and an
/// `@`, if there is one.
pub proof fn directives_text_head(ds: Seq<DirectiveModel>, style: Style, level: u32, n: nat)
    requires
        1 <= n <= ds.len(),
    ensures
        directives_text(ds, style, level, n).len() >= 2,
        directives_text(ds, style, level, n)[0] == ' ',
        directives_text(ds, style, level, n)[1] == '@',
    decreases n,
{
    let d = directive_text(ds[n - 1], style, level);
    assert(d[0] == '@');
    if n > 1 {
        directives_text_head(ds, style, level, (n - 1) as nat);
        let before = directives_text(ds, style, level, (n - 1) as nat);
        let x = directives_text(ds, style, level, n);
        assert(x[0] == before[0] && x[1] == before[1]);
    } else {
        let x = directives_text(ds, style, level, n);
        assert(directives_text(ds, style, level, 0) =~= Seq::<char>::empty());
        assert(x =~= seq![' '] + d);
        assert(x[1] == d[0]);
    }
}

/// Where a space and a character stand at which a token stands, the
/// token that stands at or after the space begins with that character.
pub proof fn next_behind_space(s: Seq<char>, e: int, c: char)
    requires
        0 <= e,
        e + 1 < s.len(),
        s[e] == ' ',
        s[e + 1] == c,
        !is_blank_char(c),
        c != '#',
        c != '\u{feff}',
    ensures
        at(s, e) == e + 1,
        breaks(s, e),
{
    at_blank(s, e);
    at_token(s, e + 1);
}

/// The text of the first `n` directives is read as those directives,
/// but for their positions. No parenthesis may follow it.
pub proof fn directives_read(
    s: Seq<char>,
    lx: Lexed,
    i: int,
    off: int,
    depth: usize,
    ds: Seq<DirectiveModel>,
    style: Style,
    level: u32,
    n: nat,
) -> (r: (int, Seq<DirectiveModel>))
    requires
        aligned(s, lx, i, off, depth),
        n <= ds.len(),
        stands(s, off, directives_text(ds, style, level, n)),
        breaks(s, off + directives_text(ds, style, level, n).len()),
        next_is_not(s, off + directives_text(ds, style, level, n).len(), '('),
        fit_directives(ds, depth as int),
    ensures
        parsed_directives(lx, i, Seq::empty()) == parsed_directives(lx, r.0, r.1),
        bare_directives(r.1) == bare_directives(ds.take(n as int)),
        aligned(s, lx, r.0, off + directives_text(ds, style, level, n).len(), depth),
        i <= r.0,
        n >= 1 ==> i < r.0 && lx.is_punct(i, "@"@),
    decreases n,
{
    punctuators();
    if n == 0 {
        assert(bare_directives(Seq::empty()) =~= bare_directives(ds.take(0)));
        (i, Seq::empty())
    } else {
        let before = directives_text(ds, style, level, (n - 1) as nat);
        let d = ds[n - 1];
        let dt = directive_text(d, style, level);
        let x = directives_text(ds, style, level, n);
        assert(x == before + seq![' '] + dt);
        stands_parts(s, off, before + seq![' '], dt);
        stands_parts(s, off, before, seq![' ']);
        let e = off + before.len();
        stands_chars(s, e, seq![' ']);
        assert(s[e + 0] == seq![' '][0]);
        stands_chars(s, e + 1, dt);
        assert(s[e + 1 + 0] == dt[0]);
        assert(dt[0] == '@');
        next_behind_space(s, e, '@');
        let (k, acc) = if n - 1 == 0 {
            assert(before =~= Seq::<char>::empty());
            assert(bare_directives(Seq::empty()) =~= bare_directives(ds.take(0)));
            (i, Seq::<DirectiveModel>::empty())
        } else {
            directives_read(s, lx, i, off, depth, ds, style, level, (n - 1) as nat)
        };
        let j = directive_reads(s, lx, k, e + 1, depth, d, style, level);
        let read = DirectiveModel { position: lx.pos(k), name: d.name, arguments: d.arguments };
        assert(bare_directive(read) == bare_directive(d));
        assert(bare_directives(acc.push(read)) =~= bare_directives(ds.take(n as int))) by {
            let a = bare_directives(acc.push(read));
            let b = bare_directives(ds.take(n as int));
            assert(bare_directives(acc).len() == acc.len());
            assert(bare_directives(ds.take(n - 1)).len() == n - 1);
            assert forall|m: int| 0 <= m < a.len() implies a[m] == b[m] by {
                if m < n - 1 {
                    assert(bare_directives(acc)[m] == bare_directives(ds.take(n - 1))[m]);
                }
            }
        }
        (j, acc.push(read))
    }
}

/// The token that stands at or after the offset `e` begins as a token
/// does that follows a selection: as a name, as three dots or as the
/// brace that closes the block.
pub open spec fn next_in_block(s: Seq<char>, e: int) -> bool {
    at(s, e) < s.len() && (is_name_start(s[at(s, e)]) || s[at(s, e)] == '.' || s[at(s, e)] == '}')
}

/// Spaces part tokens.
pub proof fn spaces_blank(n: nat)
    ensures
        all_blank(spaces(n)),
        spaces(n).len() == n,
{
}

/// Behind spaces and a character at which a token stands, the token
/// that stands at or after the spaces begins with that character.
pub proof fn next_behind_spaces(s: Seq<char>, e: int, n: nat, c: char)
    requires
        stands(s, e, spaces(n)),
        e + n < s.len(),
        s[e + n] == c,
        !is_blank_char(c),
        c != '#',
        c != '\u{feff}',
    ensures
        at(s, e) == e + n,
{
    spaces_blank(n);
    at_blanks(s, e, spaces(n));
    at_token(s, e + n);
}

/// The first character of a selection behind its indent: that of a
/// name, or a dot.
pub proof fn selection_text_head(sel: SelectionModel, style: Style, level: u32)
    requires
        exists|room: int| fit_selection(sel, room),
    ensures
        selection_text(sel, style, level).len() > level,
        forall|k: int| 0 <= k < level ==> selection_text(sel, style, level)[k] == ' ',
        is_name_start(selection_text(sel, style, level)[level as int]) || selection_text(
            sel,
            style,
            level,
        )[level as int] == '.',
{
    let x = selection_text(sel, style, level);
    let sp = spaces(level as nat);
    match sel {
        SelectionModel::Field(f) => {
            let al = match f.alias {
                Some(alias) => alias + seq![':', ' '],
                None => Seq::<char>::empty(),
            };
            let rest = x.subrange(level as int, x.len() as int);
            assert(x.subrange(0, level as int) =~= sp);
            assert forall|k: int| 0 <= k < level implies x[k] == ' ' by {
                assert(x[k] == sp[k]);
            }
            if f.alias is Some {
                assert(x[level as int] == f.alias->0[0]);
            } else {
                assert(al =~= Seq::<char>::empty());
                assert(x[level as int] == f.name[0]);
            }
        },
        SelectionModel::FragmentSpread(f) => {
            assert forall|k: int| 0 <= k < level implies x[k] == ' ' by {
                assert(x[k] == sp[k]);
            }
            assert(x[level as int] == '.');
        },
        SelectionModel::InlineFragment(f) => {
            assert forall|k: int| 0 <= k < level implies x[k] == ' ' by {
                assert(x[k] == sp[k]);
            }
            assert(x[level as int] == '.');
        },
    }
}

/// Where the text of a selection stands, the token that stands at or
/// after its offset begins as a selection does.
pub proof fn selection_begins(
    s: Seq<char>,
    off: int,
    sel: SelectionModel,
    style: Style,
    level: u32,
)
    requires
        stands(s, off, selection_text(sel, style, level)),
        exists|room: int| fit_selection(sel, room),
    ensures
        at(s, off) == off + level,
        next_in_block(s, off),
        s[off + level] != '}',
        breaks(s, off) || level == 0,
{
    let x = selection_text(sel, style, level);
    selection_text_head(sel, style, level);
    stands_chars(s, off, x);
    assert(s[off + level] == x[level as int]);
    assert(stands(s, off, spaces(level as nat))) by {
        assert(s.subrange(off, off + level) =~= spaces(level as nat)) by {
            assert forall|k: int| 0 <= k < level implies s[off + k] == spaces(level as nat)[k] by {
                assert(s[off + k] == x[k]);
            }
        }
    }
    next_behind_spaces(s, off, level as nat, s[off + level]);
    if level > 0 {
        assert(s[off + 0] == x[0]);
    }
}

/// The line of the brace that closes a block is read: the brace is the
/// next token behind the indent.
pub proof fn block_end_token(s: Seq<char>, lx: Lexed, i: int, off: int, depth: usize, level: u32)
    requires
        aligned(s, lx, i, off, depth),
        stands(s, off, end_of_block(level)),
        depth < usize::MAX,
    ensures
        lx.is_punct(i, "}"@),
        aligned(s, lx, i + 1, off + end_of_block(level).len(), (depth + 1) as usize),
        next_in_block(s, off),
{
    punctuators();
    let sp = spaces(level as nat);
    let x = end_of_block(level);
    assert(x == sp + seq!['}', '\n']);
    stands_parts(s, off, sp, seq!['}', '\n']);
    let o = off + sp.len();
    stands_chars(s, o, seq!['}', '\n']);
    assert(s[o + 0] == seq!['}', '\n'][0] && s[o + 1] == seq!['}', '\n'][1]);
    next_behind_spaces(s, off, level as nat, '}');
    punct_token(s, lx, i, o, depth, '}');
    at_blank(s, o + 1);
}

/// The text of a block of selections is read as the block, but for its
/// positions.
pub proof fn block_reads(
    s: Seq<char>,
    lx: Lexed,
    i: int,
    off: int,
    depth: usize,
    items: Seq<SelectionModel>,
    style: Style,
    level: u32,
) -> (r: (int, SelectionSetModel))
    requires
        aligned(s, lx, i, off, depth),
        stands(s, off, block_text(items, style, level)),
        fit_block(items, depth as int),
        s[off] == '{',
    ensures
        parsed_selection_set(lx, i) == Parsed::Done(r.1, r.0),
        bare_selections(r.1.items) == bare_selections(items),
        aligned(s, lx, r.0, off + block_text(items, style, level).len(), depth),
        i < r.0,
        lx.is_punct(i, "{"@),
    decreases items, items.len() + 1,
{
    punctuators();
    let lvl = deeper(level, style.width());
    let head = seq!['{', '\n'];
    let body = selections_text(items, style, lvl, items.len());
    let end = end_of_block(level);
    let x = block_text(items, style, level);
    assert(x == head + body + end);
    stands_parts(s, off, head + body, end);
    stands_parts(s, off, head, body);
    stands_chars(s, off, head);
    assert(s[off + 0] == head[0] && s[off + 1] == head[1]);
    next_is(s, off, '{');
    punct_token(s, lx, i, off, depth, '{');
    at_blank(s, off + 1);
    let d = (depth - 1) as usize;
    let e = off + 2 + body.len();
    // the brace that closes the block follows the selections
    assert(next_in_block(s, e)) by {
        let sp = spaces(level as nat);
        assert(end == sp + seq!['}', '\n']);
        stands_parts(s, e, sp, seq!['}', '\n']);
        stands_chars(s, e + sp.len(), seq!['}', '\n']);
        assert(s[e + sp.len() + 0] == seq!['}', '\n'][0]);
        next_behind_spaces(s, e, level as nat, '}');
    }
    let (k, acc) = selections_read(s, lx, i + 1, off + 2, d, items, style, lvl, items.len());
    assert(items.take(items.len() as int) =~= items);
    block_end_token(s, lx, k, e, d, level);
    // the first selection begins the block
    assert(starts_selection(lx, i + 1)) by {
        first_selection(s, lx, i + 1, off + 2, d, items, style, lvl);
    }
    assert(!starts_selection(lx, k)) by {
        unlike('}', '.');
        assert(lx.tokens[k].text == seq!['}']);
        assert(lx.tokens[k].text.len() == 1);
        assert("..."@.len() == 3);
    }
    let set = SelectionSetModel { span: (lx.pos(i), lx.pos(k)), items: acc };
    (k + 1, set)
}

/// The first token of a block of selections begins a selection.
proof fn first_selection(
    s: Seq<char>,
    lx: Lexed,
    i: int,
    off: int,
    depth: usize,
    items: Seq<SelectionModel>,
    style: Style,
    level: u32,
)
    requires
        aligned(s, lx, i, off, depth),
        items.len() > 0,
        stands(s, off, selections_text(items, style, level, items.len())),
        fit_selections(items, depth as int),
    ensures
        starts_selection(lx, i),
{
    punctuators();
    let x = selections_text(items, style, level, items.len());
    selections_text_first(items, style, level, items.len());
    let first = selection_text(items[0], style, level);
    assert(fit_selection(items[0], depth as int));
    selection_text_head(items[0], style, level);
    assert(stands(s, off, first)) by {
        stands_chars(s, off, x);
        assert(s.subrange(off, off + first.len()) =~= first) by {
            assert forall|k: int| 0 <= k < first.len() implies s[off + k] == first[k] by {
                assert(x[k] == first[k]);
            }
        }
    }
    selection_begins(s, off, items[0], style, level);
    let o = off + level;
    let c = s[o];
    stands_chars(s, off, first);
    if c == '.' {
        // three dots
        match items[0] {
            SelectionModel::Field(f) => {
                assert(first[level as int] != '.') by {
                    if f.alias is Some {
                        assert(first[level as int] == f.alias->0[0]);
                    } else {
                        assert(first[level as int] == f.name[0]);
                    }
                }
                assert(s[off + level] == first[level as int]);
            },
            _ => {
                assert(first.len() >= level + 3);
                assert(s[off + (level + 0)] == first[level + 0]);
                assert(s[off + (level + 1)] == first[level + 1]);
                assert(s[off + (level + 2)] == first[level + 2]);
                assert(first[level + 0] == '.' && first[level + 1] == '.' && first[level + 2]
                    == '.');
                assert(stands(s, o, seq!['.', '.', '.'])) by {
                    assert(s.subrange(o, o + 3) =~= seq!['.', '.', '.']);
                }
                assert(aligned(s, lx, i, o, depth));
                spread_token(s, lx, i, o, depth);
            },
        }
    } else {
        // a name
        token_head(s, lx, i, off, depth);
        assert(at(s, off) == o);
        assert(crate::tokenizer::scan_token(s, cursor_at(lx, i, depth)) is Token);
        token_step(s, lx, i, off, depth);
    }
}

/// The text of selections begins with the text of the first of them.
proof fn selections_text_first(items: Seq<SelectionModel>, style: Style, level: u32, n: nat)
    requires
        1 <= n <= items.len(),
    ensures
        selections_text(items, style, level, n).len() >= selection_text(
            items[0],
            style,
            level,
        ).len(),
        forall|k: int|
            0 <= k < selection_text(items[0], style, level).len() ==> selections_text(
                items,
                style,
                level,
                n,
            )[k] == selection_text(items[0], style, level)[k],
    decreases n,
{
    if n > 1 {
        selections_text_first(items, style, level, (n - 1) as nat);
    } else {
        assert(selections_text(items, style, level, 0) =~= Seq::<char>::empty());
        assert(selections_text(items, style, level, 1) =~= selection_text(items[0], style, level));
    }
}

/// The text of the first `n` selections is read as those selections,
/// but for their positions.
pub proof fn selections_read(
    s: Seq<char>,
    lx: Lexed,
    i: int,
    off: int,
    depth: usize,
    items: Seq<SelectionModel>,
    style: Style,
    level: u32,
    n: nat,
) -> (r: (int, Seq<SelectionModel>))
    requires
        aligned(s, lx, i, off, depth),
        n <= items.len(),
        stands(s, off, selections_text(items, style, level, n)),
        next_in_block(s, off + selections_text(items, style, level, n).len()),
        fit_selections(items, depth as int),
    ensures
        parsed_selections(lx, i, Seq::empty()) == parsed_selections(lx, r.0, r.1),
        bare_selections(r.1) == bare_selections(items.take(n as int)),
        aligned(s, lx, r.0, off + selections_text(items, style, level, n).len(), depth),
        i <= r.0,
    decreases items, n,
{
    if n == 0 {
        assert(bare_selections(Seq::empty()) =~= bare_selections(items.take(0)));
        (i, Seq::empty())
    } else {
        let before = selections_text(items, style, level, (n - 1) as nat);
        let sel = items[n - 1];
        let st = selection_text(sel, style, level);
        assert(selections_text(items, style, level, n) == before + st);
        stands_parts(s, off, before, st);
        let e = off + before.len();
        assert(fit_selection(sel, depth as int));
        selection_begins(s, e, sel, style, level);
        let (k, acc) = if n - 1 == 0 {
            assert(before =~= Seq::<char>::empty());
            assert(bare_selections(Seq::empty()) =~= bare_selections(items.take(0)));
            (i, Seq::<SelectionModel>::empty())
        } else {
            selections_read(s, lx, i, off, depth, items, style, level, (n - 1) as nat)
        };
        let (j, read) = selection_reads(s, lx, k, e, depth, sel, style, level);
        assert(bare_selections(acc.push(read)) =~= bare_selections(items.take(n as int))) by {
            let a = bare_selections(acc.push(read));
            let b = bare_selections(items.take(n as int));
            assert(bare_selections(acc).len() == acc.len());
            assert(bare_selections(items.take(n - 1)).len() == n - 1);
            assert forall|m: int| 0 <= m < a.len() implies a[m] == b[m] by {
                if m < n - 1 {
                    assert(bare_selections(acc)[m] == bare_selections(items.take(n - 1))[m]);
                    assert(acc.push(read)[m] == acc[m]);
                    assert(items.take(n as int)[m] == items.take(n - 1)[m]);
                }
            }
        }
        (j, acc.push(read))
    }
}

/// What closes the line of a field or of an inline fragment: a block of
/// its own behind a space, or the end of the line.
pub open spec fn is_line_end(s: Seq<char>, o: int, t: Seq<char>) -> bool {
    &&& stands(s, o, t)
    &&& t.len() >= 1
    &&& ((t.len() >= 2 && t[0] == ' ' && t[1] == '{') || (t == seq!['\n'] && next_in_block(
        s,
        o + 1,
    )))
}

/// What the end of a line tells of the token that follows: it is no
/// colon, no parenthesis and no `@`, and a brace only where a block
/// follows.
proof fn line_end_next(s: Seq<char>, o: int, t: Seq<char>)
    requires
        is_line_end(s, o, t),
    ensures
        o < s.len(),
        !is_name_char(s[o]),
        breaks(s, o),
        next_is_not(s, o, ':'),
        next_is_not(s, o, '('),
        next_is_not(s, o, '@'),
        t[0] == '\n' ==> next_is_not(s, o, '{') && at(s, o) == at(s, o + 1),
        t[0] == ' ' ==> at(s, o) == o + 1 && s[o + 1] == '{',
{
    stands_chars(s, o, t);
    assert(s[o + 0] == t[0]);
    at_blank(s, o);
    if t[0] == ' ' {
        assert(s[o + 1] == t[1]);
        at_token(s, o + 1);
    }
}

/// What directives tell of the token that follows what stands before
/// them: it is an `@`.
proof fn directives_next(s: Seq<char>, o: int, ds: Seq<DirectiveModel>, style: Style, level: u32)
    requires
        stands(s, o, directives_text(ds, style, level, ds.len())),
        ds.len() > 0,
    ensures
        o + 1 < s.len(),
        !is_name_char(s[o]),
        breaks(s, o),
        at(s, o) == o + 1,
        s[o + 1] == '@',
{
    let t = directives_text(ds, style, level, ds.len());
    directives_text_head(ds, style, level, ds.len());
    stands_chars(s, o, t);
    assert(s[o + 0] == t[0] && s[o + 1] == t[1]);
    next_behind_space(s, o, '@');
}

/// What arguments tell of the token that follows what stands before
/// them: it is a parenthesis.
proof fn arguments_next(
    s: Seq<char>,
    o: int,
    args: Seq<(Seq<char>, ValueModel)>,
    style: Style,
    level: u32,
)
    requires
        stands(s, o, arguments_text(args, style, level)),
        args.len() > 0,
    ensures
        o < s.len(),
        !is_name_char(s[o]),
        breaks(s, o),
        at(s, o) == o,
        s[o] == '(',
{
    let t = arguments_text(args, style, level);
    stands_chars(s, o, t);
    assert(s[o + 0] == t[0]);
    at_token(s, o);
}

/// Behind the name of a field stand its arguments, its directives and
/// the end of its line, as far as they are there: what they tell of
/// the tokens that follow the name, the arguments and the directives.
proof fn behind_name(
    s: Seq<char>,
    o: int,
    args: Seq<(Seq<char>, ValueModel)>,
    ds: Seq<DirectiveModel>,
    end: Seq<char>,
    style: Style,
    level: u32,
)
    requires
        stands(s, o, arguments_text(args, style, level)),
        stands(
            s,
            o + arguments_text(args, style, level).len(),
            directives_text(ds, style, level, ds.len()),
        ),
        is_line_end(
            s,
            o + arguments_text(args, style, level).len() + directives_text(
                ds,
                style,
                level,
                ds.len(),
            ).len(),
            end,
        ),
    ensures
        o < s.len(),
        !is_name_char(s[o]),
        breaks(s, o),
        next_is_not(s, o, ':'),
        args.len() == 0 ==> next_is_not(s, o, '('),
        breaks(s, o + arguments_text(args, style, level).len()),
        next_is_not(s, o + arguments_text(args, style, level).len(), '('),
{
    let a = arguments_text(args, style, level);
    let d = directives_text(ds, style, level, ds.len());
    let o1 = o + a.len();
    let o2 = o1 + d.len();
    line_end_next(s, o2, end);
    if ds.len() > 0 {
        directives_next(s, o1, ds, style, level);
    } else {
        assert(d =~= Seq::<char>::empty());
    }
    if args.len() > 0 {
        arguments_next(s, o, args, style, level);
    } else {
        assert(a =~= Seq::<char>::empty());
    }
}

/// The line of a field up to the end of its directives is read:
/// behind its name, its arguments and its directives.
proof fn field_line_reads(
    s: Seq<char>,
    lx: Lexed,
    k: int,
    o: int,
    depth: usize,
    f: FieldModel,
    end: Seq<char>,
    style: Style,
    level: u32,
) -> (r: (int, Seq<DirectiveModel>))
    requires
        aligned(s, lx, k, o, depth),
        stands(s, o, arguments_text(f.arguments, style, level)),
        stands(
            s,
            o + arguments_text(f.arguments, style, level).len(),
            directives_text(f.directives, style, level, f.directives.len()),
        ),
        is_line_end(
            s,
            o + arguments_text(f.arguments, style, level).len() + directives_text(
                f.directives,
                style,
                level,
                f.directives.len(),
            ).len(),
            end,
        ),
        fit_arguments(f.arguments, depth as int),
        fit_directives(f.directives, depth as int),
    ensures
        k <= r.0,
        match parsed_arguments(lx, k) {
            Parsed::Done(arguments, j) => arguments == f.arguments && parsed_directives(
                lx,
                j,
                Seq::empty(),
            ) == Parsed::Done(r.1, r.0),
            Parsed::Failed(_) => false,
        },
        bare_directives(r.1) == bare_directives(f.directives),
        aligned(
            s,
            lx,
            r.0,
            o + arguments_text(f.arguments, style, level).len() + directives_text(
                f.directives,
                style,
                level,
                f.directives.len(),
            ).len(),
            depth,
        ),
{
    punctuators();
    let a = arguments_text(f.arguments, style, level);
    let d = directives_text(f.directives, style, level, f.directives.len());
    behind_name(s, o, f.arguments, f.directives, end, style, level);
    let j = arguments_read(s, lx, k, o, depth, f.arguments, style, level);
    let o2 = o + a.len() + d.len();
    line_end_next(s, o2, end);
    let (m, acc) = directives_read(
        s,
        lx,
        j,
        o + a.len(),
        depth,
        f.directives,
        style,
        level,
        f.directives.len(),
    );
    assert(f.directives.take(f.directives.len() as int) =~= f.directives);
    not_punct(s, lx, m, o2, depth, '@');
    (m, acc)
}

/// What the literal of the word `on` holds.
pub proof fn word_on()
    ensures
        "on"@ == seq!['o', 'n'],
        is_name("on"@),
{
    reveal_strlit("on");
    assert("on"@ =~= seq!['o', 'n']);
}

/// What stands before the name of a field: its alias, a colon and a
/// space, if it has an alias.
pub open spec fn alias_text(f: FieldModel) -> Seq<char> {
    match f.alias {
        Some(alias) => alias + seq![':', ' '],
        None => Seq::empty(),
    }
}

/// What closes the line of a field: its block behind a space, or the
/// end of the line.
pub open spec fn field_end_text(f: FieldModel, style: Style, level: u32) -> Seq<char> {
    if f.selection_set.items.len() > 0 {
        seq![' '] + block_text(f.selection_set.items, style, level)
    } else {
        seq!['\n']
    }
}

/// The parts of the text of a field stand where the text stands.
proof fn field_layout(s: Seq<char>, off: int, f: FieldModel, style: Style, level: u32)
    requires
        stands(s, off, selection_text(SelectionModel::Field(f), style, level)),
        next_in_block(s, off + selection_text(SelectionModel::Field(f), style, level).len()),
    ensures
        stands(s, off, spaces(level as nat)),
        stands(s, off + level, alias_text(f)),
        stands(s, off + level + alias_text(f).len(), f.name),
        stands(
            s,
            off + level + alias_text(f).len() + f.name.len(),
            arguments_text(f.arguments, style, level),
        ),
        stands(
            s,
            off + level + alias_text(f).len() + f.name.len() + arguments_text(
                f.arguments,
                style,
                level,
            ).len(),
            directives_text(f.directives, style, level, f.directives.len()),
        ),
        is_line_end(
            s,
            off + level + alias_text(f).len() + f.name.len() + arguments_text(
                f.arguments,
                style,
                level,
            ).len() + directives_text(f.directives, style, level, f.directives.len()).len(),
            field_end_text(f, style, level),
        ),
        selection_text(SelectionModel::Field(f), style, level).len() == level + alias_text(
            f,
        ).len() + f.name.len() + arguments_text(f.arguments, style, level).len()
            + directives_text(f.directives, style, level, f.directives.len()).len()
            + field_end_text(f, style, level).len(),
{
    let sp = spaces(level as nat);
    let al = alias_text(f);
    let a = arguments_text(f.arguments, style, level);
    let d = directives_text(f.directives, style, level, f.directives.len());
    let end = field_end_text(f, style, level);
    let x = selection_text(SelectionModel::Field(f), style, level);
    assert(x == sp + al + f.name + a + d + end);
    stands_parts(s, off, sp + al + f.name + a + d, end);
    stands_parts(s, off, sp + al + f.name + a, d);
    stands_parts(s, off, sp + al + f.name, a);
    stands_parts(s, off, sp + al, f.name);
    stands_parts(s, off, sp, al);
    if f.selection_set.items.len() > 0 {
        let bt = block_text(f.selection_set.items, style, level);
        assert(bt[0] == '{');
        assert(end[1] == bt[0]);
    }
}

/// The alias and the name of a field are read: the name alone, or an
/// alias, a colon and the name.
proof fn field_head_reads(
    s: Seq<char>,
    lx: Lexed,
    i: int,
    o: int,
    depth: usize,
    f: FieldModel,
) -> (k: int)
    requires
        aligned(s, lx, i, o, depth),
        stands(s, o, alias_text(f)),
        stands(s, o + alias_text(f).len(), f.name),
        is_name(f.name),
        f.alias is Some ==> is_name(f.alias->0),
        o + alias_text(f).len() + f.name.len() < s.len(),
        !is_name_char(s[o + alias_text(f).len() + f.name.len()]),
        next_is_not(s, o + alias_text(f).len() + f.name.len(), ':'),
    ensures
        lx.is_kind(i, Kind::Name),
        aligned(s, lx, k, o + alias_text(f).len() + f.name.len(), depth),
        f.alias is Some ==> k == i + 3 && lx.is_punct(i + 1, ":"@) && lx.is_kind(
            i + 2,
            Kind::Name,
        ) && lx.tokens[i].text == f.alias->0 && lx.tokens[i + 2].text == f.name,
        f.alias is None ==> k == i + 1 && !lx.is_punct(i + 1, ":"@) && lx.tokens[i].text
            == f.name,
{
    punctuators();
    let al = alias_text(f);
    if f.alias is Some {
        let alias = f.alias->0;
        stands_parts(s, o, alias, seq![':', ' ']);
        stands_chars(s, o + alias.len(), seq![':', ' ']);
        assert(s[o + alias.len() + 0] == seq![':', ' '][0]);
        assert(s[o + alias.len() + 1] == seq![':', ' '][1]);
        name_token(s, lx, i, o, depth, alias);
        next_is(s, o + alias.len(), ':');
        punct_token(s, lx, i + 1, o + alias.len(), depth, ':');
        at_blank(s, o + alias.len() + 1);
        name_token(s, lx, i + 2, o + al.len(), depth, f.name);
        i + 3
    } else {
        assert(al =~= Seq::<char>::empty());
        name_token(s, lx, i, o, depth, f.name);
        not_punct(s, lx, i + 1, o + f.name.len(), depth, ':');
        i + 1
    }
}

/// The text of a field is read as the field, but for its positions.
#[verifier::rlimit(60)]
pub proof fn field_reads(
    s: Seq<char>,
    lx: Lexed,
    i: int,
    off: int,
    depth: usize,
    sel: SelectionModel,
    style: Style,
    level: u32,
) -> (r: (int, FieldModel))
    requires
        sel is Field,
        aligned(s, lx, i, off, depth),
        stands(s, off, selection_text(sel, style, level)),
        next_in_block(s, off + selection_text(sel, style, level).len()),
        fit_selection(sel, depth as int),
    ensures
        parsed_field(lx, i) == Parsed::Done(r.1, r.0),
        lx.is_kind(i, Kind::Name),
        bare_selection(SelectionModel::Field(r.1)) == bare_selection(sel),
        aligned(s, lx, r.0, off + selection_text(sel, style, level).len(), depth),
        i < r.0,
    decreases sel, 0nat,
{
    let f = sel->Field_0;
    let items = f.selection_set.items;
    let end = field_end_text(f, style, level);
    let a = arguments_text(f.arguments, style, level);
    let d = directives_text(f.directives, style, level, f.directives.len());
    let o0 = off + level;
    let o_args = o0 + alias_text(f).len() + f.name.len();
    let o_end = o_args + a.len() + d.len();
    field_layout(s, off, f, style, level);
    behind_name(s, o_args, f.arguments, f.directives, end, style, level);
    line_end_next(s, o_end, end);
    assert(aligned(s, lx, i, o0, depth)) by {
        spaces_blank(level as nat);
        at_blanks(s, off, spaces(level as nat));
    }
    let k = field_head_reads(s, lx, i, o0, depth, f);
    let (m, acc) = field_line_reads(s, lx, k, o_args, depth, f, end, style, level);
    if items.len() > 0 {
        let bt = block_text(items, style, level);
        stands_parts(s, o_end, seq![' '], bt);
        let (n, set) = block_reads(s, lx, m, o_end + 1, depth, items, style, level);
        let read = FieldModel {
            position: lx.pos(i),
            alias: f.alias,
            name: f.name,
            arguments: f.arguments,
            directives: acc,
            selection_set: set,
        };
        field_parsed(lx, i, k, m, n, f, acc, set, true);
        (n, read)
    } else {
        assert(!lx.is_punct(m, "{"@)) by {
            punctuators();
            not_punct(s, lx, m, o_end, depth, '{');
        }
        let set = no_selection_set(lx.pos(i));
        let read = FieldModel {
            position: lx.pos(i),
            alias: f.alias,
            name: f.name,
            arguments: f.arguments,
            directives: acc,
            selection_set: set,
        };
        assert(bare_selections(Seq::empty()) =~= bare_selections(items));
        field_parsed(lx, i, k, m, m, f, acc, set, false);
        (m, read)
    }
}

/// What the grammar makes of the tokens of a field whose parts are
/// known.
proof fn field_parsed(
    lx: Lexed,
    i: int,
    k: int,
    m: int,
    n: int,
    f: FieldModel,
    acc: Seq<DirectiveModel>,
    set: SelectionSetModel,
    block: bool,
)
    requires
        lx.is_kind(i, Kind::Name),
        f.alias is Some ==> k == i + 3 && lx.is_punct(i + 1, ":"@) && lx.is_kind(
            i + 2,
            Kind::Name,
        ) && lx.tokens[i].text == f.alias->0 && lx.tokens[i + 2].text == f.name,
        f.alias is None ==> k == i + 1 && !lx.is_punct(i + 1, ":"@) && lx.tokens[i].text
            == f.name,
        match parsed_arguments(lx, k) {
            Parsed::Done(arguments, j) => arguments == f.arguments && parsed_directives(
                lx,
                j,
                Seq::empty(),
            ) == Parsed::Done(acc, m),
            Parsed::Failed(_) => false,
        },
        i < m,
        block ==> lx.is_punct(m, "{"@) && parsed_selection_set(lx, m) == Parsed::Done(set, n),
        !block ==> !lx.is_punct(m, "{"@) && set == no_selection_set(lx.pos(i)) && n == m,
    ensures
        parsed_field(lx, i) == Parsed::Done(
            FieldModel {
                position: lx.pos(i),
                alias: f.alias,
                name: f.name,
                arguments: f.arguments,
                directives: acc,
                selection_set: set,
            },
            n,
        ),
{
}

/// The text of a fragment spread is read as the spread, but for its
/// positions.
pub proof fn spread_reads(
    s: Seq<char>,
    lx: Lexed,
    i: int,
    off: int,
    depth: usize,
    sel: SelectionModel,
    style: Style,
    level: u32,
) -> (r: (int, SelectionModel))
    requires
        sel is FragmentSpread,
        aligned(s, lx, i, off, depth),
        stands(s, off, selection_text(sel, style, level)),
        next_in_block(s, off + selection_text(sel, style, level).len()),
        fit_selection(sel, depth as int),
    ensures
        parsed_selection(lx, i) == Parsed::Done(r.1, r.0),
        bare_selection(r.1) == bare_selection(sel),
        aligned(s, lx, r.0, off + selection_text(sel, style, level).len(), depth),
        i < r.0,
{
    punctuators();
    word_on();
    let f = sel->FragmentSpread_0;
    let sp = spaces(level as nat);
    let dots = seq!['.', '.', '.'];
    let d = directives_text(f.directives, style, level, f.directives.len());
    let nl = seq!['\n'];
    let x = selection_text(sel, style, level);
    assert(x == sp + dots + f.fragment_name + d + nl);
    stands_parts(s, off, sp + dots + f.fragment_name + d, nl);
    stands_parts(s, off, sp + dots + f.fragment_name, d);
    stands_parts(s, off, sp + dots, f.fragment_name);
    stands_parts(s, off, sp, dots);
    let o0 = off + sp.len();
    let o_name = o0 + 3;
    let o_d = o_name + f.fragment_name.len();
    let o_nl = o_d + d.len();
    stands_chars(s, o_nl, nl);
    assert(s[o_nl + 0] == nl[0]);
    at_blank(s, o_nl);
    if f.directives.len() > 0 {
        directives_next(s, o_d, f.directives, style, level);
    } else {
        assert(d =~= Seq::<char>::empty());
    }
    spaces_blank(level as nat);
    at_blanks(s, off, sp);
    spread_token(s, lx, i, o0, depth);
    name_token(s, lx, i + 1, o_name, depth, f.fragment_name);
    let (m, acc) = directives_read(
        s,
        lx,
        i + 2,
        o_d,
        depth,
        f.directives,
        style,
        level,
        f.directives.len(),
    );
    assert(f.directives.take(f.directives.len() as int) =~= f.directives);
    not_punct(s, lx, m, o_nl, depth, '@');
    let read = SelectionModel::FragmentSpread(
        FragmentSpreadModel {
            position: lx.pos(i + 1),
            fragment_name: f.fragment_name,
            directives: acc,
        },
    );
    (m, read)
}

/// What stands behind the dots of an inline fragment: `on` and the
/// name of a type, if it has a type condition.
pub open spec fn condition_text(f: InlineFragmentModel) -> Seq<char> {
    match f.type_condition {
        Some(name) => seq![' ', 'o', 'n', ' '] + name,
        None => Seq::empty(),
    }
}

/// The parts of the text of an inline fragment stand where the text
/// stands.
proof fn inline_layout(s: Seq<char>, off: int, f: InlineFragmentModel, style: Style, level: u32)
    requires
        stands(s, off, selection_text(SelectionModel::InlineFragment(f), style, level)),
    ensures
        stands(s, off, spaces(level as nat)),
        stands(s, off + level, seq!['.', '.', '.']),
        stands(s, off + level + 3, condition_text(f)),
        stands(
            s,
            off + level + 3 + condition_text(f).len(),
            directives_text(f.directives, style, level, f.directives.len()),
        ),
        stands(
            s,
            off + level + 3 + condition_text(f).len() + directives_text(
                f.directives,
                style,
                level,
                f.directives.len(),
            ).len() + 1,
            block_text(f.selection_set.items, style, level),
        ),
        s[off + level + 3 + condition_text(f).len() + directives_text(
            f.directives,
            style,
            level,
            f.directives.len(),
        ).len()] == ' ',
        s[off + level + 3 + condition_text(f).len() + directives_text(
            f.directives,
            style,
            level,
            f.directives.len(),
        ).len() + 1] == '{',
        selection_text(SelectionModel::InlineFragment(f), style, level).len() == level + 3
            + condition_text(f).len() + directives_text(
            f.directives,
            style,
            level,
            f.directives.len(),
        ).len() + 1 + block_text(f.selection_set.items, style, level).len(),
{
    let sp = spaces(level as nat);
    let dots = seq!['.', '.', '.'];
    let cp = condition_text(f);
    let d = directives_text(f.directives, style, level, f.directives.len());
    let bt = block_text(f.selection_set.items, style, level);
    let x = selection_text(SelectionModel::InlineFragment(f), style, level);
    assert(x == sp + dots + cp + d + seq![' '] + bt);
    stands_parts(s, off, sp + dots + cp + d + seq![' '], bt);
    stands_parts(s, off, sp + dots + cp + d, seq![' ']);
    stands_parts(s, off, sp + dots + cp, d);
    stands_parts(s, off, sp + dots, cp);
    stands_parts(s, off, sp, dots);
    let o_sp = off + level + 3 + cp.len() + d.len();
    stands_chars(s, o_sp, seq![' ']);
    assert(s[o_sp + 0] == seq![' '][0]);
    stands_chars(s, o_sp + 1, bt);
    assert(bt[0] == '{');
    assert(s[o_sp + 1 + 0] == bt[0]);
}

/// The type condition of an inline fragment is read, if there is one:
/// `on` and a name.
proof fn condition_reads(
    s: Seq<char>,
    lx: Lexed,
    i: int,
    o: int,
    depth: usize,
    f: InlineFragmentModel,
) -> (k: int)
    requires
        aligned(s, lx, i, o, depth),
        stands(s, o, condition_text(f)),
        f.type_condition is Some ==> is_name(f.type_condition->0),
        o + condition_text(f).len() < s.len(),
        !is_name_char(s[o + condition_text(f).len()]),
    ensures
        aligned(s, lx, k, o + condition_text(f).len(), depth),
        f.type_condition is Some ==> k == i + 2 && lx.is_word(i, "on"@) && lx.is_kind(
            i + 1,
            Kind::Name,
        ) && lx.tokens[i + 1].text == f.type_condition->0,
        f.type_condition is None ==> k == i,
{
    word_on();
    let cp = condition_text(f);
    if f.type_condition is Some {
        let name = f.type_condition->0;
        let on = seq![' ', 'o', 'n', ' '];
        stands_parts(s, o, on, name);
        stands_chars(s, o, on);
        assert(s[o + 0] == on[0] && s[o + 1] == on[1] && s[o + 2] == on[2] && s[o + 3] == on[3]);
        at_blank(s, o);
        assert(stands(s, o + 1, seq!['o', 'n'])) by {
            assert(s.subrange(o + 1, o + 3) =~= seq!['o', 'n']);
        }
        name_token(s, lx, i, o + 1, depth, seq!['o', 'n']);
        at_blank(s, o + 3);
        name_token(s, lx, i + 1, o + 4, depth, name);
        i + 2
    } else {
        assert(cp =~= Seq::<char>::empty());
        i
    }
}

/// What the grammar makes of the tokens of an inline fragment whose
/// parts are known.
proof fn inline_parsed(
    lx: Lexed,
    i: int,
    k: int,
    m: int,
    n: int,
    f: InlineFragmentModel,
    acc: Seq<DirectiveModel>,
    set: SelectionSetModel,
)
    requires
        lx.is_punct(i, "..."@),
        f.type_condition is Some ==> k == i + 3 && lx.is_word(i + 1, "on"@) && lx.is_kind(
            i + 2,
            Kind::Name,
        ) && lx.tokens[i + 2].text == f.type_condition->0,
        f.type_condition is None ==> k == i + 1 && !lx.is_word(i + 1, "on"@) && (lx.is_punct(
            i + 1,
            "@"@,
        ) || lx.is_punct(i + 1, "{"@)),
        parsed_directives(lx, k, Seq::empty()) == Parsed::Done(acc, m),
        k <= m <= lx.tokens.len(),
        parsed_selection_set(lx, m) == Parsed::Done(set, n),
    ensures
        parsed_selection(lx, i) == Parsed::Done(
            SelectionModel::InlineFragment(
                InlineFragmentModel {
                    position: lx.pos(i + 1),
                    type_condition: f.type_condition,
                    directives: acc,
                    selection_set: set,
                },
            ),
            n,
        ),
{
}

/// The text of an inline fragment is read as the fragment, but for its
/// positions.
#[verifier::rlimit(60)]
pub proof fn inline_reads(
    s: Seq<char>,
    lx: Lexed,
    i: int,
    off: int,
    depth: usize,
    sel: SelectionModel,
    style: Style,
    level: u32,
) -> (r: (int, SelectionModel))
    requires
        sel is InlineFragment,
        aligned(s, lx, i, off, depth),
        stands(s, off, selection_text(sel, style, level)),
        fit_selection(sel, depth as int),
    ensures
        parsed_selection(lx, i) == Parsed::Done(r.1, r.0),
        bare_selection(r.1) == bare_selection(sel),
        aligned(s, lx, r.0, off + selection_text(sel, style, level).len(), depth),
        i < r.0,
    decreases sel, 0nat,
{
    let f = sel->InlineFragment_0;
    let items = f.selection_set.items;
    let d = directives_text(f.directives, style, level, f.directives.len());
    let o0 = off + level;
    let o_cp = o0 + 3;
    let o_d = o_cp + condition_text(f).len();
    let o_sp = o_d + d.len();
    let o_bt = o_sp + 1;
    inline_layout(s, off, f, style, level);
    next_behind_space(s, o_sp, '{');
    assert(aligned(s, lx, i, o0, depth)) by {
        spaces_blank(level as nat);
        at_blanks(s, off, spaces(level as nat));
    }
    spread_token(s, lx, i, o0, depth);
    assert(lx.is_punct(i, "..."@)) by {
        punctuators();
    }
    if f.directives.len() > 0 {
        directives_next(s, o_d, f.directives, style, level);
    } else {
        assert(d =~= Seq::<char>::empty());
    }
    let k = condition_reads(s, lx, i + 1, o_cp, depth, f);
    let (m, acc) = directives_read(
        s,
        lx,
        k,
        o_d,
        depth,
        f.directives,
        style,
        level,
        f.directives.len(),
    );
    assert(f.directives.take(f.directives.len() as int) =~= f.directives);
    assert(parsed_directives(lx, k, Seq::empty()) == Parsed::Done(acc, m)) by {
        punctuators();
        not_punct(s, lx, m, o_sp, depth, '@');
    }
    let (n, set) = block_reads(s, lx, m, o_bt, depth, items, style, level);
    if f.type_condition is None {
        assert(lx.is_punct(i + 1, "@"@) || lx.is_punct(i + 1, "{"@));
        assert(!lx.is_word(i + 1, "on"@));
    }
    inline_parsed(lx, i, k, m, n, f, acc, set);
    let read = SelectionModel::InlineFragment(
        InlineFragmentModel {
            position: lx.pos(i + 1),
            type_condition: f.type_condition,
            directives: acc,
            selection_set: set,
        },
    );
    (n, read)
}

/// The text of a selection is read as the selection, but for its
/// positions.
pub proof fn selection_reads(
    s: Seq<char>,
    lx: Lexed,
    i: int,
    off: int,
    depth: usize,
    sel: SelectionModel,
    style: Style,
    level: u32,
) -> (r: (int, SelectionModel))
    requires
        aligned(s, lx, i, off, depth),
        stands(s, off, selection_text(sel, style, level)),
        next_in_block(s, off + selection_text(sel, style, level).len()),
        fit_selection(sel, depth as int),
    ensures
        parsed_selection(lx, i) == Parsed::Done(r.1, r.0),
        bare_selection(r.1) == bare_selection(sel),
        aligned(s, lx, r.0, off + selection_text(sel, style, level).len(), depth),
        i < r.0,
    decreases sel, 1nat,
{
    match sel {
        SelectionModel::Field(f) => {
            let (j, read) = field_reads(s, lx, i, off, depth, sel, style, level);
            (j, SelectionModel::Field(read))
        },
        SelectionModel::FragmentSpread(f) => spread_reads(s, lx, i, off, depth, sel, style, level),
        SelectionModel::InlineFragment(f) => inline_reads(s, lx, i, off, depth, sel, style, level),
    }
}

/// The text of the definition of a variable is read as the definition,
/// but for its position. Neither an exclamation mark nor `=` may
/// follow it.
pub proof fn variable_reads(
    s: Seq<char>,
    lx: Lexed,
    i: int,
    off: int,
    depth: usize,
    v: VariableDefinitionModel,
    style: Style,
    level: u32,
) -> (j: int)
    requires
        aligned(s, lx, i, off, depth),
        stands(s, off, variable_text(v, style, level)),
        breaks(s, off + variable_text(v, style, level).len()),
        next_is_not(s, off + variable_text(v, style, level).len(), '!'),
        next_is_not(s, off + variable_text(v, style, level).len(), '='),
        fit_variable(v, depth as int),
    ensures
        parsed_variable(lx, i) == Parsed::Done(
            VariableDefinitionModel { position: lx.pos(i), ..v },
            j,
        ),
        lx.is_punct(i, "$"@),
        aligned(s, lx, j, off + variable_text(v, style, level).len(), depth),
        i < j,
{
    punctuators();
    let tt = type_text(v.var_type);
    let dv = match v.default_value {
        Some(d) => seq![' ', '=', ' '] + value_text(d, style, level),
        None => Seq::<char>::empty(),
    };
    let x = variable_text(v, style, level);
    assert(x == seq!['$'] + v.name + seq![':', ' '] + tt + dv);
    stands_parts(s, off, seq!['$'] + v.name + seq![':', ' '] + tt, dv);
    stands_parts(s, off, seq!['$'] + v.name + seq![':', ' '], tt);
    stands_parts(s, off, seq!['$'] + v.name, seq![':', ' ']);
    stands_parts(s, off, seq!['$'], v.name);
    let o_name = off + 1;
    let o_colon = o_name + v.name.len();
    let o_type = o_colon + 2;
    let o_dv = o_type + tt.len();
    stands_chars(s, off, seq!['$']);
    assert(s[off + 0] == seq!['$'][0]);
    stands_chars(s, o_colon, seq![':', ' ']);
    assert(s[o_colon + 0] == seq![':', ' '][0] && s[o_colon + 1] == seq![':', ' '][1]);
    next_is(s, off, '$');
    punct_token(s, lx, i, off, depth, '$');
    name_token(s, lx, i + 1, o_name, depth, v.name);
    next_is(s, o_colon, ':');
    punct_token(s, lx, i + 2, o_colon, depth, ':');
    at_blank(s, o_colon + 1);
    if v.default_value is Some {
        let d = v.default_value->0;
        let vt = value_text(d, style, level);
        let eq = seq![' ', '=', ' '];
        stands_parts(s, o_dv, eq, vt);
        stands_chars(s, o_dv, eq);
        assert(s[o_dv + 0] == eq[0] && s[o_dv + 1] == eq[1] && s[o_dv + 2] == eq[2]);
        next_behind_space(s, o_dv, '=');
        let k = type_reads(s, lx, i + 3, o_type, depth, v.var_type);
        punct_token(s, lx, k, o_dv + 1, depth, '=');
        at_blank(s, o_dv + 2);
        value_reads(s, lx, k + 1, o_dv + 3, depth, d, style, level, false)
    } else {
        assert(dv =~= Seq::<char>::empty());
        let k = type_reads(s, lx, i + 3, o_type, depth, v.var_type);
        not_punct(s, lx, k, o_dv, depth, '=');
        k
    }
}

/// What stands between two definitions of variables.
pub open spec fn variable_gap(parted: bool, k: int) -> Seq<char> {
    if parted && k > 0 {
        seq![',', ' ']
    } else {
        Seq::empty()
    }
}

/// The token that stands at or after the offset `e` begins as a token
/// does that follows the definition of a variable: as `$` or as the
/// parenthesis that closes the definitions.
pub open spec fn next_in_variables(s: Seq<char>, e: int) -> bool {
    at(s, e) < s.len() && (s[at(s, e)] == '$' || s[at(s, e)] == ')')
}

/// The text of the first `n` definitions of variables is read as those
/// definitions, but for their positions.
pub proof fn variables_read(
    s: Seq<char>,
    lx: Lexed,
    i: int,
    off: int,
    depth: usize,
    vars: Seq<VariableDefinitionModel>,
    style: Style,
    level: u32,
    parted: bool,
    n: nat,
) -> (r: (int, Seq<VariableDefinitionModel>))
    requires
        aligned(s, lx, i, off, depth),
        n <= vars.len(),
        stands(s, off, variables_text(vars, style, level, parted, n)),
        breaks(s, off + variables_text(vars, style, level, parted, n).len()),
        next_in_variables(s, off + variables_text(vars, style, level, parted, n).len()),
        forall|k: int| 0 <= k < vars.len() ==> fit_variable(#[trigger] vars[k], depth as int),
    ensures
        parsed_variables(lx, i, Seq::empty()) == parsed_variables(lx, r.0, r.1),
        bare_variables(r.1) == bare_variables(vars.take(n as int)),
        aligned(s, lx, r.0, off + variables_text(vars, style, level, parted, n).len(), depth),
        i <= r.0,
        n >= 1 ==> lx.is_punct(i, "$"@),
    decreases n,
{
    punctuators();
    if n == 0 {
        assert(bare_variables(Seq::empty()) =~= bare_variables(vars.take(0)));
        (i, Seq::empty())
    } else {
        let before = variables_text(vars, style, level, parted, (n - 1) as nat);
        let gap = variable_gap(parted, n - 1);
        let v = vars[n - 1];
        let vt = variable_text(v, style, level);
        assert(variables_text(vars, style, level, parted, n) == before + gap + vt);
        stands_parts(s, off, before + gap, vt);
        stands_parts(s, off, before, gap);
        let e = off + before.len();
        let o = e + gap.len();
        stands_chars(s, e, gap);
        stands_chars(s, o, vt);
        assert(vt[0] == '$');
        assert(s[o + 0] == vt[0]);
        next_is(s, o, '$');
        assert(all_blank(gap));
        at_blanks(s, e, gap);
        assert(breaks(s, e) && next_in_variables(s, e)) by {
            if gap.len() > 0 {
                assert(s[e + 0] == gap[0]);
            }
        }
        let (k, acc) = if n - 1 == 0 {
            assert(before =~= Seq::<char>::empty());
            assert(bare_variables(Seq::empty()) =~= bare_variables(vars.take(0)));
            (i, Seq::<VariableDefinitionModel>::empty())
        } else {
            variables_read(s, lx, i, off, depth, vars, style, level, parted, (n - 1) as nat)
        };
        let j = variable_reads(s, lx, k, o, depth, v, style, level);
        let read = VariableDefinitionModel { position: lx.pos(k), ..v };
        assert(bare_variable(read) == bare_variable(v));
        assert(bare_variables(acc.push(read)) =~= bare_variables(vars.take(n as int))) by {
            let a = bare_variables(acc.push(read));
            let b = bare_variables(vars.take(n as int));
            assert(bare_variables(acc).len() == acc.len());
            assert(bare_variables(vars.take(n - 1)).len() == n - 1);
            assert forall|m: int| 0 <= m < a.len() implies a[m] == b[m] by {
                if m < n - 1 {
                    assert(bare_variables(acc)[m] == bare_variables(vars.take(n - 1))[m]);
                }
            }
        }
        (j, acc.push(read))
    }
}

/// The text of the definitions of variables between their parentheses
/// is read as the definitions, but for their positions. Where there
/// are none, no parenthesis may follow.
pub proof fn variable_definitions_read(
    s: Seq<char>,
    lx: Lexed,
    i: int,
    off: int,
    depth: usize,
    vars: Seq<VariableDefinitionModel>,
    style: Style,
    level: u32,
    parted: bool,
) -> (r: (int, Seq<VariableDefinitionModel>))
    requires
        aligned(s, lx, i, off, depth),
        stands(s, off, variable_definitions_text(vars, style, level, parted)),
        vars.len() > 0 ==> depth >= 1 && forall|k: int|
            0 <= k < vars.len() ==> fit_variable(#[trigger] vars[k], depth - 1),
        vars.len() == 0 ==> next_is_not(s, off, '('),
    ensures
        parsed_variable_definitions(lx, i) == Parsed::Done(r.1, r.0),
        bare_variables(r.1) == bare_variables(vars),
        aligned(s, lx, r.0, off + variable_definitions_text(vars, style, level, parted).len(), depth),
        i <= r.0,
{
    punctuators();
    if vars.len() == 0 {
        not_punct(s, lx, i, off, depth, '(');
        (i, Seq::empty())
    } else {
        let body = variables_text(vars, style, level, parted, vars.len());
        let x = variable_definitions_text(vars, style, level, parted);
        assert(x == seq!['('] + body + seq![')']);
        stands_parts(s, off, seq!['('] + body, seq![')']);
        stands_parts(s, off, seq!['('], body);
        stands_chars(s, off, seq!['(']);
        assert(s[off + 0] == seq!['('][0]);
        let e = off + 1 + body.len();
        stands_chars(s, e, seq![')']);
        assert(s[e + 0] == seq![')'][0]);
        next_is(s, off, '(');
        next_is(s, e, ')');
        punct_token(s, lx, i, off, depth, '(');
        let d = (depth - 1) as usize;
        let (m, acc) = variables_read(s, lx, i + 1, off + 1, d, vars, style, level, parted, vars.len());
        assert(vars.take(vars.len() as int) =~= vars);
        punct_token(s, lx, m, e, d, ')');
        assert(!lx.is_punct(m, "$"@)) by {
            unlike(')', '$');
        }
        (m + 1, acc)
    }
}

/// What the literals of the words of definitions hold.
pub proof fn definition_words()
    ensures
        is_name("query"@),
        is_name("mutation"@),
        is_name("subscription"@),
        "query"@[0] == 'q',
        "mutation"@[0] == 'm',
        "subscription"@[0] == 's',
        "fragment "@ == "fragment"@ + seq![' '],
        is_name("fragment"@),
        "fragment"@[0] == 'f',
{
    reveal_strlit("query");
    reveal_strlit("mutation");
    reveal_strlit("subscription");
    reveal_strlit("fragment");
    reveal_strlit("fragment ");
    assert("fragment "@ =~= "fragment"@ + seq![' ']);
}

/// What stands behind the keyword of an operation: a space and its
/// name, if it has one.
pub open spec fn operation_name_text(o: OperationModel) -> Seq<char> {
    match o.name {
        Some(name) => seq![' '] + name,
        None => Seq::empty(),
    }
}

/// What begins a definition behind the text `written`: an empty line,
/// unless nothing is written yet, and the indent.
pub open spec fn opening(written: Seq<char>, level: u32) -> Seq<char> {
    margin_of(written) + spaces(level as nat)
}

/// What begins a definition parts tokens.
pub proof fn opening_blank(written: Seq<char>, level: u32)
    ensures
        all_blank(opening(written, level)),
{
    let m = margin_of(written);
    let t = opening(written, level);
    assert forall|k: int| 0 <= k < t.len() implies is_blank_char(#[trigger] t[k]) by {
        if k < m.len() {
            assert(t[k] == m[k]);
        } else {
            assert(t[k] == spaces(level as nat)[k - m.len()]);
        }
    }
}

/// What an operation holds behind its keyword is read: its name, the
/// definitions of its variables, its directives and its selection set.
#[verifier::rlimit(60)]
pub proof fn common_reads(
    s: Seq<char>,
    lx: Lexed,
    i: int,
    off: int,
    depth: usize,
    o: OperationModel,
    parted: bool,
    style: Style,
    level: u32,
) -> (r: (int, CommonModel))
    requires
        aligned(s, lx, i, off, depth),
        stands(
            s,
            off,
            operation_name_text(o) + variable_definitions_text(
                o.variable_definitions,
                style,
                level,
                parted,
            ) + directives_text(o.directives, style, level, o.directives.len()) + seq![' ']
                + block_text(o.selection_set.items, style, level),
        ),
        fit_operation(o, depth as int),
    ensures
        parsed_operation_common(lx, i) == Parsed::Done(r.1, r.0),
        r.1.name == o.name,
        bare_variables(r.1.variable_definitions) == bare_variables(o.variable_definitions),
        bare_directives(r.1.directives) == bare_directives(o.directives),
        bare_selections(r.1.selection_set.items) == bare_selections(o.selection_set.items),
        aligned(
            s,
            lx,
            r.0,
            off + (operation_name_text(o) + variable_definitions_text(
                o.variable_definitions,
                style,
                level,
                parted,
            ) + directives_text(o.directives, style, level, o.directives.len()) + seq![' ']
                + block_text(o.selection_set.items, style, level)).len(),
            depth,
        ),
        i < r.0,
        off < s.len() && !is_name_char(s[off]),
{
    punctuators();
    let nm = operation_name_text(o);
    let vd = variable_definitions_text(o.variable_definitions, style, level, parted);
    let d = directives_text(o.directives, style, level, o.directives.len());
    let bt = block_text(o.selection_set.items, style, level);
    stands_parts(s, off, nm + vd + d + seq![' '], bt);
    stands_parts(s, off, nm + vd + d, seq![' ']);
    stands_parts(s, off, nm + vd, d);
    stands_parts(s, off, nm, vd);
    let o_vd = off + nm.len();
    let o_d = o_vd + vd.len();
    let o_sp = o_d + d.len();
    let o_bt = o_sp + 1;
    stands_chars(s, o_sp, seq![' ']);
    assert(s[o_sp + 0] == seq![' '][0]);
    stands_chars(s, o_bt, bt);
    assert(bt[0] == '{');
    assert(s[o_bt + 0] == bt[0]);
    next_behind_space(s, o_sp, '{');
    if o.directives.len() > 0 {
        directives_next(s, o_d, o.directives, style, level);
    } else {
        assert(d =~= Seq::<char>::empty());
    }
    if o.variable_definitions.len() > 0 {
        stands_chars(s, o_vd, vd);
        assert(vd[0] == '(');
        assert(s[o_vd + 0] == vd[0]);
        next_is(s, o_vd, '(');
    } else {
        assert(vd =~= Seq::<char>::empty());
    }
    // what stands behind the name
    assert(!is_name_char(s[o_vd]) && breaks(s, o_vd) && next_is_not(s, o_vd, ':'));
    let k = if o.name is Some {
        let name = o.name->0;
        stands_parts(s, off, seq![' '], name);
        stands_chars(s, off, seq![' ']);
        assert(s[off + 0] == seq![' '][0]);
        at_blank(s, off);
        name_token(s, lx, i, off + 1, depth, name);
        i + 1
    } else {
        assert(nm =~= Seq::<char>::empty());
        not_name(s, lx, i, off, depth);
        i
    };
    let (j, vars) = variable_definitions_read(
        s,
        lx,
        k,
        o_vd,
        depth,
        o.variable_definitions,
        style,
        level,
        parted,
    );
    let (m, ds) = directives_read(
        s,
        lx,
        j,
        o_d,
        depth,
        o.directives,
        style,
        level,
        o.directives.len(),
    );
    assert(o.directives.take(o.directives.len() as int) =~= o.directives);
    not_punct(s, lx, m, o_sp, depth, '@');
    let (n, set) = block_reads(s, lx, m, o_bt, depth, o.selection_set.items, style, level);
    let read = CommonModel {
        name: o.name,
        variable_definitions: vars,
        directives: ds,
        selection_set: set,
    };
    (n, read)
}

/// What an operation holds behind its keyword begins with no
/// character of a name.
proof fn common_begins(
    s: Seq<char>,
    off: int,
    o: OperationModel,
    parted: bool,
    style: Style,
    level: u32,
)
    requires
        stands(
            s,
            off,
            operation_name_text(o) + variable_definitions_text(
                o.variable_definitions,
                style,
                level,
                parted,
            ) + directives_text(o.directives, style, level, o.directives.len()) + seq![' ']
                + block_text(o.selection_set.items, style, level),
        ),
    ensures
        off < s.len(),
        !is_name_char(s[off]),
{
    let nm = operation_name_text(o);
    let vd = variable_definitions_text(o.variable_definitions, style, level, parted);
    let d = directives_text(o.directives, style, level, o.directives.len());
    let bt = block_text(o.selection_set.items, style, level);
    let x = nm + vd + d + seq![' '] + bt;
    stands_chars(s, off, x);
    assert(s[off + 0] == x[0]);
    if o.name is Some {
        assert(x[0] == nm[0]);
    } else if o.variable_definitions.len() > 0 {
        assert(nm =~= Seq::<char>::empty());
        assert(x[0] == vd[0]);
        assert(vd[0] == '(');
    } else if o.directives.len() > 0 {
        assert(nm =~= Seq::<char>::empty());
        assert(vd =~= Seq::<char>::empty());
        directives_text_head(o.directives, style, level, o.directives.len());
        assert(x[0] == d[0]);
    } else {
        assert(nm =~= Seq::<char>::empty());
        assert(vd =~= Seq::<char>::empty());
        assert(d =~= Seq::<char>::empty());
        assert(x[0] == ' ');
    }
}

/// The text of an operation with its keyword is read as the operation,
/// but for its positions.
pub proof fn operation_reads(
    s: Seq<char>,
    lx: Lexed,
    i: int,
    off: int,
    depth: usize,
    keyword: &'static str,
    parted: bool,
    o: OperationModel,
    style: Style,
    level: u32,
    written: Seq<char>,
) -> (r: (int, OperationModel))
    requires
        aligned(s, lx, i, off, depth),
        stands(s, off, operation_text(keyword@, parted, o, style, level, written)),
        fit_operation(o, depth as int),
        is_name(keyword@),
    ensures
        parsed_operation(lx, i, keyword) == Parsed::Done(r.1, r.0),
        lx.is_word(i, keyword@),
        bare_operation(r.1) == bare_operation(o),
        aligned(
            s,
            lx,
            r.0,
            off + operation_text(keyword@, parted, o, style, level, written).len(),
            depth,
        ),
        i < r.0,
{
    let open = opening(written, level);
    let rest = operation_name_text(o) + variable_definitions_text(
        o.variable_definitions,
        style,
        level,
        parted,
    ) + directives_text(o.directives, style, level, o.directives.len()) + seq![' '] + block_text(
        o.selection_set.items,
        style,
        level,
    );
    let x = operation_text(keyword@, parted, o, style, level, written);
    assert(x =~= open + keyword@ + rest);
    stands_parts(s, off, open + keyword@, rest);
    stands_parts(s, off, open, keyword@);
    opening_blank(written, level);
    at_blanks(s, off, open);
    let o_kw = off + open.len();
    let o_rest = o_kw + keyword@.len();
    common_begins(s, o_rest, o, parted, style, level);
    name_token(s, lx, i, o_kw, depth, keyword@);
    let (n, c) = common_reads(s, lx, i + 1, o_rest, depth, o, parted, style, level);
    let read = OperationModel {
        position: lx.pos(i),
        name: c.name,
        variable_definitions: c.variable_definitions,
        directives: c.directives,
        selection_set: c.selection_set,
    };
    (n, read)
}

/// The text of a selection set that is an operation of its own is read
/// as the selection set, but for its positions.
pub proof fn set_reads(
    s: Seq<char>,
    lx: Lexed,
    i: int,
    off: int,
    depth: usize,
    set: SelectionSetModel,
    style: Style,
    level: u32,
    written: Seq<char>,
) -> (r: (int, SelectionSetModel))
    requires
        aligned(s, lx, i, off, depth),
        stands(s, off, selection_set_text(set, style, level, written)),
        fit_block(set.items, depth as int),
    ensures
        parsed_selection_set(lx, i) == Parsed::Done(r.1, r.0),
        lx.is_punct(i, "{"@),
        bare_set(r.1) == bare_set(set),
        aligned(s, lx, r.0, off + selection_set_text(set, style, level, written).len(), depth),
        i < r.0,
{
    let open = opening(written, level);
    let bt = block_text(set.items, style, level);
    let x = selection_set_text(set, style, level, written);
    assert(x =~= open + bt);
    stands_parts(s, off, open, bt);
    opening_blank(written, level);
    at_blanks(s, off, open);
    let o = off + open.len();
    stands_chars(s, o, bt);
    assert(bt[0] == '{');
    assert(s[o + 0] == bt[0]);
    block_reads(s, lx, i, o, depth, set.items, style, level)
}

/// The text of the definition of a fragment is read as the definition,
/// but for its positions.
#[verifier::rlimit(60)]
pub proof fn fragment_definition_reads(
    s: Seq<char>,
    lx: Lexed,
    i: int,
    off: int,
    depth: usize,
    f: FragmentDefinitionModel,
    style: Style,
    level: u32,
    written: Seq<char>,
) -> (r: (int, FragmentDefinitionModel))
    requires
        aligned(s, lx, i, off, depth),
        stands(s, off, fragment_definition_text(f, style, level, written)),
        fit_definition(DefinitionModel::Fragment(f), depth as int),
    ensures
        parsed_fragment_definition(lx, i) == Parsed::Done(r.1, r.0),
        lx.is_word(i, "fragment"@),
        bare_definition(DefinitionModel::Fragment(r.1)) == bare_definition(
            DefinitionModel::Fragment(f),
        ),
        aligned(s, lx, r.0, off + fragment_definition_text(f, style, level, written).len(), depth),
        i < r.0,
{
    punctuators();
    definition_words();
    word_on();
    let open = opening(written, level);
    let kw = "fragment"@;
    let on = seq![' ', 'o', 'n', ' '];
    let d = directives_text(f.directives, style, level, f.directives.len());
    let bt = block_text(f.selection_set.items, style, level);
    let x = fragment_definition_text(f, style, level, written);
    assert(x =~= open + kw + seq![' '] + f.name + on + f.type_condition + d + seq![' '] + bt);
    stands_parts(s, off, open + kw + seq![' '] + f.name + on + f.type_condition + d + seq![' '], bt);
    stands_parts(s, off, open + kw + seq![' '] + f.name + on + f.type_condition + d, seq![' ']);
    stands_parts(s, off, open + kw + seq![' '] + f.name + on + f.type_condition, d);
    stands_parts(s, off, open + kw + seq![' '] + f.name + on, f.type_condition);
    stands_parts(s, off, open + kw + seq![' '] + f.name, on);
    stands_parts(s, off, open + kw + seq![' '], f.name);
    stands_parts(s, off, open + kw, seq![' ']);
    stands_parts(s, off, open, kw);
    let o_kw = off + open.len();
    let o_name = o_kw + kw.len() + 1;
    let o_on = o_name + f.name.len();
    let o_cond = o_on + 4;
    let o_d = o_cond + f.type_condition.len();
    let o_sp = o_d + d.len();
    let o_bt = o_sp + 1;
    stands_chars(s, o_kw + kw.len(), seq![' ']);
    assert(s[o_kw + kw.len() + 0] == seq![' '][0]);
    stands_chars(s, o_on, on);
    assert(s[o_on + 0] == on[0] && s[o_on + 1] == on[1] && s[o_on + 2] == on[2] && s[o_on + 3]
        == on[3]);
    stands_chars(s, o_sp, seq![' ']);
    assert(s[o_sp + 0] == seq![' '][0]);
    stands_chars(s, o_bt, bt);
    assert(bt[0] == '{');
    assert(s[o_bt + 0] == bt[0]);
    next_behind_space(s, o_sp, '{');
    if f.directives.len() > 0 {
        directives_next(s, o_d, f.directives, style, level);
    } else {
        assert(d =~= Seq::<char>::empty());
    }
    opening_blank(written, level);
    at_blanks(s, off, open);
    name_token(s, lx, i, o_kw, depth, kw);
    at_blank(s, o_kw + kw.len());
    name_token(s, lx, i + 1, o_name, depth, f.name);
    at_blank(s, o_on);
    assert(stands(s, o_on + 1, seq!['o', 'n'])) by {
        assert(s.subrange(o_on + 1, o_on + 3) =~= seq!['o', 'n']);
    }
    name_token(s, lx, i + 2, o_on + 1, depth, seq!['o', 'n']);
    at_blank(s, o_on + 3);
    name_token(s, lx, i + 3, o_cond, depth, f.type_condition);
    let (m, ds) = directives_read(
        s,
        lx,
        i + 4,
        o_d,
        depth,
        f.directives,
        style,
        level,
        f.directives.len(),
    );
    assert(f.directives.take(f.directives.len() as int) =~= f.directives);
    not_punct(s, lx, m, o_sp, depth, '@');
    let (n, set) = block_reads(s, lx, m, o_bt, depth, f.selection_set.items, style, level);
    let read = FragmentDefinitionModel {
        position: lx.pos(i),
        name: f.name,
        type_condition: f.type_condition,
        directives: ds,
        selection_set: set,
    };
    (n, read)
}

/// The text of a definition is read as the definition, but for its
/// positions.
pub proof fn definition_reads(
    s: Seq<char>,
    lx: Lexed,
    i: int,
    off: int,
    depth: usize,
    d: DefinitionModel,
    style: Style,
    level: u32,
    written: Seq<char>,
) -> (r: (int, DefinitionModel))
    requires
        aligned(s, lx, i, off, depth),
        stands(s, off, definition_text(d, style, level, written)),
        fit_definition(d, depth as int),
    ensures
        parsed_definition(lx, i) == Parsed::Done(r.1, r.0),
        starts_definition(lx, i),
        bare_definition(r.1) == bare_definition(d),
        aligned(s, lx, r.0, off + definition_text(d, style, level, written).len(), depth),
        i < r.0,
{
    definition_words();
    match d {
        DefinitionModel::Operation(OperationDefinitionModel::SelectionSet(set)) => {
            let (n, read) = set_reads(s, lx, i, off, depth, set, style, level, written);
            (n, DefinitionModel::Operation(OperationDefinitionModel::SelectionSet(read)))
        },
        DefinitionModel::Operation(OperationDefinitionModel::Query(o)) => {
            let (n, read) = operation_reads(
                s,
                lx,
                i,
                off,
                depth,
                "query",
                true,
                o,
                style,
                level,
                written,
            );
            (n, DefinitionModel::Operation(OperationDefinitionModel::Query(read)))
        },
        DefinitionModel::Operation(OperationDefinitionModel::Mutation(o)) => {
            let (n, read) = operation_reads(
                s,
                lx,
                i,
                off,
                depth,
                "mutation",
                false,
                o,
                style,
                level,
                written,
            );
            (n, DefinitionModel::Operation(OperationDefinitionModel::Mutation(read)))
        },
        DefinitionModel::Operation(OperationDefinitionModel::Subscription(o)) => {
            let (n, read) = operation_reads(
                s,
                lx,
                i,
                off,
                depth,
                "subscription",
                false,
                o,
                style,
                level,
                written,
            );
            (n, DefinitionModel::Operation(OperationDefinitionModel::Subscription(read)))
        },
        DefinitionModel::Fragment(f) => {
            let (n, read) = fragment_definition_reads(
                s,
                lx,
                i,
                off,
                depth,
                f,
                style,
                level,
                written,
            );
            (n, DefinitionModel::Fragment(read))
        },
    }
}

/// The text of the first `n` definitions of a document is read as
/// those definitions, but for their positions.
pub proof fn definitions_read(
    s: Seq<char>,
    lx: Lexed,
    i: int,
    off: int,
    depth: usize,
    ds: Seq<DefinitionModel>,
    style: Style,
    level: u32,
    written: Seq<char>,
    n: nat,
) -> (r: (int, Seq<DefinitionModel>))
    requires
        aligned(s, lx, i, off, depth),
        n <= ds.len(),
        stands(s, off, definitions_text(ds, style, level, written, n)),
        forall|k: int| 0 <= k < ds.len() ==> fit_definition(#[trigger] ds[k], depth as int),
    ensures
        parsed_definitions(lx, i, Seq::empty()) == parsed_definitions(lx, r.0, r.1),
        r.1.len() == n,
        forall|k: int| 0 <= k < n ==> bare_definition(#[trigger] r.1[k]) == bare_definition(ds[k]),
        aligned(s, lx, r.0, off + definitions_text(ds, style, level, written, n).len(), depth),
        i <= r.0,
        n >= 1 ==> starts_definition(lx, i),
    decreases n,
{
    if n == 0 {
        (i, Seq::empty())
    } else {
        let before = definitions_text(ds, style, level, written, (n - 1) as nat);
        let d = ds[n - 1];
        let dt = definition_text(d, style, level, written + before);
        assert(definitions_text(ds, style, level, written, n) == before + dt);
        stands_parts(s, off, before, dt);
        let (k, acc) = if n - 1 == 0 {
            assert(before =~= Seq::<char>::empty());
            (i, Seq::<DefinitionModel>::empty())
        } else {
            definitions_read(s, lx, i, off, depth, ds, style, level, written, (n - 1) as nat)
        };
        let (j, read) = definition_reads(
            s,
            lx,
            k,
            off + before.len(),
            depth,
            d,
            style,
            level,
            written + before,
        );
        (j, acc.push(read))
    }
}

/// The text of a document that the grammar can give is read back as a
/// document that is like it: the same but for the positions.
pub proof fn document_reads(d: DocumentModel, style: Style)
    requires
        fit_document(d),
    ensures
        query_document(document_text(d, style)) is Ok,
        alike(query_document(document_text(d, style))->Ok_0, d),
{
    let s = document_text(d, style);
    let lx = lex(s);
    let n = d.definitions.len();
    crate::rescan::aligned_start(s);
    assert(s.subrange(0, s.len() as int) =~= s);
    let (j, acc) = definitions_read(
        s,
        lx,
        0,
        0,
        crate::tokenizer::RECURSION_LIMIT,
        d.definitions,
        style,
        0,
        Seq::empty(),
        n,
    );
    crate::tokenizer::skip_ignored_bounds(s, s.len() as int, Pos::start(), false);
    token_end(s, lx, j, s.len() as int, crate::tokenizer::RECURSION_LIMIT);
    let read = DocumentModel { definitions: acc };
    assert(bare_document(read).definitions =~= bare_document(d).definitions);
}

} // verus!
