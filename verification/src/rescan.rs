//! Reading a text again that is known piece by piece: what the
//! tokenizer makes of a text in which a given token stands at a given
//! place.
//!
//! The lemmas of this file follow the tokens of a source by their
//! index and by their offset at once. They are the ground on which the
//! printer is shown to write what the grammar reads back.

use vstd::prelude::*;
use crate::position::Pos;
use crate::number::{is_digit, is_int_literal, is_float_literal, all_digits};
use crate::text::{decimal, signed_decimal, digit_char};
use crate::common::{digits_value, digit_value, literal_value};
use crate::tokenizer::{
    number_end, ends_number, last_dot, last_exponent, string_stop, quotes_at, block_close,
};
use crate::format::{
    quoted, escaped, escape_char, escape_quotes, block_quoted, block_rows, block_row,
};
use crate::text::{hex_char, hex_code, spaces};
use crate::unquote::{lines, is_blank};
use crate::inverse::escape_starts_with_quotes;
use crate::tokenizer::{
    Kind, Cursor, Step, Scanned, ScanFault, step, scan_token, skip_ignored, skip_ignored_bounds,
    is_punct, opens, closes, is_name_start, is_name_char, name_end, step_advances,
};
use crate::parser::{Lexed, Lexeme, lex_from, lex};

verus! {

/// Where the next token starts that stands at or after the offset
/// `off`: the first offset that is not ignored.
pub open spec fn at(s: Seq<char>, off: int) -> int {
    skip_ignored(s, off, Pos::start(), false).0
}

/// What is ignored does not depend on the position.
pub proof fn skip_any_position(s: Seq<char>, off: int, p: Pos, q: Pos, in_comment: bool)
    ensures
        skip_ignored(s, off, p, in_comment).0 == skip_ignored(s, off, q, in_comment).0,
    decreases s.len() - off,
{
    if 0 <= off < s.len() {
        if in_comment {
            if s[off] == '\r' || s[off] == '\n' {
                skip_any_position(s, off + 1, p.next_line(), q.next_line(), false);
                skip_any_position(s, off + 1, p, q, false);
            } else {
                skip_any_position(s, off + 1, p, q, true);
            }
        } else if s[off] == '\u{feff}' || s[off] == '\r' {
            skip_any_position(s, off + 1, p, q, false);
        } else if s[off] == '\t' {
            skip_any_position(s, off + 1, p.right(8), q.right(8), false);
        } else if s[off] == '\n' {
            skip_any_position(s, off + 1, p.next_line(), q.next_line(), false);
        } else if s[off] == ' ' || s[off] == ',' {
            skip_any_position(s, off + 1, p.right(1), q.right(1), false);
        } else if s[off] == '#' {
            skip_any_position(s, off + 1, p, q, true);
        }
    }
}

/// A character that parts tokens and is no part of one: a space, a
/// comma, a line feed, a tab or a carriage return.
pub open spec fn is_blank_char(c: char) -> bool {
    c == ' ' || c == ',' || c == '\n' || c == '\t' || c == '\r'
}

/// A character before which a name, a number or a string may end: the
/// end of them does not depend on what follows it.
pub open spec fn is_break(c: char) -> bool {
    is_blank_char(c) || is_punct(c)
}

/// The text `t` stands in `s` at the offset `off`.
pub open spec fn stands(s: Seq<char>, off: int, t: Seq<char>) -> bool {
    0 <= off && off + t.len() <= s.len() && s.subrange(off, off + t.len()) == t
}

/// At the offset `e` the source ends, or a character stands that parts
/// tokens.
pub open spec fn breaks(s: Seq<char>, e: int) -> bool {
    e >= s.len() || (0 <= e && is_break(s[e]))
}

/// Every character of `t` parts tokens and is no part of one.
pub open spec fn all_blank(t: Seq<char>) -> bool {
    forall|k: int| 0 <= k < t.len() ==> is_blank_char(#[trigger] t[k])
}

/// A text that stands in a source holds the characters of the source.
pub proof fn stands_chars(s: Seq<char>, off: int, t: Seq<char>)
    requires
        stands(s, off, t),
    ensures
        forall|k: int| 0 <= k < t.len() ==> s[off + k] == #[trigger] t[k],
{
    assert forall|k: int| 0 <= k < t.len() implies s[off + k] == #[trigger] t[k] by {
        assert(s.subrange(off, off + t.len())[k] == s[off + k]);
    }
}

/// Of a text that stands in a source its parts stand there too.
pub proof fn stands_parts(s: Seq<char>, off: int, a: Seq<char>, b: Seq<char>)
    requires
        stands(s, off, a + b),
    ensures
        stands(s, off, a),
        stands(s, off + a.len(), b),
{
    stands_chars(s, off, a + b);
    assert(s.subrange(off, off + a.len()) =~= a) by {
        assert forall|k: int| 0 <= k < a.len() implies s[off + k] == a[k] by {
            assert((a + b)[k] == a[k]);
        }
    }
    assert(s.subrange(off + a.len(), off + a.len() + b.len()) =~= b) by {
        assert forall|k: int| 0 <= k < b.len() implies s[off + a.len() + k] == b[k] by {
            assert((a + b)[a.len() + k] == b[k]);
        }
    }
}

/// Where a token stands, nothing is ignored.
pub proof fn at_token(s: Seq<char>, off: int)
    requires
        0 <= off < s.len() ==> !is_blank_char(s[off]) && s[off] != '#' && s[off] != '\u{feff}',
        0 <= off,
    ensures
        at(s, off) == off,
{
}

/// A character that parts tokens is ignored.
pub proof fn at_blank(s: Seq<char>, off: int)
    requires
        0 <= off < s.len(),
        is_blank_char(s[off]),
    ensures
        at(s, off) == at(s, off + 1),
{
    let p = Pos::start();
    if s[off] == '\t' {
        skip_any_position(s, off + 1, p.right(8), p, false);
    } else if s[off] == '\n' {
        skip_any_position(s, off + 1, p.next_line(), p, false);
    } else if s[off] == ' ' || s[off] == ',' {
        skip_any_position(s, off + 1, p.right(1), p, false);
    }
}

/// A text of characters that part tokens is ignored.
pub proof fn at_blanks(s: Seq<char>, off: int, t: Seq<char>)
    requires
        stands(s, off, t),
        all_blank(t),
    ensures
        at(s, off) == at(s, off + t.len()),
    decreases t.len(),
{
    if t.len() > 0 {
        stands_chars(s, off, t);
        assert(s[off + 0] == t[0]);
        at_blank(s, off);
        assert(t.skip(1).len() == t.len() - 1);
        assert(stands(s, off + 1, t.skip(1))) by {
            assert(s.subrange(off + 1, off + 1 + t.skip(1).len()) =~= t.skip(1)) by {
                assert forall|k: int| 0 <= k < t.skip(1).len() implies s[off + 1 + k] == t.skip(
                    1,
                )[k] by {
                    assert(s[off + (k + 1)] == t[k + 1]);
                }
            }
        }
        assert forall|k: int| 0 <= k < t.skip(1).len() implies is_blank_char(
            #[trigger] t.skip(1)[k],
        ) by {
            assert(t.skip(1)[k] == t[k + 1]);
        }
        at_blanks(s, off + 1, t.skip(1));
    }
}

/// The cursor at token `i`, or at the end of the tokens, with the depth
/// `depth`.
pub open spec fn cursor_at(lx: Lexed, i: int, depth: usize) -> Cursor {
    Cursor { off: lx.off(i), position: lx.pos(i), depth }
}

/// Token `i` of the tokens `lx` of `s` is the token that stands at or
/// after the offset `off`, and the tokenizer reaches it with the depth
/// `depth`.
pub open spec fn aligned(s: Seq<char>, lx: Lexed, i: int, off: int, depth: usize) -> bool {
    &&& 0 <= i <= lx.tokens.len()
    &&& 0 <= off <= s.len()
    &&& lx.off(i) == at(s, off)
    &&& lex_from(s, cursor_at(lx, i, depth)) == lx.from(i)
}

/// The tokens of a source begin at its start.
pub proof fn aligned_start(s: Seq<char>)
    ensures
        aligned(s, lex(s), 0, 0, crate::tokenizer::RECURSION_LIMIT),
{
    let lx = lex(s);
    let c = crate::tokenizer::first_cursor(s, crate::tokenizer::RECURSION_LIMIT);
    assert(lx.tokens.skip(0) =~= lx.tokens);
    assert(lx.from(0) == lx);
    skip_ignored_bounds(s, 0, Pos::start(), false);
}

/// Where a token stands, the tokens go on with it, and behind it with
/// what stands behind it.
pub proof fn token_step(s: Seq<char>, lx: Lexed, i: int, off: int, depth: usize)
    requires
        aligned(s, lx, i, off, depth),
        step(s, cursor_at(lx, i, depth)) is Token,
    ensures
        i < lx.tokens.len(),
        lx.tokens[i].kind == step(s, cursor_at(lx, i, depth))->kind,
        lx.tokens[i].text == s.subrange(at(s, off), step(s, cursor_at(lx, i, depth))->end),
        at(s, off) < step(s, cursor_at(lx, i, depth))->end <= s.len(),
        aligned(
            s,
            lx,
            i + 1,
            step(s, cursor_at(lx, i, depth))->end,
            step(s, cursor_at(lx, i, depth))->next.depth,
        ),
{
    let c = cursor_at(lx, i, depth);
    let end = step(s, c)->end;
    let next = step(s, c)->next;
    let kind = step(s, c)->kind;
    step_advances(s, c);
    let rest = lex_from(s, next);
    let whole = lex_from(s, c);
    assert(whole == lx.from(i));
    assert(whole.tokens.len() >= 1);
    assert(whole.tokens[0] == lx.tokens[i]);
    assert(whole.tokens.skip(1) =~= rest.tokens);
    assert(lx.tokens.skip(i + 1) =~= whole.tokens.skip(1));
    assert(rest == lx.from(i + 1));
    match scan_token(s, c) {
        Scanned::Token { kind, end, pos, depth: d } => {
            skip_any_position(s, end, pos, Pos::start(), false);
            skip_ignored_bounds(s, end, pos, false);
        },
        _ => {},
    }
    assert(next.off == at(s, end));
    // the cursor behind the token is the cursor at the next token
    assert(lx.off(i + 1) == next.off && lx.pos(i + 1) == next.position) by {
        if i + 1 < lx.tokens.len() {
            assert(rest.tokens[0] == lx.tokens[i + 1]);
        }
    }
}

/// Where the source ends, the tokens end.
pub proof fn token_end(s: Seq<char>, lx: Lexed, i: int, off: int, depth: usize)
    requires
        aligned(s, lx, i, off, depth),
        at(s, off) >= s.len(),
    ensures
        i == lx.tokens.len(),
        lx.ending == ScanFault::EndOfInput,
{
    let c = cursor_at(lx, i, depth);
    assert(lex_from(s, c) == lx.from(i));
    assert(lx.from(i).tokens.len() == 0);
}

/// What the literals of the punctuators hold.
pub proof fn punctuators()
    ensures
        "!"@ == seq!['!'],
        "$"@ == seq!['$'],
        ":"@ == seq![':'],
        "="@ == seq!['='],
        "@"@ == seq!['@'],
        "|"@ == seq!['|'],
        "("@ == seq!['('],
        ")"@ == seq![')'],
        "["@ == seq!['['],
        "]"@ == seq![']'],
        "{"@ == seq!['{'],
        "}"@ == seq!['}'],
        "..."@ == seq!['.', '.', '.'],
{
    reveal_strlit("!");
    reveal_strlit("$");
    reveal_strlit(":");
    reveal_strlit("=");
    reveal_strlit("@");
    reveal_strlit("|");
    reveal_strlit("(");
    reveal_strlit(")");
    reveal_strlit("[");
    reveal_strlit("]");
    reveal_strlit("{");
    reveal_strlit("}");
    reveal_strlit("...");
    assert("!"@ =~= seq!['!']);
    assert("$"@ =~= seq!['$']);
    assert(":"@ =~= seq![':']);
    assert("="@ =~= seq!['=']);
    assert("@"@ =~= seq!['@']);
    assert("|"@ =~= seq!['|']);
    assert("("@ =~= seq!['(']);
    assert(")"@ =~= seq![')']);
    assert("["@ =~= seq!['[']);
    assert("]"@ =~= seq![']']);
    assert("{"@ =~= seq!['{']);
    assert("}"@ =~= seq!['}']);
    assert("..."@ =~= seq!['.', '.', '.']);
}

/// The depth that is left behind the punctuator `c`.
pub open spec fn depth_after(c: char, depth: usize) -> usize {
    if opens(c) {
        (depth - 1) as usize
    } else if closes(c) {
        crate::position::sat_add(depth, 1)
    } else {
        depth
    }
}

/// A punctuator of one character that stands at the offset `o` is the
/// next token, unless it is a bracket that opens with no depth left.
pub proof fn punct_token(s: Seq<char>, lx: Lexed, i: int, o: int, depth: usize, c: char)
    requires
        aligned(s, lx, i, o, depth),
        o < s.len(),
        s[o] == c,
        is_punct(c),
        opens(c) ==> depth > 0,
    ensures
        lx.is_kind(i, Kind::Punctuator),
        lx.tokens[i].text == seq![c],
        aligned(s, lx, i + 1, o + 1, depth_after(c, depth)),
{
    at_token(s, o);
    let cur = cursor_at(lx, i, depth);
    assert(cur.off == o);
    assert(scan_token(s, cur) is Token);
    token_step(s, lx, i, o, depth);
    assert(s.subrange(o, o + 1) =~= seq![c]);
}

/// Three dots that stand at the offset `o` are the next token.
pub proof fn spread_token(s: Seq<char>, lx: Lexed, i: int, o: int, depth: usize)
    requires
        aligned(s, lx, i, o, depth),
        stands(s, o, seq!['.', '.', '.']),
    ensures
        lx.is_kind(i, Kind::Punctuator),
        lx.tokens[i].text == seq!['.', '.', '.'],
        aligned(s, lx, i + 1, o + 3, depth),
{
    stands_chars(s, o, seq!['.', '.', '.']);
    assert(s[o + 0] == '.' && s[o + 1] == '.' && s[o + 2] == '.');
    at_token(s, o);
    let cur = cursor_at(lx, i, depth);
    assert(cur.off == o);
    assert(scan_token(s, cur) is Token);
    token_step(s, lx, i, o, depth);
}

/// A name: a letter or an underscore, and after it letters, digits and
/// underscores.
pub open spec fn is_name(t: Seq<char>) -> bool {
    &&& t.len() >= 1
    &&& is_name_start(t[0])
    &&& forall|k: int| 0 <= k < t.len() ==> is_name_char(#[trigger] t[k])
}

/// A run of name characters ends where it ends.
pub proof fn name_end_of_run(s: Seq<char>, from: int, to: int)
    requires
        0 <= from <= to <= s.len(),
        forall|k: int| from <= k < to ==> is_name_char(#[trigger] s[k]),
        to < s.len() ==> !is_name_char(s[to]),
    ensures
        name_end(s, from) == to,
    decreases to - from,
{
    if from < to {
        name_end_of_run(s, from + 1, to);
    }
}

/// A name that stands at the offset `o`, with no name character behind
/// it, is the next token.
pub proof fn name_token(s: Seq<char>, lx: Lexed, i: int, o: int, depth: usize, name: Seq<char>)
    requires
        aligned(s, lx, i, o, depth),
        stands(s, o, name),
        is_name(name),
        o + name.len() < s.len() ==> !is_name_char(s[o + name.len()]),
    ensures
        lx.is_kind(i, Kind::Name),
        lx.tokens[i].text == name,
        aligned(s, lx, i + 1, o + name.len(), depth),
{
    stands_chars(s, o, name);
    assert(s[o + 0] == name[0]);
    at_token(s, o);
    let cur = cursor_at(lx, i, depth);
    assert(cur.off == o);
    assert forall|k: int| o + 1 <= k < o + name.len() implies is_name_char(#[trigger] s[k]) by {
        assert(s[o + (k - o)] == name[k - o]);
    }
    name_end_of_run(s, o + 1, o + name.len());
    assert(scan_token(s, cur) is Token);
    token_step(s, lx, i, o, depth);
}

/// A character that parts tokens is no part of a name.
pub proof fn break_ends_name(c: char)
    requires
        is_break(c),
    ensures
        !is_name_char(c),
        crate::tokenizer::ends_number(c),
{
}

/// The decimal digits of a number are digits, and the first of them is
/// no zero unless the number is zero.
pub proof fn decimal_shape(n: nat)
    ensures
        decimal(n).len() >= 1,
        all_digits(decimal(n)),
        n > 0 ==> '1' <= decimal(n)[0] && decimal(n)[0] <= '9',
        n == 0 ==> decimal(n) == seq!['0'],
    decreases n,
{
    if n >= 10 {
        decimal_shape(n / 10);
        let d = decimal(n / 10);
        let c = digit_char((n % 10) as int);
        assert(decimal(n) == d.push(c));
        assert(decimal(n)[0] == d[0]);
        assert forall|k: int| 0 <= k < decimal(n).len() implies is_digit(
            #[trigger] decimal(n)[k],
        ) by {
            if k < d.len() {
                assert(decimal(n)[k] == d[k]);
            }
        }
    }
}

/// The number that digits spell depends on those digits alone.
proof fn digits_value_of_same(a: Seq<char>, b: Seq<char>, from: int, shift: int, n: int)
    requires
        0 <= from,
        0 <= from + shift,
        0 <= n,
        from + n <= a.len(),
        from + shift + n <= b.len(),
        forall|k: int| from <= k < from + n ==> #[trigger] a[k] == b[k + shift],
    ensures
        digits_value(a, from, from + n) == digits_value(b, from + shift, from + shift + n),
    decreases n,
{
    if n > 0 {
        digits_value_of_same(a, b, from, shift, n - 1);
        assert(a[from + n - 1] == b[from + n - 1 + shift]);
    }
}

/// The decimal digits of a number spell the number.
pub proof fn decimal_value(n: nat)
    ensures
        digits_value(decimal(n), 0, decimal(n).len() as int) == n,
    decreases n,
{
    decimal_shape(n);
    if n >= 10 {
        decimal_value(n / 10);
        decimal_shape(n / 10);
        let d = decimal(n / 10);
        let t = decimal(n);
        assert(t == d.push(digit_char((n % 10) as int)));
        assert forall|k: int| 0 <= k < 0 + d.len() implies #[trigger] t[k] == d[k + 0] by {}
        digits_value_of_same(t, d, 0, 0, d.len() as int);
        assert(digit_value(t[t.len() - 1]) == (n % 10) as int);
    } else {
        assert(digits_value(decimal(n), 0, 0) == 0);
    }
}

/// The decimal form of an integer is an integer literal that spells it.
pub proof fn signed_decimal_shape(v: int)
    ensures
        is_int_literal(signed_decimal(v)),
        literal_value(signed_decimal(v)) == v,
        signed_decimal(v).len() >= 1,
        signed_decimal(v)[0] == '-' || is_digit(signed_decimal(v)[0]),
        forall|k: int|
            0 <= k < signed_decimal(v).len() ==> (#[trigger] signed_decimal(v)[k] == '-'
                || is_digit(signed_decimal(v)[k])),
{
    let t = signed_decimal(v);
    if v < 0 {
        let n = (-v) as nat;
        let d = decimal(n);
        decimal_shape(n);
        decimal_value(n);
        assert(t == seq!['-'] + d);
        assert(t[0] == '-' && t[1] == d[0]);
        assert(t.skip(2) =~= d.skip(1));
        assert forall|k: int| 0 <= k < t.skip(2).len() implies is_digit(#[trigger] t.skip(2)[k]) by {
            assert(t.skip(2)[k] == d[k + 1]);
        }
        assert forall|k: int| 0 <= k < 0 + d.len() implies #[trigger] d[k] == t[k + 1] by {}
        digits_value_of_same(d, t, 0, 1, d.len() as int);
        assert forall|k: int| 0 <= k < t.len() implies (#[trigger] t[k] == '-' || is_digit(t[k])) by {
            if k > 0 {
                assert(t[k] == d[k - 1]);
            }
        }
    } else {
        let n = v as nat;
        decimal_shape(n);
        decimal_value(n);
        if n > 0 {
            assert forall|k: int| 0 <= k < t.skip(1).len() implies is_digit(
                #[trigger] t.skip(1)[k],
            ) by {
                assert(t.skip(1)[k] == t[k + 1]);
            }
        }
    }
}

/// A run of characters that end no number ends where it ends.
pub proof fn number_end_of_run(s: Seq<char>, from: int, to: int)
    requires
        0 <= from <= to <= s.len(),
        forall|k: int| from <= k < to ==> !ends_number(#[trigger] s[k]),
        to < s.len() ==> ends_number(s[to]),
    ensures
        number_end(s, from) == to,
    decreases to - from,
{
    if from < to {
        number_end_of_run(s, from + 1, to);
    }
}

/// A text without dots and exponent markers has no last one.
proof fn no_dot(t: Seq<char>, n: int)
    requires
        0 <= n <= t.len(),
        forall|k: int| 0 <= k < n ==> #[trigger] t[k] != '.' && t[k] != 'e' && t[k] != 'E',
    ensures
        last_dot(t, n) is None,
        last_exponent(t, n) is None,
    decreases n,
{
    if n > 0 {
        no_dot(t, n - 1);
    }
}

/// The decimal form of an integer that stands at the offset `o`, with a
/// character behind it that parts tokens, is the next token.
pub proof fn int_token(s: Seq<char>, lx: Lexed, i: int, o: int, depth: usize, v: int)
    requires
        aligned(s, lx, i, o, depth),
        stands(s, o, signed_decimal(v)),
        breaks(s, o + signed_decimal(v).len()),
    ensures
        lx.is_kind(i, Kind::IntValue),
        lx.tokens[i].text == signed_decimal(v),
        aligned(s, lx, i + 1, o + signed_decimal(v).len(), depth),
{
    let t = signed_decimal(v);
    signed_decimal_shape(v);
    stands_chars(s, o, t);
    assert(s[o + 0] == t[0]);
    at_token(s, o);
    let cur = cursor_at(lx, i, depth);
    assert(cur.off == o);
    assert forall|k: int| o + 1 <= k < o + t.len() implies !ends_number(#[trigger] s[k]) by {
        assert(s[o + (k - o)] == t[k - o]);
    }
    number_end_of_run(s, o + 1, o + t.len());
    no_dot(t, t.len() as int);
    assert(scan_token(s, cur) is Token);
    token_step(s, lx, i, o, depth);
}

/// The text of a float as the tokenizer takes it: it begins with a
/// minus sign or a digit, holds no character that ends a number, holds
/// a dot or an exponent marker, and is a float literal.
pub open spec fn is_float_text(t: Seq<char>) -> bool {
    &&& t.len() >= 1
    &&& (t[0] == '-' || is_digit(t[0]))
    &&& forall|k: int| 0 <= k < t.len() ==> !ends_number(#[trigger] t[k])
    &&& (last_dot(t, t.len() as int) is Some || last_exponent(t, t.len() as int) is Some)
    &&& is_float_literal(t, last_exponent(t, t.len() as int), last_dot(t, t.len() as int))
}

/// The text of a float that stands at the offset `o`, with a character
/// behind it that parts tokens, is the next token.
pub proof fn float_token(s: Seq<char>, lx: Lexed, i: int, o: int, depth: usize, t: Seq<char>)
    requires
        aligned(s, lx, i, o, depth),
        stands(s, o, t),
        is_float_text(t),
        breaks(s, o + t.len()),
    ensures
        lx.is_kind(i, Kind::FloatValue),
        lx.tokens[i].text == t,
        aligned(s, lx, i + 1, o + t.len(), depth),
{
    stands_chars(s, o, t);
    assert(s[o + 0] == t[0]);
    at_token(s, o);
    let cur = cursor_at(lx, i, depth);
    assert(cur.off == o);
    assert forall|k: int| o + 1 <= k < o + t.len() implies !ends_number(#[trigger] s[k]) by {
        assert(s[o + (k - o)] == t[k - o]);
    }
    number_end_of_run(s, o + 1, o + t.len());
    assert(scan_token(s, cur) is Token);
    token_step(s, lx, i, o, depth);
}

/// What is written for a string between its quotes holds no line feed,
/// and each quote in it stands behind a backslash; it ends with a
/// backslash only where the string does.
pub proof fn escaped_shape(x: Seq<char>)
    ensures
        forall|k: int| 0 <= k < escaped(x).len() ==> #[trigger] escaped(x)[k] != '\n',
        forall|k: int|
            0 <= k < escaped(x).len() && #[trigger] escaped(x)[k] == '"' ==> k > 0 && escaped(
                x,
            )[k - 1] == '\\',
        escaped(x).len() > 0 && escaped(x).last() == '\\' ==> x.len() > 0 && x.last() == '\\',
    decreases x.len(),
{
    if x.len() > 0 {
        let a = escaped(x.drop_last());
        let c = x.last();
        let b = escape_char(c);
        let e = escaped(x);
        escaped_shape(x.drop_last());
        assert(e == a + b);
        crate::rescan::escape_char_shape(c);
        assert forall|k: int| 0 <= k < e.len() implies #[trigger] e[k] != '\n' by {
            if k < a.len() {
                assert(e[k] == a[k]);
            } else {
                assert(e[k] == b[k - a.len()]);
            }
        }
        assert forall|k: int| 0 <= k < e.len() && #[trigger] e[k] == '"' implies k > 0 && e[k
            - 1] == '\\' by {
            if k < a.len() {
                assert(e[k] == a[k]);
                assert(e[k - 1] == a[k - 1]);
            } else {
                assert(e[k] == b[k - a.len()]);
                assert(k - a.len() == 1);
                assert(e[k - 1] == b[0]);
            }
        }
        assert(e.last() == b.last());
    }
}

/// How a character is written inside a quoted string: without a line
/// feed, with a quote only behind a backslash, and with a backslash at
/// the end only for the backslash.
pub proof fn escape_char_shape(c: char)
    ensures
        escape_char(c).len() >= 1,
        forall|k: int| 0 <= k < escape_char(c).len() ==> #[trigger] escape_char(c)[k] != '\n',
        forall|k: int|
            0 <= k < escape_char(c).len() && #[trigger] escape_char(c)[k] == '"' ==> k == 1
                && escape_char(c)[0] == '\\',
        escape_char(c).last() == '\\' ==> c == '\\',
{
    let b = escape_char(c);
    if c == '\r' || c == '\n' || c == '\t' || c == '"' || c == '\\' {
    } else if '\u{20}' <= c && c <= '\u{ffff}' {
    } else {
        let n = c as nat;
        let d = hex_code(n);
        hex_code_shape(n);
        assert(b == seq!['\\', 'u'] + d);
        assert forall|k: int| 0 <= k < b.len() implies #[trigger] b[k] != '\n' && b[k] != '"' by {
            if k >= 2 {
                assert(b[k] == d[k - 2]);
            }
        }
        assert(b.last() == d.last());
    }
}

/// The hexadecimal digits of a number are digits or small letters.
pub proof fn hex_code_shape(n: nat)
    ensures
        hex_code(n).len() >= 4,
        forall|k: int|
            0 <= k < hex_code(n).len() ==> is_digit(#[trigger] hex_code(n)[k]) || ('a'
                <= hex_code(n)[k] && hex_code(n)[k] <= 'f'),
    decreases n,
{
    let t = hex_code(n);
    assert forall|d: int| 0 <= d < 16 implies is_digit(#[trigger] hex_char(d)) || ('a'
        <= hex_char(d) && hex_char(d) <= 'f') by {}
    if n < 0x10000 {
        assert(0 <= n / 0x1000 < 16);
    } else {
        hex_code_shape(n / 16);
        assert forall|k: int| 0 <= k < t.len() implies is_digit(#[trigger] t[k]) || ('a' <= t[k]
            && t[k] <= 'f') by {
            if k < t.len() - 1 {
                assert(t[k] == hex_code(n / 16)[k]);
            }
        }
    }
}

/// The scan of a string goes on over what does not stop it.
pub proof fn string_stop_of_run(s: Seq<char>, from: int, to: int)
    requires
        1 <= from <= to < s.len(),
        forall|k: int|
            from <= k < to ==> #[trigger] s[k] != '\n' && (s[k] == '"' ==> s[k - 1] == '\\'),
        s[to] == '"',
        s[to - 1] != '\\',
    ensures
        string_stop(s, from) == to,
    decreases to - from,
{
    if from < to {
        assert(s[from] != '\n');
        string_stop_of_run(s, from + 1, to);
    }
}

/// A string written on one line that stands at the offset `o` is the
/// next token, if it does not end with a backslash and a character
/// that parts tokens stands behind it.
pub proof fn string_token(s: Seq<char>, lx: Lexed, i: int, o: int, depth: usize, x: Seq<char>)
    requires
        aligned(s, lx, i, o, depth),
        stands(s, o, quoted(x)),
        x.len() > 0 ==> x.last() != '\\',
        breaks(s, o + quoted(x).len()),
    ensures
        lx.is_kind(i, Kind::StringValue),
        lx.tokens[i].text == quoted(x),
        aligned(s, lx, i + 1, o + quoted(x).len(), depth),
{
    let q = quoted(x);
    let e = escaped(x);
    escaped_shape(x);
    stands_chars(s, o, q);
    assert(q.len() == e.len() + 2);
    assert(s[o + 0] == q[0] && q[0] == '"');
    let n = e.len() as int;
    assert(s[o + (n + 1)] == q[n + 1] && q[n + 1] == '"');
    assert forall|k: int| 0 <= k < e.len() implies s[o + 1 + k] == #[trigger] e[k] by {
        assert(s[o + (k + 1)] == q[k + 1]);
        assert(q[k + 1] == e[k]);
    }
    at_token(s, o);
    let cur = cursor_at(lx, i, depth);
    assert(cur.off == o);
    let to = o + 1 + e.len();
    assert forall|k: int| o + 1 <= k < to implies #[trigger] s[k] != '\n' && (s[k] == '"' ==> s[k
        - 1] == '\\') by {
        assert(s[o + 1 + (k - o - 1)] == e[k - o - 1]);
        if s[k] == '"' {
            assert(e[k - o - 1] == '"');
            assert(k - o - 1 > 0);
            assert(s[o + 1 + (k - o - 2)] == e[k - o - 2]);
        }
    }
    assert(s[to - 1] != '\\') by {
        if e.len() > 0 {
            assert(s[o + 1 + (e.len() - 1)] == e[e.len() - 1]);
        }
    }
    string_stop_of_run(s, o + 1, to);
    assert(!quotes_at(s, o)) by {
        if e.len() > 0 {
            assert(s[o + 1 + 0] == e[0]);
            assert(e[0] != '"');
        } else {
            assert(s[o + 1] == '"');
            if o + 2 < s.len() {
                assert(is_break(s[o + 2]));
            }
        }
    }
    assert(scan_token(s, cur) is Token);
    token_step(s, lx, i, o, depth);
    assert(s.subrange(o, to + 1) =~= q);
}

/// The search for the quotes that close a block string goes on over
/// what holds no three quotes.
proof fn block_close_skip(s: Seq<char>, body: int, p: int, q: int)
    requires
        0 <= p <= q,
        q + 3 <= s.len(),
        forall|j: int| p <= j < q ==> !quotes_at(s, j),
    ensures
        block_close(s, body, p) == block_close(s, body, q),
    decreases q - p,
{
    if p < q {
        assert(!quotes_at(s, p));
        block_close_skip(s, body, p + 1, q);
    }
}

/// The search for the quotes that close a block string goes on over a
/// line as it is written, which a line feed follows.
proof fn block_close_escaped(s: Seq<char>, body: int, p: int, line: Seq<char>, i: int)
    requires
        0 <= i <= line.len(),
        0 <= body < p,
        stands(s, p, escape_quotes(line, i)),
        p + escape_quotes(line, i).len() + 3 <= s.len(),
        s[p + escape_quotes(line, i).len()] == '\n',
    ensures
        block_close(s, body, p) == block_close(s, body, p + escape_quotes(line, i).len()),
    decreases line.len() - i,
{
    let e = escape_quotes(line, i);
    stands_chars(s, p, e);
    if i >= line.len() {
    } else if quotes_at(line, i) {
        let rest = escape_quotes(line, i + 3);
        assert(e == seq!['\\', '"', '"', '"'] + rest);
        assert(s[p + 0] == e[0] && s[p + 1] == e[1] && s[p + 2] == e[2] && s[p + 3] == e[3]);
        assert(!quotes_at(s, p));
        assert(quotes_at(s, p + 1));
        assert(block_close(s, body, p) == block_close(s, body, p + 1));
        assert(block_close(s, body, p + 1) == block_close(s, body, p + 4));
        stands_parts(s, p, seq!['\\', '"', '"', '"'], rest);
        block_close_escaped(s, body, p + 4, line, i + 3);
    } else {
        let rest = escape_quotes(line, i + 1);
        assert(e == seq![line[i]] + rest);
        assert(!quotes_at(s, p)) by {
            if quotes_at(s, p) {
                escape_starts_with_quotes(line, i);
                if e.len() >= 3 {
                    assert(s[p + 0] == e[0] && s[p + 1] == e[1] && s[p + 2] == e[2]);
                    assert(quotes_at(e, 0));
                } else if e.len() == 2 {
                    assert(s[p + 2] == '\n');
                } else {
                    assert(s[p + 1] == '\n');
                }
            }
        }
        stands_parts(s, p, seq![line[i]], rest);
        block_close_escaped(s, body, p + 1, line, i + 1);
    }
}

/// The search for the quotes that close a block string goes on over
/// its lines as they are written.
proof fn block_close_rows(
    s: Seq<char>,
    body: int,
    p: int,
    ls: Seq<Seq<char>>,
    inner: u32,
    m: int,
)
    requires
        0 <= m <= ls.len(),
        0 <= body < p,
        stands(s, p, block_rows(ls, inner, m)),
        p + block_rows(ls, inner, m).len() + 3 <= s.len(),
    ensures
        block_close(s, body, p) == block_close(s, body, p + block_rows(ls, inner, m).len()),
    decreases m,
{
    if m > 0 {
        let before = block_rows(ls, inner, m - 1);
        let row = block_row(ls[m - 1], inner);
        stands_parts(s, p, before, row);
        block_close_rows(s, body, p, ls, inner, m - 1);
        let q = p + before.len();
        stands_chars(s, q, row);
        if is_blank(ls[m - 1]) {
            assert(row == seq!['\n']);
            assert(s[q + 0] == row[0]);
            assert(!quotes_at(s, q));
            block_close_skip(s, body, q, q + 1);
        } else {
            let sp = spaces(inner as nat);
            let e = escape_quotes(ls[m - 1], 0);
            assert(row == sp + e + seq!['\n']);
            stands_parts(s, q, sp + e, seq!['\n']);
            stands_parts(s, q, sp, e);
            stands_chars(s, q, sp);
            assert forall|j: int| q <= j < q + sp.len() implies !quotes_at(s, j) by {
                assert(s[q + (j - q)] == sp[j - q]);
            }
            block_close_skip(s, body, q, q + sp.len());
            let r = q + sp.len();
            stands_chars(s, r + e.len(), seq!['\n']);
            assert(s[r + e.len() + 0] == seq!['\n'][0]);
            block_close_escaped(s, body, r, ls[m - 1], 0);
            assert(!quotes_at(s, r + e.len()));
            block_close_skip(s, body, r + e.len(), r + e.len() + 1);
        }
    }
}

/// A string written as a block that stands at the offset `o` is the
/// next token.
pub proof fn block_token(
    s: Seq<char>,
    lx: Lexed,
    i: int,
    o: int,
    depth: usize,
    x: Seq<char>,
    level: u32,
    inner: u32,
)
    requires
        aligned(s, lx, i, o, depth),
        stands(s, o, block_quoted(x, level, inner)),
    ensures
        lx.is_kind(i, Kind::BlockString),
        lx.tokens[i].text == block_quoted(x, level, inner),
        aligned(s, lx, i + 1, o + block_quoted(x, level, inner).len(), depth),
{
    let w = block_quoted(x, level, inner);
    let ls = lines(x);
    let head = seq!['"', '"', '"', '\n'];
    let rows = block_rows(ls, inner, ls.len() as int);
    let sp = spaces(level as nat);
    let tail = seq!['"', '"', '"'];
    assert(w == head + rows + sp + tail);
    stands_parts(s, o, head + rows + sp, tail);
    stands_parts(s, o, head + rows, sp);
    stands_parts(s, o, head, rows);
    stands_chars(s, o, head);
    assert(s[o + 0] == head[0] && s[o + 1] == head[1] && s[o + 2] == head[2] && s[o + 3]
        == head[3]);
    at_token(s, o);
    let cur = cursor_at(lx, i, depth);
    assert(cur.off == o);
    assert(quotes_at(s, o));
    let body = o + 3;
    let end = o + w.len() - 3;
    stands_chars(s, end, tail);
    assert(s[end + 0] == tail[0] && s[end + 1] == tail[1] && s[end + 2] == tail[2]);
    assert(quotes_at(s, end));
    // over the line feed behind the quotes that open the block
    assert(!quotes_at(s, body));
    block_close_skip(s, body, body, body + 1);
    // over the lines
    block_close_rows(s, body, body + 1, ls, inner, ls.len() as int);
    // over the indent of the quotes that close the block
    let r = body + 1 + rows.len();
    stands_chars(s, r, sp);
    assert forall|j: int| r <= j < r + sp.len() implies !quotes_at(s, j) by {
        assert(s[r + (j - r)] == sp[j - r]);
    }
    block_close_skip(s, body, r, end);
    assert(s[end - 1] != '\\') by {
        if sp.len() > 0 {
            assert(s[r + (sp.len() - 1)] == sp[sp.len() - 1]);
        } else if rows.len() > 0 {
            crate::rescan::rows_end(ls, inner, ls.len() as int);
            stands_chars(s, body + 1, rows);
            assert(s[body + 1 + (rows.len() - 1)] == rows[rows.len() - 1]);
        }
    }
    assert(block_close(s, body, end) == Some(end));
    assert(scan_token(s, cur) is Token);
    token_step(s, lx, i, o, depth);
    assert(s.subrange(o, end + 3) =~= w);
}

/// The lines of a block string as they are written end with a line
/// feed.
pub proof fn rows_end(ls: Seq<Seq<char>>, inner: u32, m: int)
    requires
        0 <= m <= ls.len(),
    ensures
        block_rows(ls, inner, m).len() > 0 ==> block_rows(ls, inner, m).last() == '\n',
{
    if m > 0 {
        let row = block_row(ls[m - 1], inner);
        assert(row.last() == '\n');
        assert(block_rows(ls, inner, m).last() == row.last());
    }
}

} // verus!
