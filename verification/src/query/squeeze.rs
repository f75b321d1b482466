//! The tokens of a minified query are the tokens of the query.

use vstd::prelude::*;
use crate::position::Pos;
use crate::tokenizer::{
    Kind, Cursor, ScanFault, RECURSION_LIMIT, step, scan_token, is_punct, is_name_start,
    is_name_char, ends_number, string_stop, quotes_at, block_close, step_advances,
    name_end_bounds, number_end_bounds, string_stop_bounds, block_close_bounds,
};
use crate::number::is_digit;
use crate::parser::{Lexed, lex, lex_from};
use crate::rescan::{
    at, at_blank, at_token, stands, stands_chars, cursor_at, aligned, aligned_start, token_step,
    name_end_of_run, number_end_of_run, string_stop_of_run,
};
use crate::query::sound::{reached, token_known, name_end_chars, number_end_chars};
use crate::query::minify::{minified, squeezed, needs_space};

verus! {

/// What stands in `m` at the offset `e`, behind a token of class `kind`,
/// does not change where the token ends: `m` ends there, or no character
/// of names stands there behind a name, a character that ends numbers
/// behind a number, and no quote behind a string.
pub open spec fn parted(m: Seq<char>, e: int, kind: Kind) -> bool {
    e >= m.len() || (0 <= e && match kind {
        Kind::Name => !is_name_char(m[e]),
        Kind::IntValue => ends_number(m[e]),
        Kind::FloatValue => ends_number(m[e]),
        Kind::StringValue => m[e] != '"',
        _ => true,
    })
}

/// No character of a string on one line stops its scan before the scan
/// stops, and where the scan stops in the source, a line feed stands or
/// a quote that no backslash stands before.
proof fn string_stop_chars(s: Seq<char>, from: int)
    requires
        1 <= from <= s.len(),
    ensures
        forall|k: int|
            from <= k < string_stop(s, from) ==> #[trigger] s[k] != '\n' && (s[k] == '"' ==> s[k
                - 1] == '\\'),
        string_stop(s, from) < s.len() ==> s[string_stop(s, from)] == '\n' || (s[string_stop(
            s,
            from,
        )] == '"' && s[string_stop(s, from) - 1] != '\\'),
    decreases s.len() - from,
{
    if from < s.len() && !(s[from] == '\n' || (s[from] == '"' && s[from - 1] != '\\')) {
        string_stop_chars(s, from + 1);
    }
}

/// The search for the quotes that close a block string finds them at the
/// same place in a copy of the block string.
proof fn block_close_copied(s: Seq<char>, m: Seq<char>, body: int, i: int, close: int, d: int)
    requires
        3 <= body <= i <= close,
        close + 3 <= s.len(),
        block_close(s, body, i) == Some(close),
        0 <= body - 3 + d,
        close + 3 + d <= m.len(),
        forall|j: int| body - 3 <= j < close + 3 ==> m[j + d] == #[trigger] s[j],
    ensures
        block_close(m, body + d, i + d) == Some(close + d),
    decreases close - i,
{
    assert(m[i + d] == s[i] && m[i + 1 + d] == s[i + 1] && m[i + 2 + d] == s[i + 2]);
    assert(quotes_at(m, i + d) == quotes_at(s, i));
    assert(m[i - 1 + d] == s[i - 1]);
    if quotes_at(s, i) {
        if i > body && s[i - 1] == '\\' {
            block_close_bounds(s, body, i + 3);
            block_close_copied(s, m, body, i + 3, close, d);
        }
    } else {
        block_close_bounds(s, body, i + 1);
        block_close_copied(s, m, body, i + 1, close, d);
    }
}

/// A token that stands in `m` as it stands in `s`, with something behind
/// it that does not change where it ends, is scanned in `m` as in `s`.
pub proof fn token_copied(s: Seq<char>, c: Cursor, m: Seq<char>, o: int, q: Pos)
    requires
        scan_token(s, c) is Token,
        0 <= o,
        stands(m, o, s.subrange(c.off, scan_token(s, c)->end)),
        parted(m, o + scan_token(s, c)->end - c.off, scan_token(s, c)->kind),
    ensures
        scan_token(m, Cursor { off: o, position: q, depth: c.depth }) is Token,
        scan_token(m, Cursor { off: o, position: q, depth: c.depth })->kind == scan_token(
            s,
            c,
        )->kind,
        scan_token(m, Cursor { off: o, position: q, depth: c.depth })->end == o + scan_token(
            s,
            c,
        )->end - c.off,
        scan_token(m, Cursor { off: o, position: q, depth: c.depth })->depth == scan_token(
            s,
            c,
        )->depth,
{
    let off = c.off;
    let end = scan_token(s, c)->end;
    let kind = scan_token(s, c)->kind;
    let cm = Cursor { off: o, position: q, depth: c.depth };
    step_advances(s, c);
    name_end_bounds(s, off + 1);
    number_end_bounds(s, off + 1);
    string_stop_bounds(s, off + 1);
    block_close_bounds(s, off + 3, off + 3);
    assert(0 <= off < end <= s.len());
    let t = s.subrange(off, end);
    let len = end - off;
    stands_chars(m, o, t);
    assert forall|j: int| off <= j < end implies m[j - off + o] == #[trigger] s[j] by {
        assert(t[j - off] == s[j]);
        assert(m[o + (j - off)] == t[j - off]);
    }
    assert(m[o] == s[off]);
    if is_punct(s[off]) {
    } else if s[off] == '.' {
        assert(end == off + 3);
        assert(m[o + 1] == s[off + 1] && m[o + 2] == s[off + 2]);
    } else if is_name_start(s[off]) {
        name_end_chars(s, off + 1);
        assert forall|k: int| o + 1 <= k < o + len implies is_name_char(#[trigger] m[k]) by {
            assert(m[k] == s[k - o + off]);
        }
        name_end_of_run(m, o + 1, o + len);
    } else if s[off] == '-' || is_digit(s[off]) {
        number_end_chars(s, off + 1);
        assert forall|k: int| o + 1 <= k < o + len implies !ends_number(#[trigger] m[k]) by {
            assert(m[k] == s[k - o + off]);
        }
        number_end_of_run(m, o + 1, o + len);
        assert(m.subrange(o, o + len) == t);
    } else if s[off] == '"' {
        if quotes_at(s, off) {
            let close = block_close(s, off + 3, off + 3)->0;
            assert(end == close + 3);
            assert(m[o + 1] == s[off + 1] && m[o + 2] == s[off + 2]);
            assert(quotes_at(m, o));
            block_close_copied(s, m, off + 3, off + 3, close, o - off);
        } else {
            let stop = string_stop(s, off + 1);
            assert(end == stop + 1);
            string_stop_chars(s, off + 1);
            if len >= 3 {
                assert(m[o + 1] == s[off + 1] && m[o + 2] == s[off + 2]);
            } else {
                assert(m[o + 1] == s[off + 1]);
            }
            assert(!quotes_at(m, o));
            assert(m[o + len - 1] == s[stop]);
            assert(m[o + len - 2] == s[stop - 1]);
            assert forall|k: int| o + 1 <= k < o + len - 1 implies #[trigger] m[k] != '\n' && (m[k]
                == '"' ==> m[k - 1] == '\\') by {
                assert(m[k] == s[k - o + off]);
                assert(m[k - 1] == s[k - 1 - o + off]);
            }
            string_stop_of_run(m, o + 1, o + len - 1);
        }
    }
}

/// The tokens `a` are the tokens `b`: as many, of the same classes
/// and texts, and they end alike.
pub open spec fn same_tokens(a: Lexed, b: Lexed) -> bool {
    &&& a.ending == b.ending
    &&& a.tokens.len() == b.tokens.len()
    &&& forall|j: int|
        0 <= j < a.tokens.len() ==> (#[trigger] a.tokens[j]).kind == b.tokens[j].kind
            && a.tokens[j].text == b.tokens[j].text
}

/// Token `j` is a number, and three dots are the token behind it.
pub open spec fn dots_behind_number(lx: Lexed, j: int) -> bool {
    &&& 0 <= j && j + 1 < lx.tokens.len()
    &&& lx.tokens[j].kind == Kind::IntValue || lx.tokens[j].kind == Kind::FloatValue
    &&& lx.tokens[j + 1].text == seq!['.', '.', '.']
}

/// No number stands right before three dots.
pub open spec fn apart(lx: Lexed) -> bool {
    forall|j: int| !#[trigger] dots_behind_number(lx, j)
}

/// What parts token `k` from the token before it in the minified text.
pub open spec fn gap(lx: Lexed, k: int) -> Seq<char> {
    if needs_space(lx, k) {
        seq![' ']
    } else {
        Seq::empty()
    }
}

/// The minified text grows token by token.
proof fn squeezed_grows(lx: Lexed, k: int, n: int)
    requires
        0 <= k <= n <= lx.tokens.len(),
    ensures
        squeezed(lx, k).len() <= squeezed(lx, n).len(),
        squeezed(lx, n).subrange(0, squeezed(lx, k).len() as int) == squeezed(lx, k),
    decreases n - k,
{
    if k < n {
        squeezed_grows(lx, k, n - 1);
        let a = squeezed(lx, n - 1);
        assert(squeezed(lx, n) == a + gap(lx, n - 1) + lx.tokens[n - 1].text);
        assert(squeezed(lx, n).subrange(0, squeezed(lx, k).len() as int) =~= a.subrange(
            0,
            squeezed(lx, k).len() as int,
        ));
    } else {
        assert(squeezed(lx, n).subrange(0, squeezed(lx, k).len() as int) =~= squeezed(lx, k));
    }
}

/// Token `k` stands in the minified text behind the tokens before it and
/// what parts it from them.
proof fn squeezed_holds(lx: Lexed, k: int, n: int)
    requires
        0 <= k < n <= lx.tokens.len(),
    ensures
        stands(squeezed(lx, n), squeezed(lx, k).len() as int, gap(lx, k) + lx.tokens[k].text),
        squeezed(lx, k + 1).len() == squeezed(lx, k).len() + gap(lx, k).len()
            + lx.tokens[k].text.len(),
        squeezed(lx, k + 1).len() <= squeezed(lx, n).len(),
{
    squeezed_grows(lx, k + 1, n);
    let m = squeezed(lx, n);
    let a = squeezed(lx, k);
    let b = gap(lx, k) + lx.tokens[k].text;
    assert(squeezed(lx, k + 1) == a + gap(lx, k) + lx.tokens[k].text);
    assert(squeezed(lx, k + 1) =~= a + b);
    assert(m.subrange(a.len() as int, (a.len() + b.len()) as int) =~= b) by {
        assert forall|j: int| 0 <= j < b.len() implies m[a.len() + j] == b[j] by {
            assert(m.subrange(0, squeezed(lx, k + 1).len() as int)[a.len() + j] == (a + b)[a.len()
                + j]);
        }
    }
}

/// The minified text of `s`, whatever the end of its tokens.
pub open spec fn mini(s: Seq<char>) -> Seq<char> {
    squeezed(lex(s), lex(s).tokens.len() as int)
}

/// The depth that is left behind token `k` of `s`, which the tokenizer
/// reaches with the depth `d`.
pub open spec fn left_behind(s: Seq<char>, k: int, d: usize) -> usize {
    scan_token(s, cursor_at(lex(s), k, d))->depth
}

/// A token of the source that the tokenizer reaches is what it scans
/// there, and no ignored character begins it.
proof fn token_in_source(s: Seq<char>, k: int, d: usize)
    requires
        reached(s, lex(s), k, d),
        k < lex(s).tokens.len(),
    ensures
        scan_token(s, cursor_at(lex(s), k, d)) is Token,
        0 <= cursor_at(lex(s), k, d).off < scan_token(s, cursor_at(lex(s), k, d))->end <= s.len(),
        lex(s).tokens[k].kind == scan_token(s, cursor_at(lex(s), k, d))->kind,
        lex(s).tokens[k].text == s.subrange(
            cursor_at(lex(s), k, d).off,
            scan_token(s, cursor_at(lex(s), k, d))->end,
        ),
        !crate::rescan::is_blank_char(s[cursor_at(lex(s), k, d).off]),
        s[cursor_at(lex(s), k, d).off] != '#',
        s[cursor_at(lex(s), k, d).off] != '\u{feff}',
        reached(s, lex(s), k + 1, left_behind(s, k, d)),
{
    let lx = lex(s);
    let n = lx.tokens.len() as int;
    let cs = cursor_at(lx, k, d);
    let whole = lex_from(s, cs);
    assert(whole == lx.from(k));
    assert(whole.tokens.len() >= 1);
    assert(step(s, cs) is Token);
    step_advances(s, cs);
    let next = step(s, cs)->next;
    let rest = lex_from(s, next);
    assert(whole.tokens[0] == lx.tokens[k]);
    assert(whole.tokens.skip(1) =~= rest.tokens);
    assert(lx.tokens.skip(k + 1) =~= whole.tokens.skip(1));
    assert(rest == lx.from(k + 1));
    assert(lx.off(k + 1) == next.off && lx.pos(k + 1) == next.position) by {
        if k + 1 < n {
            assert(rest.tokens[0] == lx.tokens[k + 1]);
        }
    }
    assert(next.depth == left_behind(s, k, d));
}

/// What stands behind token `k` in the minified text does not change
/// where the token ends.
proof fn behind_token(s: Seq<char>, k: int, d: usize)
    requires
        apart(lex(s)),
        0 <= k < lex(s).tokens.len(),
        reached(s, lex(s), k, d),
        k + 1 < lex(s).tokens.len() ==> reached(s, lex(s), k + 1, left_behind(s, k, d)),
    ensures
        parted(mini(s), squeezed(lex(s), k + 1).len() as int, lex(s).tokens[k].kind),
{
    let lx = lex(s);
    let n = lx.tokens.len() as int;
    let m = mini(s);
    let e = squeezed(lx, k + 1).len() as int;
    let kind = lx.tokens[k].kind;
    squeezed_grows(lx, k + 1, n);
    if k + 1 < n {
        squeezed_holds(lx, k + 1, n);
        let g1 = gap(lx, k + 1);
        let t1 = lx.tokens[k + 1].text;
        token_known(s, lx, k + 1, left_behind(s, k, d));
        stands_chars(m, e, g1 + t1);
        assert((g1 + t1)[0] == m[e]);
        if needs_space(lx, k + 1) {
            assert(m[e] == ' ');
        } else {
            assert(m[e] == t1[0]);
            if lx.tokens[k + 1].kind == Kind::Punctuator {
                if t1 == seq!['.', '.', '.'] {
                    assert(m[e] == '.');
                    assert(!dots_behind_number(lx, k));
                    assert(kind != Kind::IntValue && kind != Kind::FloatValue);
                } else {
                    assert(is_punct(m[e]));
                }
            } else {
                assert(kind == Kind::Punctuator);
            }
        }
    } else {
        assert(squeezed(lx, k + 1) == m);
    }
}

/// The tokenizer finds token `k` of the source in the minified text, and
/// goes on behind it as in the source.
proof fn token_in_squeezed(s: Seq<char>, k: int, d: usize)
    requires
        apart(lex(s)),
        0 <= k < lex(s).tokens.len(),
        reached(s, lex(s), k, d),
        aligned(mini(s), lex(mini(s)), k, squeezed(lex(s), k).len() as int, d),
    ensures
        k < lex(mini(s)).tokens.len(),
        lex(mini(s)).tokens[k].kind == lex(s).tokens[k].kind,
        lex(mini(s)).tokens[k].text == lex(s).tokens[k].text,
        reached(s, lex(s), k + 1, left_behind(s, k, d)),
        aligned(
            mini(s),
            lex(mini(s)),
            k + 1,
            squeezed(lex(s), k + 1).len() as int,
            left_behind(s, k, d),
        ),
{
    let lx = lex(s);
    let n = lx.tokens.len() as int;
    let m = mini(s);
    let lm = lex(m);
    let q = squeezed(lx, k).len() as int;
    let cs = cursor_at(lx, k, d);
    let text = lx.tokens[k].text;
    token_in_source(s, k, d);
    behind_token(s, k, d);
    squeezed_holds(lx, k, n);
    let g = gap(lx, k);
    let p = q + g.len();
    crate::rescan::stands_parts(m, q, g, text);
    stands_chars(m, p, text);
    assert(text[0] == s[cs.off]);
    assert(m[p] == s[cs.off]);
    if needs_space(lx, k) {
        stands_chars(m, q, g);
        assert(m[q] == g[0]);
        at_blank(m, q);
    }
    at_token(m, p);
    assert(at(m, q) == p);
    let cm = cursor_at(lm, k, d);
    assert(cm.off == p);
    token_copied(s, cs, m, p, cm.position);
    assert(cm == Cursor { off: p, position: cm.position, depth: cs.depth });
    assert(step(m, cm) is Token);
    token_step(m, lm, k, q, d);
    assert(lm.tokens[k].text == m.subrange(p, p + text.len()));
}

/// From token `k` on, the tokens of the minified text are the tokens of
/// the source.
proof fn squeezed_tokens(s: Seq<char>, k: int, d: usize)
    requires
        lex(s).ending == ScanFault::EndOfInput,
        apart(lex(s)),
        0 <= k <= lex(s).tokens.len(),
        reached(s, lex(s), k, d),
        aligned(mini(s), lex(mini(s)), k, squeezed(lex(s), k).len() as int, d),
    ensures
        lex(mini(s)).ending == ScanFault::EndOfInput,
        lex(mini(s)).tokens.len() == lex(s).tokens.len(),
        forall|j: int|
            k <= j < lex(s).tokens.len() ==> (#[trigger] lex(mini(s)).tokens[j]).kind == lex(
                s,
            ).tokens[j].kind && lex(mini(s)).tokens[j].text == lex(s).tokens[j].text,
    decreases lex(s).tokens.len() - k,
{
    let lx = lex(s);
    let n = lx.tokens.len() as int;
    let m = mini(s);
    let lm = lex(m);
    if k == n {
        let c = cursor_at(lm, k, d);
        at_token(m, m.len() as int);
        assert(c.off == m.len());
        assert(scan_token(m, c) is End);
        assert(lex_from(m, c).tokens.len() == 0);
        assert(lm.from(k).tokens.len() == 0);
        assert(lm.tokens.skip(k).len() == 0);
    } else {
        token_in_squeezed(s, k, d);
        squeezed_tokens(s, k + 1, left_behind(s, k, d));
    }
}

/// The tokens of a minified query are the tokens of the query: where the
/// tokenizer reaches the end of a source in which no number stands right
/// before three dots, the minified source has the same tokens, of the
/// same classes and texts.
pub proof fn minified_keeps_tokens(s: Seq<char>)
    requires
        lex(s).ending == ScanFault::EndOfInput,
        apart(lex(s)),
    ensures
        minified(s) is Ok,
        same_tokens(lex(minified(s)->Ok_0), lex(s)),
{
    let lx = lex(s);
    let m = mini(s);
    aligned_start(s);
    aligned_start(m);
    assert(squeezed(lx, 0) =~= Seq::<char>::empty());
    squeezed_tokens(s, 0, RECURSION_LIMIT);
}

} // verus!
