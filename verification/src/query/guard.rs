//! The guard against deep nesting: of the tokens of any source at most
//! as many brackets stand open as the limit allows, and a source in
//! which one more opens is no document.

use vstd::prelude::*;
use crate::tokenizer::{
    Kind, ScanFault, Scanned, RECURSION_LIMIT, opens, closes, step, scan_token,
};
use crate::parser::{Lexed, lex, lex_from};
use crate::rescan::{cursor_at, aligned_start};
use crate::query::sound::{reached, depth_behind, token_known};
use crate::query::grammar::query_document;

verus! {

/// The depth that is left behind the first `n` tokens of a source.
pub open spec fn room_behind(lx: Lexed, n: int) -> usize
    decreases n,
{
    if n <= 0 || n > lx.tokens.len() {
        RECURSION_LIMIT
    } else {
        depth_behind(lx.tokens[n - 1], room_behind(lx, n - 1))
    }
}

/// How many more brackets open than close among the first `n` tokens.
pub open spec fn nesting(lx: Lexed, n: int) -> int
    decreases n,
{
    if n <= 0 || n > lx.tokens.len() {
        0
    } else {
        let t = lx.tokens[n - 1];
        nesting(lx, n - 1) + if t.kind == Kind::Punctuator && t.text.len() == 1 && opens(
            t.text[0],
        ) {
            1int
        } else if t.kind == Kind::Punctuator && t.text.len() == 1 && closes(t.text[0]) {
            -1int
        } else {
            0int
        }
    }
}

/// The tokenizer reaches each token of a source, and the end of its
/// tokens, with the depth that the tokens before leave; and so many
/// brackets stand open there at most as the limit is above that depth.
pub proof fn nesting_within_limit(s: Seq<char>, n: int)
    requires
        0 <= n <= lex(s).tokens.len(),
    ensures
        reached(s, lex(s), n, room_behind(lex(s), n)),
        nesting(lex(s), n) <= RECURSION_LIMIT - room_behind(lex(s), n),
        nesting(lex(s), n) <= RECURSION_LIMIT,
    decreases n,
{
    let lx = lex(s);
    if n == 0 {
        aligned_start(s);
    } else {
        nesting_within_limit(s, n - 1);
        token_known(s, lx, n - 1, room_behind(lx, n - 1));
    }
}

/// The guard: where the tokens of a source end because the limit is
/// reached, a bracket opens there, at the position and the offset of the
/// end, with no depth left and as many brackets open as the limit
/// allows; and the source is no document.
pub proof fn deep_nesting_is_refused(s: Seq<char>)
    requires
        lex(s).ending == ScanFault::RecursionLimit,
    ensures
        0 <= lex(s).end_off < s.len(),
        opens(s[lex(s).end_off]),
        room_behind(lex(s), lex(s).tokens.len() as int) == 0,
        nesting(lex(s), lex(s).tokens.len() as int) <= RECURSION_LIMIT,
        query_document(s) is Err,
{
    let lx = lex(s);
    let n = lx.tokens.len() as int;
    nesting_within_limit(s, n);
    let c = cursor_at(lx, n, room_behind(lx, n));
    assert(lex_from(s, c) == lx.from(n));
    assert(lx.from(n).tokens.len() == 0);
    assert(step(s, c) is Fault);
    assert(scan_token(s, c) == Scanned::Fault(ScanFault::RecursionLimit));
}

/// A source that is a document is scanned to its end: nowhere in it does
/// a bracket open with no depth left.
pub proof fn a_document_is_within_the_limit(s: Seq<char>, n: int)
    requires
        query_document(s) is Ok,
        0 <= n <= lex(s).tokens.len(),
    ensures
        lex(s).ending == ScanFault::EndOfInput,
        nesting(lex(s), n) <= RECURSION_LIMIT,
{
    nesting_within_limit(s, n);
}

} // verus!
