//! Minifying a query: its tokens with nothing between them but the
//! spaces that keep two of them apart.

use vstd::prelude::*;
use vstd::string::*;
use crate::tokenizer::{Kind, ScanFault};
use crate::error::{entry_text, fault_entry};
use crate::parser::{Parser, Lexed, lex};

verus! {

/// Why a query could not be minified: what the tokenizer says of the
/// place where the query is malformed.
#[derive(Debug)]
pub struct MinifyError(pub String);

impl View for MinifyError {
    type V = Seq<char>;

    open spec fn view(&self) -> Seq<char> {
        self.0@
    }
}

impl MinifyError {
    /// The error as it is shown.
    pub fn to_string(&self) -> (s: String)
        ensures
            s@ == "query minify error: "@ + self@,
    {
        let s = String::from_str("query minify error: ");
        s.concat(self.0.as_str())
    }
}

/// A space must part token `k` from the token before it: both are
/// there, and neither is a punctuator.
pub open spec fn needs_space(lx: Lexed, k: int) -> bool {
    0 < k < lx.tokens.len() && lx.tokens[k - 1].kind != Kind::Punctuator && lx.tokens[k].kind
        != Kind::Punctuator
}

/// The first `n` tokens, one behind the other, with a space where one is
/// needed.
pub open spec fn squeezed(lx: Lexed, n: int) -> Seq<char>
    decreases n,
{
    if n <= 0 || n > lx.tokens.len() {
        Seq::empty()
    } else {
        squeezed(lx, n - 1) + (if needs_space(lx, n - 1) {
            seq![' ']
        } else {
            Seq::empty()
        }) + lx.tokens[n - 1].text
    }
}

/// What `s` is when minified: all its tokens, if the tokenizer reaches
/// the end of `s`, and else what the tokenizer says of where it stops.
pub open spec fn minified(s: Seq<char>) -> Result<Seq<char>, Seq<char>> {
    let lx = lex(s);
    if lx.ending == ScanFault::EndOfInput {
        Ok(squeezed(lx, lx.tokens.len() as int))
    } else {
        Err(entry_text(fault_entry(lx.ending)))
    }
}

/// Minifies a query: gives its tokens with a space between two of them
/// only where neither is a punctuator.
pub fn minify_query(source: String) -> (r: Result<String, MinifyError>)
    ensures
        match minified(source@) {
            Ok(t) => r is Ok && r->Ok_0@ == t,
            Err(m) => r is Err && r->Err_0@ == m,
        },
{
    let mut input = Parser::new(source.as_str());
    let ghost lx = input.lexed();
    let mut out = String::new();
    let mut apart = false;
    assert(out@ =~= squeezed(lx, 0));
    while input.has_token()
        invariant
            input.ready(),
            input.lexed() == lx,
            out@ == squeezed(lx, input.index()),
            apart == (input.index() > 0 && lx.tokens[input.index() - 1].kind != Kind::Punctuator),
        decreases input.left(),
    {
        let ghost k = input.index();
        let ghost before = out@;
        let token = input.bump();
        let word = match token.kind {
            Kind::Punctuator => false,
            _ => true,
        };
        if apart && word {
            out.push(' ');
        }
        out.append(token.value);
        proof {
            assert(out@ =~= before + (if needs_space(lx, k) {
                seq![' ']
            } else {
                Seq::<char>::empty()
            }) + lx.tokens[k].text);
        }
        apart = word;
    }
    if input.at_end() {
        Ok(out)
    } else {
        Err(MinifyError(input.ending_text()))
    }
}

} // verus!
