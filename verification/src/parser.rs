//! What the grammars are built on: the tokens of a source as a sequence,
//! and a reader that looks one token ahead.

use vstd::prelude::*;
use vstd::string::*;
use crate::position::Pos;
use crate::tokenizer::{
    Kind, Token, TokenStream, ScanError, ScanFault, Cursor, Step, step, step_advances,
    first_cursor, RECURSION_LIMIT, shaped,
};
use crate::error::{Error, Info, OwnedToken, ParseError, ErrorModel, InfoModel, Failure, fault_entry};
use crate::text::chars_of;

verus! {

/// A token of a source: its class, its text, and where it starts.
pub struct Lexeme {
    pub kind: Kind,
    pub text: Seq<char>,
    pub pos: Pos,
    pub off: int,
}

/// The tokens of a source, and how they end: with the end of the source
/// (`ScanFault::EndOfInput`) or with another fault of the tokenizer, at
/// position `end_pos` and offset `end_off`.
pub struct Lexed {
    pub tokens: Seq<Lexeme>,
    pub ending: ScanFault,
    pub end_pos: Pos,
    pub end_off: int,
}

/// The tokens of `s` from the cursor `c` on.
pub open spec fn lex_from(s: Seq<char>, c: Cursor) -> Lexed
    decreases s.len() - c.off,
    via lex_from_decreases
{
    match step(s, c) {
        Step::End => Lexed {
            tokens: Seq::empty(),
            ending: ScanFault::EndOfInput,
            end_pos: c.position,
            end_off: c.off,
        },
        Step::Fault(f) => Lexed {
            tokens: Seq::empty(),
            ending: f,
            end_pos: c.position,
            end_off: c.off,
        },
        Step::Token { kind, end, next } => {
            let rest = lex_from(s, next);
            Lexed {
                tokens: seq![
                    Lexeme {
                        kind,
                        text: s.subrange(c.off, end),
                        pos: c.position,
                        off: c.off,
                    },
                ] + rest.tokens,
                ending: rest.ending,
                end_pos: rest.end_pos,
                end_off: rest.end_off,
            }
        },
    }
}

#[via_fn]
proof fn lex_from_decreases(s: Seq<char>, c: Cursor) {
    step_advances(s, c);
}

/// The tokens of `s`.
pub open spec fn lex(s: Seq<char>) -> Lexed {
    lex_from(s, first_cursor(s, RECURSION_LIMIT))
}

/// What a grammar makes of the tokens from some index on: a value and the
/// index of the first token behind it, or a failure.
pub enum Parsed<T> {
    Done(T, int),
    Failed(Failure),
}

impl Lexed {
    /// The tokens from index `k` on, with the same ending.
    pub open spec fn from(self, k: int) -> Lexed {
        Lexed { tokens: self.tokens.skip(k), ..self }
    }

    /// Token `i` is there and of class `kind`.
    pub open spec fn is_kind(self, i: int, kind: Kind) -> bool {
        0 <= i < self.tokens.len() && self.tokens[i].kind == kind
    }

    /// Token `i` is there, of class `kind`, and reads `text`.
    pub open spec fn reads(self, i: int, kind: Kind, text: Seq<char>) -> bool {
        self.is_kind(i, kind) && self.tokens[i].text == text
    }

    /// Token `i` is the punctuator `text`.
    pub open spec fn is_punct(self, i: int, text: Seq<char>) -> bool {
        self.reads(i, Kind::Punctuator, text)
    }

    /// Token `i` is the name `text`.
    pub open spec fn is_word(self, i: int, text: Seq<char>) -> bool {
        self.reads(i, Kind::Name, text)
    }

    /// The position of token `i`, or of the end of the tokens.
    pub open spec fn pos(self, i: int) -> Pos {
        if 0 <= i < self.tokens.len() {
            self.tokens[i].pos
        } else {
            self.end_pos
        }
    }

    /// The offset of token `i`, or of the end of the tokens.
    pub open spec fn off(self, i: int) -> int {
        if 0 <= i < self.tokens.len() {
            self.tokens[i].off
        } else {
            self.end_off
        }
    }

    /// The entry of a parse error that says what stands at index `i`: the
    /// token there, or how the tokens end.
    pub open spec fn found(self, i: int) -> ErrorModel {
        if 0 <= i < self.tokens.len() {
            ErrorModel::Unexpected(InfoModel::Token(self.tokens[i].kind, self.tokens[i].text))
        } else {
            fault_entry(self.ending)
        }
    }

    /// The failure of a grammar that finds at index `i` none of the things
    /// it expects there.
    pub open spec fn failure(self, i: int, expected: Seq<Seq<char>>) -> Failure {
        Failure { position: self.pos(i), errors: seq![self.found(i)] + expectations(expected) }
    }
}

/// The entries of a parse error that say what was expected.
pub open spec fn expectations(expected: Seq<Seq<char>>) -> Seq<ErrorModel> {
    expected.map_values(|t: Seq<char>| ErrorModel::Expected(InfoModel::Owned(t)))
}

/// The texts of a list of strings.
pub open spec fn texts(list: Seq<&'static str>) -> Seq<Seq<char>> {
    list.map_values(|t: &'static str| t@)
}

/// A reader of the tokens of a source that holds the next token ready.
pub struct Parser<'a> {
    stream: TokenStream<'a>,
    look: Result<Token<'a>, ScanError>,
    pos: Pos,
    off: usize,
    lexed: Ghost<Lexed>,
    index: Ghost<int>,
}

impl<'a> Parser<'a> {
    /// The tokens that the reader reads.
    pub closed spec fn lexed(&self) -> Lexed {
        self.lexed@
    }

    /// The index of the next token.
    pub closed spec fn index(&self) -> int {
        self.index@
    }

    /// The source.
    pub closed spec fn source(&self) -> Seq<char> {
        self.stream.source()
    }

    /// The number of tokens that are left.
    pub open spec fn left(&self) -> int {
        self.lexed().tokens.len() - self.index()
    }

    /// The reader holds the token at its index, and its stream stands
    /// behind that token.
    pub closed spec fn wf(&self) -> bool {
        let lx = self.lexed@;
        let i = self.index@;
        &&& 0 <= i <= lx.tokens.len()
        &&& self.pos == lx.pos(i)
        &&& self.off as int == lx.off(i)
        &&& self.off <= self.stream.source().len()
        &&& if i < lx.tokens.len() {
            &&& self.look is Ok
            &&& self.look->Ok_0.kind == lx.tokens[i].kind
            &&& self.look->Ok_0.value@ == lx.tokens[i].text
            &&& shaped(lx.tokens[i].kind, lx.tokens[i].text)
            &&& lex_from(self.stream.source(), self.stream.cursor()) == lx.from(i + 1)
        } else {
            &&& self.look is Err
            &&& self.look->Err_0@ == lx.ending
        }
    }

    /// The reader is in order, and its index is one of a token or the
    /// number of the tokens.
    pub open spec fn ready(&self) -> bool {
        self.wf() && 0 <= self.index() <= self.lexed().tokens.len()
    }

    /// `self` reads the same tokens as `before` and stands at index `i`.
    pub open spec fn moved(&self, before: &Self, i: int) -> bool {
        &&& self.ready()
        &&& self.lexed() == before.lexed()
        &&& self.source() == before.source()
        &&& self.index() == i
    }

    /// A reader of the tokens of `s`, with its first token ready.
    pub fn new(s: &'a str) -> (p: Parser<'a>)
        ensures
            p.ready(),
            p.lexed() == lex(s@),
            p.source() == s@,
            p.index() == 0,
    {
        let mut stream = TokenStream::new(s);
        let pos = stream.position();
        let off = stream.offset();
        let ghost lx = lex(s@);
        let ghost c = stream.cursor();
        let look = stream.uncons();
        proof {
            step_advances(s@, c);
            match step(s@, c) {
                Step::Token { kind, end, next } => {
                    assert(lx.tokens.skip(1) =~= lex_from(s@, next).tokens);
                },
                _ => {},
            }
        }
        Parser { stream, look, pos, off, lexed: Ghost(lx), index: Ghost(0) }
    }

    /// Takes the next token, which is there.
    pub fn bump(&mut self) -> (t: Token<'a>)
        requires
            old(self).wf(),
            old(self).left() > 0,
        ensures
            final(self).moved(old(self), old(self).index() + 1),
            t.kind == old(self).lexed().tokens[old(self).index()].kind,
            t.value@ == old(self).lexed().tokens[old(self).index()].text,
            shaped(t.kind, t.value@),
    {
        let ghost lx = self.lexed@;
        let ghost i = self.index@;
        let ghost s = self.stream.source();
        let ghost c = self.stream.cursor();
        let t = match self.look {
            Ok(t) => t,
            Err(_) => {
                proof {
                    assert(false);
                }
                Token { kind: Kind::Name, value: "" }
            },
        };
        let pos = self.stream.position();
        let off = self.stream.offset();
        let look = self.stream.uncons();
        proof {
            step_advances(s, c);
            let rest = lx.from(i + 1);
            assert(lex_from(s, c) == rest);
            match step(s, c) {
                Step::Token { kind, end, next } => {
                    assert(rest.tokens.len() > 0);
                    assert(rest.tokens[0] == lx.tokens[i + 1]);
                    assert(rest.tokens.skip(1) =~= lex_from(s, next).tokens);
                    assert(lx.tokens.skip(i + 2) =~= rest.tokens.skip(1));
                },
                _ => {
                    assert(rest.tokens.len() == 0);
                },
            }
        }
        self.look = look;
        self.pos = pos;
        self.off = off;
        self.index = Ghost(i + 1);
        t
    }

    /// Whether the next token is there and of class `kind`.
    pub fn at_kind(&self, kind: Kind) -> (b: bool)
        requires
            self.wf(),
        ensures
            b == self.lexed().is_kind(self.index(), kind),
    {
        match &self.look {
            Ok(t) => t.kind == kind,
            Err(_) => false,
        }
    }

    /// Whether the next token is there, of class `kind`, and reads `text`.
    pub fn at(&self, kind: Kind, text: &str) -> (b: bool)
        requires
            self.wf(),
        ensures
            b == self.lexed().reads(self.index(), kind, text@),
    {
        match &self.look {
            Ok(t) => t.kind == kind && same_text(t.value, text),
            Err(_) => false,
        }
    }

    /// Whether the next token is the punctuator `text`.
    pub fn at_punct(&self, text: &str) -> (b: bool)
        requires
            self.wf(),
        ensures
            b == self.lexed().is_punct(self.index(), text@),
    {
        self.at(Kind::Punctuator, text)
    }

    /// Whether the next token is the name `text`.
    pub fn at_word(&self, text: &str) -> (b: bool)
        requires
            self.wf(),
        ensures
            b == self.lexed().is_word(self.index(), text@),
    {
        self.at(Kind::Name, text)
    }

    /// The position of the next token, or of the end of the tokens.
    pub fn position(&self) -> (p: Pos)
        requires
            self.wf(),
        ensures
            p == self.lexed().pos(self.index()),
    {
        self.pos
    }

    /// The offset of the next token, or of the end of the tokens.
    pub fn offset(&self) -> (off: usize)
        requires
            self.wf(),
        ensures
            off as int == self.lexed().off(self.index()),
            off <= self.source().len(),
    {
        self.off
    }

    /// The failure of a grammar that expects `a` where the reader stands.
    pub fn fail1(&self, a: &'static str) -> (e: ParseError)
        requires
            self.wf(),
        ensures
            e@ == self.lexed().failure(self.index(), texts(seq![a])),
    {
        let v = vec![a];
        assert(v@ =~= seq![a]);
        self.fail(v)
    }

    /// The failure of a grammar that expects `a` or `b` where the reader
    /// stands.
    pub fn fail2(&self, a: &'static str, b: &'static str) -> (e: ParseError)
        requires
            self.wf(),
        ensures
            e@ == self.lexed().failure(self.index(), texts(seq![a, b])),
    {
        let v = vec![a, b];
        assert(v@ =~= seq![a, b]);
        self.fail(v)
    }

    /// Whether a token is left.
    pub fn has_token(&self) -> (b: bool)
        requires
            self.wf(),
        ensures
            b == (self.left() > 0),
    {
        self.look.is_ok()
    }

    /// Whether the tokens are used up and the source with them.
    pub fn at_end(&self) -> (b: bool)
        requires
            self.wf(),
        ensures
            b == (self.left() <= 0 && self.lexed().ending == ScanFault::EndOfInput),
    {
        match &self.look {
            Ok(_) => false,
            Err(e) => match e {
                ScanError::EndOfInput => true,
                _ => false,
            },
        }
    }

    /// What the tokenizer says of the end of the tokens, which the reader
    /// has reached.
    pub fn ending_text(&self) -> (s: String)
        requires
            self.wf(),
            self.left() <= 0,
        ensures
            s@ == crate::error::entry_text(fault_entry(self.lexed().ending)),
    {
        match &self.look {
            Ok(_) => String::new(),
            Err(e) => e.to_string(),
        }
    }

    /// Takes the next token, which is there, and gives its text.
    pub fn take_text(&mut self) -> (s: String)
        requires
            old(self).wf(),
            old(self).left() > 0,
        ensures
            final(self).moved(old(self), old(self).index() + 1),
            s@ == old(self).lexed().tokens[old(self).index()].text,
    {
        let t = self.bump();
        String::from_str(t.value)
    }

    /// The entry of a parse error that says what stands where the reader
    /// stands.
    pub fn found(&self) -> (e: Error)
        requires
            self.wf(),
        ensures
            e@ == self.lexed().found(self.index()),
    {
        match &self.look {
            Ok(t) => Error::Unexpected(
                Info::Token(OwnedToken { kind: t.kind, value: String::from_str(t.value) }),
            ),
            Err(e) => e.entry(),
        }
    }

    /// The failure of a grammar that finds none of `expected` where the
    /// reader stands.
    pub fn fail(&self, expected: Vec<&'static str>) -> (e: ParseError)
        requires
            self.wf(),
        ensures
            e@ == self.lexed().failure(self.index(), texts(expected@)),
    {
        let mut errors: Vec<Error> = Vec::new();
        errors.push(self.found());
        let ghost head = errors@;
        let mut k: usize = 0;
        while k < expected.len()
            invariant
                k <= expected@.len(),
                errors@.len() == k + 1,
                errors@[0] == head[0],
                forall|j: int|
                    0 <= j < k ==> (#[trigger] errors@[j + 1])@ == ErrorModel::Expected(
                        InfoModel::Owned(expected@[j]@),
                    ),
            decreases expected@.len() - k,
        {
            errors.push(Error::Expected(Info::Owned(String::from_str(expected[k]))));
            k += 1;
        }
        let e = ParseError { position: self.pos, errors };
        proof {
            let want = self.lexed().failure(self.index(), texts(expected@));
            assert(e@.errors.len() == want.errors.len());
            assert forall|j: int| 0 <= j < e@.errors.len() implies e@.errors[j] == want.errors[j] by {
                if j > 0 {
                    assert(e.errors@[(j - 1) + 1]@ == ErrorModel::Expected(
                        InfoModel::Owned(expected@[j - 1]@),
                    ));
                }
            }
            assert(e@.errors =~= want.errors);
        }
        e
    }
}

/// What a reader returns agrees with what a grammar makes of the tokens:
/// the reader `after` still reads the tokens of `before`; where the
/// grammar gives a value, the reader gave `ok` and stands behind it, and
/// where the grammar fails, the reader gave the failure `err`.
pub open spec fn outcome<M>(
    before: &Parser<'_>,
    after: &Parser<'_>,
    ok: Option<M>,
    err: Option<Failure>,
    p: Parsed<M>,
) -> bool {
    &&& after.ready()
    &&& after.lexed() == before.lexed()
    &&& after.source() == before.source()
    &&& match p {
        Parsed::Done(m, j) => ok == Some(m) && err is None && after.index() == j && before.index()
            <= j,
        Parsed::Failed(f) => ok is None && err == Some(f),
    }
}

/// The failure that a result holds.
pub open spec fn failure_of<T>(r: Result<T, ParseError>) -> Option<Failure> {
    match r {
        Ok(_) => None,
        Err(e) => Some(e@),
    }
}

/// The model of the value that a result holds.
pub open spec fn model_of<T: View>(r: Result<T, ParseError>) -> Option<T::V> {
    match r {
        Ok(v) => Some(v@),
        Err(_) => None,
    }
}

/// Whether two strings hold the same characters.
pub fn same_text(a: &str, b: &str) -> (same: bool)
    ensures
        same == (a@ == b@),
{
    let x = chars_of(a);
    let y = chars_of(b);
    if x.len() != y.len() {
        return false;
    }
    let mut i: usize = 0;
    while i < x.len()
        invariant
            i <= x@.len(),
            x@.len() == y@.len(),
            x@ == a@,
            y@ == b@,
            forall|j: int| 0 <= j < i ==> x@[j] == y@[j],
        decreases x@.len() - i,
    {
        if x[i] != y[i] {
            return false;
        }
        i += 1;
    }
    assert(x@ =~= y@);
    true
}

} // verus!
