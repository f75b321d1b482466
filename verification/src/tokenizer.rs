//! The tokenizer: a cursor over the source text that hands out one
//! classified token at a time.
//!
//! What the tokenizer does is fixed by the spec functions of this file:
//! [`skip_ignored`] says what lies between tokens and how it moves the
//! position, [`scan_token`] says which token starts at an offset, and
//! [`step`] puts the two together. The executable [`TokenStream`] is proved
//! to follow them.

use vstd::prelude::*;
use vstd::string::*;
use crate::position::{Pos, sat_add};
use crate::number::{is_digit, is_int_literal, is_float_literal, float_in, int_in, opt_int};
use crate::text::{chars_of, string_of};

verus! {

/// The class of a token.
#[derive(Debug, PartialEq, Eq, Clone, Copy, Structural)]
pub enum Kind {
    Punctuator,
    Name,
    IntValue,
    FloatValue,
    StringValue,
    BlockString,
}

/// A token: its class and the piece of the source that makes it up.
#[derive(Debug, PartialEq, Eq, Clone, Copy)]
pub struct Token<'a> {
    pub kind: Kind,
    pub value: &'a str,
}

/// Why no token could be read.
#[derive(Debug, PartialEq, Eq, Clone)]
pub enum ScanError {
    /// The source is used up.
    EndOfInput,
    /// No token starts with this character.
    UnexpectedChar(char),
    /// A dot that is not part of `...`.
    BareDot,
    /// A quoted string that runs into a line break or the end of the source.
    UnterminatedString,
    /// A block string without its closing quotes.
    UnterminatedBlockString,
    /// A number without fraction and exponent that is no integer literal.
    BadInt(String),
    /// A number with a fraction or an exponent that is no float literal.
    BadFloat(String),
    /// More brackets are open than the stream allows.
    RecursionLimit,
}

/// The mathematical counterpart of [`ScanError`].
pub enum ScanFault {
    EndOfInput,
    UnexpectedChar(char),
    BareDot,
    UnterminatedString,
    UnterminatedBlockString,
    BadInt(Seq<char>),
    BadFloat(Seq<char>),
    RecursionLimit,
}

impl View for ScanError {
    type V = ScanFault;

    open spec fn view(&self) -> ScanFault {
        match self {
            ScanError::EndOfInput => ScanFault::EndOfInput,
            ScanError::UnexpectedChar(c) => ScanFault::UnexpectedChar(*c),
            ScanError::BareDot => ScanFault::BareDot,
            ScanError::UnterminatedString => ScanFault::UnterminatedString,
            ScanError::UnterminatedBlockString => ScanFault::UnterminatedBlockString,
            ScanError::BadInt(t) => ScanFault::BadInt(t@),
            ScanError::BadFloat(t) => ScanFault::BadFloat(t@),
            ScanError::RecursionLimit => ScanFault::RecursionLimit,
        }
    }
}

/// Where a stream stands: the offset of the next token in characters, the
/// position of that offset, and how many more brackets may be opened.
#[derive(Clone, Copy, Debug)]
pub struct Checkpoint {
    pub position: Pos,
    pub off: usize,
    pub depth: usize,
}

/// The mathematical counterpart of [`Checkpoint`].
pub struct Cursor {
    pub position: Pos,
    pub off: int,
    pub depth: usize,
}

impl View for Checkpoint {
    type V = Cursor;

    open spec fn view(&self) -> Cursor {
        Cursor { position: self.position, off: self.off as int, depth: self.depth }
    }
}

/// The number of brackets that may be open at once in a stream made by
/// [`TokenStream::new`].
pub const RECURSION_LIMIT: usize = 50;

/// A bracket that opens: each one uses up one unit of the stream's depth.
pub open spec fn opens(c: char) -> bool {
    c == '(' || c == '[' || c == '{'
}

/// A bracket that closes: each one gives one unit of depth back.
pub open spec fn closes(c: char) -> bool {
    c == ')' || c == ']' || c == '}'
}

/// A punctuator of one character.
pub open spec fn is_punct(c: char) -> bool {
    c == '!' || c == '$' || c == ':' || c == '=' || c == '@' || c == '|' || opens(c) || closes(c)
}

/// A character that may begin a name.
pub open spec fn is_name_start(c: char) -> bool {
    c == '_' || ('a' <= c && c <= 'z') || ('A' <= c && c <= 'Z')
}

/// A character that may continue a name.
pub open spec fn is_name_char(c: char) -> bool {
    is_name_start(c) || is_digit(c)
}

/// A character that ends the scan of a number.
pub open spec fn ends_number(c: char) -> bool {
    c == ' ' || c == '\n' || c == '\r' || c == '\t' || c == ',' || c == '#' || is_punct(c)
}

/// The end of the longest run of name characters that starts at `i`.
pub open spec fn name_end(s: Seq<char>, i: int) -> int
    decreases s.len() - i,
{
    if 0 <= i < s.len() && is_name_char(s[i]) {
        name_end(s, i + 1)
    } else {
        i
    }
}

/// The first offset at or after `i` that holds a character ending a number,
/// or the end of the source.
pub open spec fn number_end(s: Seq<char>, i: int) -> int
    decreases s.len() - i,
{
    if 0 <= i < s.len() && !ends_number(s[i]) {
        number_end(s, i + 1)
    } else {
        i
    }
}

/// The index of the last dot among the first `n` characters of `t`.
pub open spec fn last_dot(t: Seq<char>, n: int) -> Option<int>
    decreases n,
{
    if n <= 0 || n > t.len() {
        None
    } else if t[n - 1] == '.' {
        Some(n - 1)
    } else {
        last_dot(t, n - 1)
    }
}

/// The index of the last exponent marker among the first `n` characters of
/// `t`.
pub open spec fn last_exponent(t: Seq<char>, n: int) -> Option<int>
    decreases n,
{
    if n <= 0 || n > t.len() {
        None
    } else if t[n - 1] == 'e' || t[n - 1] == 'E' {
        Some(n - 1)
    } else {
        last_exponent(t, n - 1)
    }
}

/// Where the scan of a quoted string stops: the first offset at or after
/// `i` that holds a line feed, or a quote that no backslash stands before;
/// the end of the source if there is none.
pub open spec fn string_stop(s: Seq<char>, i: int) -> int
    decreases s.len() - i,
{
    if 1 <= i < s.len() && !(s[i] == '\n' || (s[i] == '"' && s[i - 1] != '\\')) {
        string_stop(s, i + 1)
    } else {
        i
    }
}

/// Three quotes stand at offset `i`.
pub open spec fn quotes_at(s: Seq<char>, i: int) -> bool {
    0 <= i && i + 3 <= s.len() && s[i] == '"' && s[i + 1] == '"' && s[i + 2] == '"'
}

/// The offset of the three quotes that close a block string whose body
/// starts at `body`, searched from `i` on. Three quotes right after a
/// backslash do not close it, and the search goes on behind them.
pub open spec fn block_close(s: Seq<char>, body: int, i: int) -> Option<int>
    decreases s.len() - i,
{
    if i < 0 || i + 3 > s.len() {
        None
    } else if quotes_at(s, i) {
        if i > body && s[i - 1] == '\\' {
            block_close(s, body, i + 3)
        } else {
            Some(i)
        }
    } else {
        block_close(s, body, i + 1)
    }
}

/// The position reached from `pos` by walking over `t`: a line feed leads
/// to the start of the next line, any other character one column on.
pub open spec fn walk(pos: Pos, t: Seq<char>) -> Pos
    decreases t.len(),
{
    if t.len() == 0 {
        pos
    } else if t.last() == '\n' {
        walk(pos, t.drop_last()).next_line()
    } else {
        walk(pos, t.drop_last()).right(1)
    }
}

/// Where the next token starts, and the position there, when the scanner
/// stands at `off` with position `pos`. Between tokens it passes over
/// spaces and commas (one column each), tabs (eight columns), carriage
/// returns and byte-order marks (no column), line feeds (a new line), and
/// comments, which run from `#` to the end of the line and count as a line
/// break, not as columns. A comment ends at a line feed or at a carriage
/// return; a carriage return with a line feed behind it is one line break
/// with it. `in_comment` says that `off` lies inside a comment.
pub open spec fn skip_ignored(s: Seq<char>, off: int, pos: Pos, in_comment: bool) -> (int, Pos)
    decreases s.len() - off,
{
    if off < 0 || off >= s.len() {
        (off, pos)
    } else if in_comment {
        if s[off] == '\n' || (s[off] == '\r' && !(off + 1 < s.len() && s[off + 1] == '\n')) {
            skip_ignored(s, off + 1, pos.next_line(), false)
        } else if s[off] == '\r' {
            skip_ignored(s, off + 1, pos, false)
        } else {
            skip_ignored(s, off + 1, pos, true)
        }
    } else if s[off] == '\u{feff}' || s[off] == '\r' {
        skip_ignored(s, off + 1, pos, false)
    } else if s[off] == '\t' {
        skip_ignored(s, off + 1, pos.right(8), false)
    } else if s[off] == '\n' {
        skip_ignored(s, off + 1, pos.next_line(), false)
    } else if s[off] == ' ' || s[off] == ',' {
        skip_ignored(s, off + 1, pos.right(1), false)
    } else if s[off] == '#' {
        skip_ignored(s, off + 1, pos, true)
    } else {
        (off, pos)
    }
}

/// The text of a token has the shape of its class, as far as the readers
/// of string literals rely on it: a quoted string stands between two
/// quotes, a block string between two runs of three.
pub open spec fn shaped(kind: Kind, text: Seq<char>) -> bool {
    match kind {
        Kind::StringValue => text.len() >= 2 && text[0] == '"' && text.last() == '"',
        Kind::BlockString => text.len() >= 6 && quotes_at(text, 0) && quotes_at(
            text,
            text.len() - 3,
        ),
        _ => text.len() >= 1,
    }
}

/// What stands at an offset.
pub enum Scanned {
    /// The end of the source.
    End,
    /// No token: the source is malformed here.
    Fault(ScanFault),
    /// A token that ends before offset `end`; `pos` is the position there
    /// and `depth` the depth that is left behind it.
    Token { kind: Kind, end: int, pos: Pos, depth: usize },
}

/// The token that starts at the cursor `c`, which stands at a token's first
/// character or at the end of the source.
pub open spec fn scan_token(s: Seq<char>, c: Cursor) -> Scanned {
    let off = c.off;
    if off < 0 || off >= s.len() {
        Scanned::End
    } else if opens(s[off]) {
        if c.depth == 0 {
            Scanned::Fault(ScanFault::RecursionLimit)
        } else {
            Scanned::Token {
                kind: Kind::Punctuator,
                end: off + 1,
                pos: c.position.right(1),
                depth: (c.depth - 1) as usize,
            }
        }
    } else if closes(s[off]) {
        Scanned::Token {
            kind: Kind::Punctuator,
            end: off + 1,
            pos: c.position.right(1),
            depth: sat_add(c.depth, 1),
        }
    } else if is_punct(s[off]) {
        Scanned::Token {
            kind: Kind::Punctuator,
            end: off + 1,
            pos: c.position.right(1),
            depth: c.depth,
        }
    } else if s[off] == '.' {
        if off + 3 <= s.len() && s[off + 1] == '.' && s[off + 2] == '.' {
            Scanned::Token {
                kind: Kind::Punctuator,
                end: off + 3,
                pos: c.position.right(3),
                depth: c.depth,
            }
        } else {
            Scanned::Fault(ScanFault::BareDot)
        }
    } else if is_name_start(s[off]) {
        let end = name_end(s, off + 1);
        Scanned::Token { kind: Kind::Name, end, pos: c.position.right(end - off), depth: c.depth }
    } else if s[off] == '-' || is_digit(s[off]) {
        let end = number_end(s, off + 1);
        let t = s.subrange(off, end);
        let dot = last_dot(t, t.len() as int);
        let exponent = last_exponent(t, t.len() as int);
        if dot is Some || exponent is Some {
            if is_float_literal(t, exponent, dot) {
                Scanned::Token {
                    kind: Kind::FloatValue,
                    end,
                    pos: c.position.right(end - off),
                    depth: c.depth,
                }
            } else {
                Scanned::Fault(ScanFault::BadFloat(t))
            }
        } else if is_int_literal(t) {
            Scanned::Token {
                kind: Kind::IntValue,
                end,
                pos: c.position.right(end - off),
                depth: c.depth,
            }
        } else {
            Scanned::Fault(ScanFault::BadInt(t))
        }
    } else if s[off] == '"' {
        if quotes_at(s, off) {
            match block_close(s, off + 3, off + 3) {
                Some(close) => Scanned::Token {
                    kind: Kind::BlockString,
                    end: close + 3,
                    pos: walk(c.position, s.subrange(off, close + 3)),
                    depth: c.depth,
                },
                None => Scanned::Fault(ScanFault::UnterminatedBlockString),
            }
        } else {
            let stop = string_stop(s, off + 1);
            if stop < s.len() && s[stop] == '"' {
                Scanned::Token {
                    kind: Kind::StringValue,
                    end: stop + 1,
                    pos: c.position.right(stop + 1 - off),
                    depth: c.depth,
                }
            } else {
                Scanned::Fault(ScanFault::UnterminatedString)
            }
        }
    } else {
        Scanned::Fault(ScanFault::UnexpectedChar(s[off]))
    }
}

/// One step of the tokenizer.
pub enum Step {
    /// The source is used up.
    End,
    /// The source is malformed at the cursor.
    Fault(ScanFault),
    /// A token of class `kind` that is the text from the cursor's offset
    /// to `end`; the next token, if any, is found at `next`.
    Token { kind: Kind, end: int, next: Cursor },
}

/// The token at the cursor `c` and the cursor behind it and behind what is
/// ignored after it.
pub open spec fn step(s: Seq<char>, c: Cursor) -> Step {
    match scan_token(s, c) {
        Scanned::End => Step::End,
        Scanned::Fault(f) => Step::Fault(f),
        Scanned::Token { kind, end, pos, depth } => {
            let (off, position) = skip_ignored(s, end, pos, false);
            Step::Token { kind, end, next: Cursor { position, off, depth } }
        },
    }
}

/// The cursor of a fresh stream over `s` with the given depth: the first
/// token's offset and position.
pub open spec fn first_cursor(s: Seq<char>, depth: usize) -> Cursor {
    let (off, position) = skip_ignored(s, 0, Pos::start(), false);
    Cursor { position, off, depth }
}

/// What is ignored ends at or before the end of the source, and not before
/// where it began.
pub proof fn skip_ignored_bounds(s: Seq<char>, off: int, pos: Pos, in_comment: bool)
    requires
        0 <= off <= s.len(),
    ensures
        off <= skip_ignored(s, off, pos, in_comment).0 <= s.len(),
    decreases s.len() - off,
{
    if off < s.len() {
        if in_comment {
            if s[off] == '\r' || s[off] == '\n' {
                skip_ignored_bounds(s, off + 1, pos.next_line(), false);
                skip_ignored_bounds(s, off + 1, pos, false);
            } else {
                skip_ignored_bounds(s, off + 1, pos, true);
            }
        } else if s[off] == '\u{feff}' || s[off] == '\r' {
            skip_ignored_bounds(s, off + 1, pos, false);
        } else if s[off] == '\t' {
            skip_ignored_bounds(s, off + 1, pos.right(8), false);
        } else if s[off] == '\n' {
            skip_ignored_bounds(s, off + 1, pos.next_line(), false);
        } else if s[off] == ' ' || s[off] == ',' {
            skip_ignored_bounds(s, off + 1, pos.right(1), false);
        } else if s[off] == '#' {
            skip_ignored_bounds(s, off + 1, pos, true);
        }
    }
}

/// A name does not end before it starts, nor behind the source.
pub proof fn name_end_bounds(s: Seq<char>, i: int)
    requires
        0 <= i <= s.len(),
    ensures
        i <= name_end(s, i) <= s.len(),
    decreases s.len() - i,
{
    if i < s.len() && is_name_char(s[i]) {
        name_end_bounds(s, i + 1);
    }
}

/// A number does not end before it starts, nor behind the source.
pub proof fn number_end_bounds(s: Seq<char>, i: int)
    requires
        0 <= i <= s.len(),
    ensures
        i <= number_end(s, i) <= s.len(),
    decreases s.len() - i,
{
    if i < s.len() && !ends_number(s[i]) {
        number_end_bounds(s, i + 1);
    }
}

/// The scan of a string does not stop before it starts, nor behind the
/// source.
pub proof fn string_stop_bounds(s: Seq<char>, i: int)
    requires
        1 <= i <= s.len(),
    ensures
        i <= string_stop(s, i) <= s.len(),
    decreases s.len() - i,
{
    if i < s.len() && !(s[i] == '\n' || (s[i] == '"' && s[i - 1] != '\\')) {
        string_stop_bounds(s, i + 1);
    }
}

/// The quotes that close a block string stand in the source, and not
/// before the search for them began.
pub proof fn block_close_bounds(s: Seq<char>, body: int, i: int)
    requires
        0 <= i,
    ensures
        block_close(s, body, i) is Some ==> i <= block_close(s, body, i)->0 && block_close(
            s,
            body,
            i,
        )->0 + 3 <= s.len(),
    decreases s.len() - i,
{
    if i + 3 <= s.len() {
        if quotes_at(s, i) {
            if i > body && s[i - 1] == '\\' {
                block_close_bounds(s, body, i + 3);
            }
        } else {
            block_close_bounds(s, body, i + 1);
        }
    }
}

/// A token is not empty and lies in the source, and so does what is
/// ignored behind it.
pub proof fn step_advances(s: Seq<char>, c: Cursor)
    ensures
        match step(s, c) {
            Step::Token { kind, end, next } => c.off < end <= next.off <= s.len(),
            _ => true,
        },
{
    let off = c.off;
    if 0 <= off < s.len() {
        name_end_bounds(s, off + 1);
        number_end_bounds(s, off + 1);
        string_stop_bounds(s, off + 1);
        block_close_bounds(s, off + 3, off + 3);
        match scan_token(s, c) {
            Scanned::Token { kind, end, pos, depth } => {
                skip_ignored_bounds(s, end, pos, false);
            },
            _ => {},
        }
    }
}

/// `last_dot` looks only at the first `n` characters.
proof fn last_dot_of_prefix(a: Seq<char>, b: Seq<char>, n: int)
    requires
        0 <= n <= a.len(),
        n <= b.len(),
        forall|i: int| 0 <= i < n ==> a[i] == b[i],
    ensures
        last_dot(a, n) == last_dot(b, n),
        last_exponent(a, n) == last_exponent(b, n),
    decreases n,
{
    if n > 0 {
        last_dot_of_prefix(a, b, n - 1);
    }
}

/// Walking over a text and one more character.
proof fn walk_push(pos: Pos, t: Seq<char>, c: char)
    ensures
        walk(pos, t.push(c)) == if c == '\n' {
            walk(pos, t).next_line()
        } else {
            walk(pos, t).right(1)
        },
{
    assert(t.push(c).drop_last() =~= t);
}

fn punct_char(c: char) -> (b: bool)
    ensures
        b == is_punct(c),
{
    c == '!' || c == '$' || c == ':' || c == '=' || c == '@' || c == '|' || c == '(' || c == ')'
        || c == '[' || c == ']' || c == '{' || c == '}'
}

fn name_start_char(c: char) -> (b: bool)
    ensures
        b == is_name_start(c),
{
    c == '_' || ('a' <= c && c <= 'z') || ('A' <= c && c <= 'Z')
}

fn name_char(c: char) -> (b: bool)
    ensures
        b == is_name_char(c),
{
    name_start_char(c) || ('0' <= c && c <= '9')
}

fn number_end_char(c: char) -> (b: bool)
    ensures
        b == ends_number(c),
{
    c == ' ' || c == '\n' || c == '\r' || c == '\t' || c == ',' || c == '#' || punct_char(c)
}

/// Passes over what is ignored from `off` on; returns where the next token
/// starts and moves `pos` there.
fn skip_whitespace(chars: &[char], off: usize, pos: &mut Pos) -> (end: usize)
    requires
        off <= chars@.len(),
    ensures
        (end as int, *final(pos)) == skip_ignored(chars@, off as int, *old(pos), false),
        off <= end <= chars@.len(),
{
    let n = chars.len();
    let mut i: usize = off;
    let mut in_comment = false;
    proof {
        skip_ignored_bounds(chars@, off as int, *pos, false);
    }
    while i < n
        invariant
            n == chars@.len(),
            off <= i <= n,
            skip_ignored(chars@, off as int, *old(pos), false) == skip_ignored(
                chars@,
                i as int,
                *pos,
                in_comment,
            ),
        ensures
            off <= i <= n,
            skip_ignored(chars@, off as int, *old(pos), false) == (i as int, *pos),
        decreases n - i,
    {
        let c = chars[i];
        if in_comment {
            if c == '\n' {
                pos.newline();
                in_comment = false;
            } else if c == '\r' {
                if !(i + 1 < n && chars[i + 1] == '\n') {
                    pos.newline();
                }
                in_comment = false;
            }
        } else if c == '\u{feff}' || c == '\r' {
        } else if c == '\t' {
            pos.advance(8);
        } else if c == '\n' {
            pos.newline();
        } else if c == ' ' || c == ',' {
            pos.advance(1);
        } else if c == '#' {
            in_comment = true;
        } else {
            break;
        }
        i += 1;
    }
    i
}

/// The end of the name whose first character stands before `from`.
fn scan_name(chars: &[char], from: usize) -> (end: usize)
    requires
        from <= chars@.len(),
    ensures
        end as int == name_end(chars@, from as int),
        from <= end <= chars@.len(),
{
    let n = chars.len();
    let mut i: usize = from;
    while i < n && name_char(chars[i])
        invariant
            n == chars@.len(),
            from <= i <= n,
            name_end(chars@, from as int) == name_end(chars@, i as int),
        decreases n - i,
    {
        i += 1;
    }
    i
}

/// The end of the number that starts at `off`, with the places of its last
/// dot and of its last exponent marker, counted from `off`.
fn scan_number(chars: &[char], off: usize) -> (r: (usize, Option<usize>, Option<usize>))
    requires
        off < chars@.len(),
    ensures
        r.0 as int == number_end(chars@, off + 1),
        off < r.0 <= chars@.len(),
        opt_int(r.1) == last_dot(chars@.subrange(off as int, r.0 as int), r.0 - off),
        opt_int(r.2) == last_exponent(chars@.subrange(off as int, r.0 as int), r.0 - off),
        r.1 is Some ==> r.1->0 < r.0 - off,
        r.2 is Some ==> r.2->0 < r.0 - off,
{
    let n = chars.len();
    let mut i: usize = off + 1;
    let mut dot: Option<usize> = None;
    let mut exponent: Option<usize> = None;
    let ghost rest = chars@.skip(off as int);
    let first = chars[off];
    if first == '.' {
        dot = Some(0);
    }
    if first == 'e' || first == 'E' {
        exponent = Some(0);
    }
    assert(last_dot(rest, 0) is None && last_exponent(rest, 0) is None);
    assert(rest[0] == first);
    while i < n && !number_end_char(chars[i])
        invariant
            n == chars@.len(),
            off < i <= n,
            rest == chars@.skip(off as int),
            number_end(chars@, off + 1) == number_end(chars@, i as int),
            opt_int(dot) == last_dot(rest, i - off),
            opt_int(exponent) == last_exponent(rest, i - off),
            dot is Some ==> dot->0 < i - off,
            exponent is Some ==> exponent->0 < i - off,
        decreases n - i,
    {
        let c = chars[i];
        assert(rest[i - off] == c);
        if c == '.' {
            dot = Some(i - off);
        } else if c == 'e' || c == 'E' {
            exponent = Some(i - off);
        }
        i += 1;
    }
    proof {
        last_dot_of_prefix(rest, chars@.subrange(off as int, i as int), i - off);
    }
    (i, dot, exponent)
}

/// Where the scan of the quoted string stops whose opening quote stands
/// before `from`.
fn scan_string(chars: &[char], from: usize) -> (stop: usize)
    requires
        1 <= from <= chars@.len(),
    ensures
        stop as int == string_stop(chars@, from as int),
        from <= stop <= chars@.len(),
{
    let n = chars.len();
    let mut i: usize = from;
    while i < n && !(chars[i] == '\n' || (chars[i] == '"' && chars[i - 1] != '\\'))
        invariant
            n == chars@.len(),
            1 <= from <= i <= n,
            string_stop(chars@, from as int) == string_stop(chars@, i as int),
        decreases n - i,
    {
        i += 1;
    }
    i
}

/// Whether three quotes stand at `i`.
fn quotes_here(chars: &[char], i: usize) -> (b: bool)
    requires
        i <= chars@.len(),
    ensures
        b == quotes_at(chars@, i as int),
{
    chars.len() - i >= 3 && chars[i] == '"' && chars[i + 1] == '"' && chars[i + 2] == '"'
}

/// The offset of the quotes that close the block string whose body starts
/// at `body`.
fn scan_block(chars: &[char], body: usize) -> (close: Option<usize>)
    requires
        body <= chars@.len(),
    ensures
        opt_int(close) == block_close(chars@, body as int, body as int),
        close is Some ==> body <= close->0 && close->0 + 3 <= chars@.len() && quotes_at(
            chars@,
            close->0 as int,
        ),
{
    let n = chars.len();
    let mut i: usize = body;
    while n - i >= 3
        invariant
            n == chars@.len(),
            body <= i <= n,
            block_close(chars@, body as int, body as int) == block_close(
                chars@,
                body as int,
                i as int,
            ),
        decreases n - i,
    {
        if quotes_here(chars, i) {
            if i > body && chars[i - 1] == '\\' {
                i += 3;
            } else {
                return Some(i);
            }
        } else {
            i += 1;
        }
    }
    None
}

/// Moves `pos` over the characters `chars[from..to]`.
fn walk_over(chars: &[char], from: usize, to: usize, pos: &mut Pos)
    requires
        from <= to <= chars@.len(),
    ensures
        *final(pos) == walk(*old(pos), chars@.subrange(from as int, to as int)),
{
    let mut i: usize = from;
    assert(chars@.subrange(from as int, from as int) =~= Seq::<char>::empty());
    while i < to
        invariant
            from <= i <= to <= chars@.len(),
            *pos == walk(*old(pos), chars@.subrange(from as int, i as int)),
        decreases to - i,
    {
        proof {
            walk_push(*old(pos), chars@.subrange(from as int, i as int), chars@[i as int]);
            assert(chars@.subrange(from as int, i + 1) =~= chars@.subrange(
                from as int,
                i as int,
            ).push(chars@[i as int]));
        }
        if chars[i] == '\n' {
            pos.newline();
        } else {
            pos.advance(1);
        }
        i += 1;
    }
}

/// A cursor over a source text that hands out its tokens one by one.
#[derive(Debug)]
pub struct TokenStream<'a> {
    buf: &'a str,
    chars: Vec<char>,
    position: Pos,
    off: usize,
    depth: usize,
}

impl<'a> TokenStream<'a> {
    #[verifier::type_invariant]
    spec fn well_formed(&self) -> bool {
        &&& self.chars@ == self.buf@
        &&& self.off <= self.chars@.len()
    }

    /// The characters of the source text.
    pub closed spec fn source(&self) -> Seq<char> {
        self.chars@
    }

    /// Where the stream stands.
    pub closed spec fn cursor(&self) -> Cursor {
        Cursor { position: self.position, off: self.off as int, depth: self.depth }
    }

    /// A stream over `s` that stands at the first token and allows
    /// [`RECURSION_LIMIT`] open brackets.
    pub fn new(s: &'a str) -> (stream: TokenStream<'a>)
        ensures
            stream.source() == s@,
            stream.cursor() == first_cursor(s@, RECURSION_LIMIT),
    {
        TokenStream::with_recursion_limit(s, RECURSION_LIMIT)
    }

    /// A stream over `s` that stands at the first token and allows `limit`
    /// open brackets.
    pub fn with_recursion_limit(s: &'a str, limit: usize) -> (stream: TokenStream<'a>)
        ensures
            stream.source() == s@,
            stream.cursor() == first_cursor(s@, limit),
    {
        let chars = chars_of(s);
        let mut position = Pos { line: 1, column: 1 };
        let off = skip_whitespace(chars.as_slice(), 0, &mut position);
        TokenStream { buf: s, chars, position, off, depth: limit }
    }

    /// The position of the next token, or of the end of the source.
    pub fn position(&self) -> (p: Pos)
        ensures
            p == self.cursor().position,
    {
        self.position
    }

    /// The offset of the next token in characters, or the length of the
    /// source.
    pub fn offset(&self) -> (off: usize)
        ensures
            off as int == self.cursor().off,
            off <= self.source().len(),
    {
        proof {
            use_type_invariant(self);
        }
        self.off
    }

    /// The cursor, to come back to with [`TokenStream::reset`].
    pub fn checkpoint(&self) -> (c: Checkpoint)
        ensures
            c@ == self.cursor(),
    {
        Checkpoint { position: self.position, off: self.off, depth: self.depth }
    }

    /// Puts the stream back where `checkpoint` was taken. A checkpoint
    /// whose offset lies beyond the source is not one of this stream, and
    /// leaves it where it stands.
    pub fn reset(&mut self, checkpoint: Checkpoint)
        ensures
            final(self).source() == old(self).source(),
            final(self).cursor() == if checkpoint.off <= old(self).source().len() {
                checkpoint@
            } else {
                old(self).cursor()
            },
    {
        proof {
            use_type_invariant(&*self);
        }
        if checkpoint.off <= self.chars.len() {
            self.position = checkpoint.position;
            self.off = checkpoint.off;
            self.depth = checkpoint.depth;
        }
    }

    /// The source text from the next token on.
    pub fn remainder(&self) -> (rest: &'a str)
        ensures
            rest@ == self.source().skip(self.cursor().off),
    {
        proof {
            use_type_invariant(self);
        }
        let n = self.chars.len();
        self.buf.substring_char(self.off, n)
    }

    /// Takes the next token from the stream. At the end of the source, and
    /// where the source is malformed, the stream stays where it stands.
    pub fn uncons(&mut self) -> (r: Result<Token<'a>, ScanError>)
        ensures
            final(self).source() == old(self).source(),
            match step(old(self).source(), old(self).cursor()) {
                Step::End => r is Err && r->Err_0@ == ScanFault::EndOfInput && final(self).cursor()
                    == old(self).cursor(),
                Step::Fault(f) => r is Err && r->Err_0@ == f && final(self).cursor() == old(
                    self,
                ).cursor(),
                Step::Token { kind, end, next } => {
                    &&& r is Ok
                    &&& r->Ok_0.kind == kind
                    &&& r->Ok_0.value@ == old(self).source().subrange(old(self).cursor().off, end)
                    &&& shaped(kind, r->Ok_0.value@)
                    &&& final(self).cursor() == next
                },
            },
    {
        proof {
            use_type_invariant(&*self);
        }
        let n = self.chars.len();
        let off = self.off;
        if off >= n {
            return Err(ScanError::EndOfInput);
        }
        let c = self.chars[off];
        let kind: Kind;
        let end: usize;
        let mut pos = self.position;
        let mut depth = self.depth;
        if c == '(' || c == '[' || c == '{' {
            if depth == 0 {
                return Err(ScanError::RecursionLimit);
            }
            depth = depth - 1;
            kind = Kind::Punctuator;
            end = off + 1;
            pos.advance(1);
        } else if c == ')' || c == ']' || c == '}' {
            depth = depth.saturating_add(1);
            kind = Kind::Punctuator;
            end = off + 1;
            pos.advance(1);
        } else if punct_char(c) {
            kind = Kind::Punctuator;
            end = off + 1;
            pos.advance(1);
        } else if c == '.' {
            if n - off >= 3 && self.chars[off + 1] == '.' && self.chars[off + 2] == '.' {
                kind = Kind::Punctuator;
                end = off + 3;
                pos.advance(3);
            } else {
                return Err(ScanError::BareDot);
            }
        } else if name_start_char(c) {
            kind = Kind::Name;
            end = scan_name(self.chars.as_slice(), off + 1);
            pos.advance(end - off);
        } else if c == '-' || ('0' <= c && c <= '9') {
            let (e, dot, exponent) = scan_number(self.chars.as_slice(), off);
            end = e;
            if dot.is_some() || exponent.is_some() {
                if !float_in(self.chars.as_slice(), off, end, exponent, dot) {
                    return Err(ScanError::BadFloat(string_of(self.chars.as_slice(), off, end)));
                }
                kind = Kind::FloatValue;
            } else {
                if !int_in(self.chars.as_slice(), off, end) {
                    return Err(ScanError::BadInt(string_of(self.chars.as_slice(), off, end)));
                }
                kind = Kind::IntValue;
            }
            pos.advance(end - off);
        } else if c == '"' {
            if quotes_here(self.chars.as_slice(), off) {
                match scan_block(self.chars.as_slice(), off + 3) {
                    Some(close) => {
                        kind = Kind::BlockString;
                        end = close + 3;
                        walk_over(self.chars.as_slice(), off, end, &mut pos);
                    },
                    None => {
                        return Err(ScanError::UnterminatedBlockString);
                    },
                }
            } else {
                let stop = scan_string(self.chars.as_slice(), off + 1);
                if stop < n && self.chars[stop] == '"' {
                    kind = Kind::StringValue;
                    end = stop + 1;
                    pos.advance(end - off);
                } else {
                    return Err(ScanError::UnterminatedString);
                }
            }
        } else {
            return Err(ScanError::UnexpectedChar(c));
        }
        let value = self.buf.substring_char(off, end);
        let next = skip_whitespace(self.chars.as_slice(), end, &mut pos);
        self.off = next;
        self.position = pos;
        self.depth = depth;
        Ok(Token { kind, value })
    }
}

} // verus!
