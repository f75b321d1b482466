//! Reading string literals: from the text of a token to the string it
//! stands for.

use vstd::prelude::*;
use crate::text::{chars_of, string_of, is_whitespace, whitespace, push_chars};
use crate::tokenizer::quotes_at;

verus! {

/// `char::from_u32` of the standard library: the character with the given
/// code, for every code up to `0x10FFFF` that is no surrogate (`0xD800` to
/// `0xDFFF`), and `None` for every other number.
pub assume_specification[ char::from_u32 ](i: u32) -> (r: Option<char>)
    ensures
        r == if i <= 0xD7FF || (0xE000 <= i && i <= 0x10FFFF) {
            Some(i as char)
        } else {
            None::<char>
        },
;

/// Why a quoted string could not be read.
#[derive(Debug, PartialEq, Eq, Clone)]
pub enum UnquoteError {
    /// A backslash stands before a character that it cannot escape.
    BadEscape(char),
    /// A backslash is the last character of the string.
    DanglingBackslash,
    /// Fewer than four characters follow `\u`: these.
    ShortCodePoint(String),
    /// The four characters after `\u` are not four hexadecimal digits, or
    /// they are the code of a surrogate.
    BadCodePoint(String),
}

/// The mathematical counterpart of [`UnquoteError`].
pub enum UnquoteFault {
    BadEscape(char),
    DanglingBackslash,
    ShortCodePoint(Seq<char>),
    BadCodePoint(Seq<char>),
}

impl View for UnquoteError {
    type V = UnquoteFault;

    open spec fn view(&self) -> UnquoteFault {
        match self {
            UnquoteError::BadEscape(c) => UnquoteFault::BadEscape(*c),
            UnquoteError::DanglingBackslash => UnquoteFault::DanglingBackslash,
            UnquoteError::ShortCodePoint(t) => UnquoteFault::ShortCodePoint(t@),
            UnquoteError::BadCodePoint(t) => UnquoteFault::BadCodePoint(t@),
        }
    }
}

/// The character that a backslash and `c` stand for, for the escapes of
/// one character.
pub open spec fn simple_escape(c: char) -> Option<char> {
    if c == '"' || c == '\\' || c == '/' {
        Some(c)
    } else if c == 'b' {
        Some('\u{8}')
    } else if c == 'f' {
        Some('\u{c}')
    } else if c == 'n' {
        Some('\n')
    } else if c == 'r' {
        Some('\r')
    } else if c == 't' {
        Some('\t')
    } else {
        None
    }
}

/// The value of a hexadecimal digit.
pub open spec fn hex_digit(c: char) -> Option<int> {
    if '0' <= c && c <= '9' {
        Some(c as int - '0' as int)
    } else if 'a' <= c && c <= 'f' {
        Some(c as int - 'a' as int + 10)
    } else if 'A' <= c && c <= 'F' {
        Some(c as int - 'A' as int + 10)
    } else {
        None
    }
}

/// The number that four hexadecimal digits spell.
pub open spec fn hex4(s: Seq<char>) -> Option<int>
    recommends
        s.len() == 4,
{
    match (hex_digit(s[0]), hex_digit(s[1]), hex_digit(s[2]), hex_digit(s[3])) {
        (Some(a), Some(b), Some(c), Some(d)) => Some(((a * 16 + b) * 16 + c) * 16 + d),
        _ => None,
    }
}

/// The character whose code four hexadecimal digits spell, unless they
/// spell the code of a surrogate.
pub open spec fn code_point(s: Seq<char>) -> Option<char>
    recommends
        s.len() == 4,
{
    match hex4(s) {
        Some(v) => if v < 0xD800 || v > 0xDFFF {
            Some(v as char)
        } else {
            None
        },
        None => None,
    }
}

/// `head` in front of what `rest` holds, or the fault of `rest`.
pub open spec fn after(head: Seq<char>, rest: Result<Seq<char>, UnquoteFault>) -> Result<
    Seq<char>,
    UnquoteFault,
> {
    match rest {
        Ok(r) => Ok(head + r),
        Err(f) => Err(f),
    }
}

/// The string that the characters `s[i..end]` stand for, once each escape
/// is replaced by what it stands for; the first escape that is malformed
/// makes the whole a fault.
pub open spec fn unescape(s: Seq<char>, i: int, end: int) -> Result<Seq<char>, UnquoteFault>
    decreases end - i,
{
    if i < 0 || i >= end {
        Ok(Seq::empty())
    } else if s[i] != '\\' {
        after(seq![s[i]], unescape(s, i + 1, end))
    } else if i + 1 >= end {
        Err(UnquoteFault::DanglingBackslash)
    } else if s[i + 1] == 'u' {
        if i + 6 > end {
            Err(UnquoteFault::ShortCodePoint(s.subrange(i + 2, end)))
        } else {
            match code_point(s.subrange(i + 2, i + 6)) {
                Some(c) => after(seq![c], unescape(s, i + 6, end)),
                None => Err(UnquoteFault::BadCodePoint(s.subrange(i + 2, i + 6))),
            }
        }
    } else {
        match simple_escape(s[i + 1]) {
            Some(c) => after(seq![c], unescape(s, i + 2, end)),
            None => Err(UnquoteFault::BadEscape(s[i + 1])),
        }
    }
}

/// The string that the quoted string `s` stands for: what lies between
/// its first and its last character, with the escapes replaced.
pub open spec fn unquoted(s: Seq<char>) -> Result<Seq<char>, UnquoteFault> {
    unescape(s, 1, s.len() - 1)
}

fn hex_value(c: char) -> (v: Option<u32>)
    ensures
        v is Some <==> hex_digit(c) is Some,
        v is Some ==> v->0 == hex_digit(c)->0 && v->0 < 16,
{
    if '0' <= c && c <= '9' {
        Some(c as u32 - '0' as u32)
    } else if 'a' <= c && c <= 'f' {
        Some(c as u32 - 'a' as u32 + 10)
    } else if 'A' <= c && c <= 'F' {
        Some(c as u32 - 'A' as u32 + 10)
    } else {
        None
    }
}

/// The character whose code `chars[at..at + 4]` spell.
fn read_code_point(chars: &[char], at: usize) -> (r: Option<char>)
    requires
        at + 4 <= chars@.len(),
    ensures
        r == code_point(chars@.subrange(at as int, at + 4)),
{
    let ghost s = chars@.subrange(at as int, at + 4);
    assert(s[0] == chars@[at as int] && s[1] == chars@[at + 1] && s[2] == chars@[at + 2] && s[3]
        == chars@[at + 3]);
    let a = match hex_value(chars[at]) {
        Some(v) => v,
        None => {
            return None;
        },
    };
    let b = match hex_value(chars[at + 1]) {
        Some(v) => v,
        None => {
            return None;
        },
    };
    let c = match hex_value(chars[at + 2]) {
        Some(v) => v,
        None => {
            return None;
        },
    };
    let d = match hex_value(chars[at + 3]) {
        Some(v) => v,
        None => {
            return None;
        },
    };
    let v: u32 = ((a * 16 + b) * 16 + c) * 16 + d;
    char::from_u32(v)
}

fn simple_escape_of(c: char) -> (r: Option<char>)
    ensures
        r == simple_escape(c),
{
    if c == '"' || c == '\\' || c == '/' {
        Some(c)
    } else if c == 'b' {
        Some('\u{8}')
    } else if c == 'f' {
        Some('\u{c}')
    } else if c == 'n' {
        Some('\n')
    } else if c == 'r' {
        Some('\r')
    } else if c == 't' {
        Some('\t')
    } else {
        None
    }
}

proof fn after_push(done: Seq<char>, c: char, rest: Result<Seq<char>, UnquoteFault>)
    ensures
        after(done, after(seq![c], rest)) == after(done.push(c), rest),
{
    match rest {
        Ok(r) => {
            assert(done + (seq![c] + r) =~= done.push(c) + r);
        },
        Err(_) => {},
    }
}

/// Reads the quoted string `s`, the text of a string token with its
/// quotes: gives the string between the quotes with each escape replaced
/// by the character it stands for.
pub fn unquote_string(s: &str) -> (r: Result<String, UnquoteError>)
    requires
        s@.len() >= 2,
        s@[0] == '"',
        s@.last() == '"',
    ensures
        match unquoted(s@) {
            Ok(t) => r is Ok && r->Ok_0@ == t,
            Err(f) => r is Err && r->Err_0@ == f,
        },
{
    let chars = chars_of(s);
    let end = chars.len() - 1;
    let mut res = String::new();
    let mut i: usize = 1;
    assert(Seq::<char>::empty() + unescape(chars@, 1, end as int)->Ok_0 =~= unescape(
        chars@,
        1,
        end as int,
    )->Ok_0);
    while i < end
        invariant
            1 <= i <= end,
            end == chars@.len() - 1,
            chars@ == s@,
            unescape(chars@, 1, end as int) == after(res@, unescape(chars@, i as int, end as int)),
        decreases end - i,
    {
        let c = chars[i];
        if c != '\\' {
            proof {
                after_push(res@, c, unescape(chars@, i + 1, end as int));
            }
            res.push(c);
            i += 1;
        } else if i + 1 >= end {
            return Err(UnquoteError::DanglingBackslash);
        } else {
            let e = chars[i + 1];
            if e == 'u' {
                if end - i < 6 {
                    return Err(
                        UnquoteError::ShortCodePoint(string_of(chars.as_slice(), i + 2, end)),
                    );
                }
                match read_code_point(chars.as_slice(), i + 2) {
                    Some(c) => {
                        proof {
                            after_push(res@, c, unescape(chars@, i + 6, end as int));
                        }
                        res.push(c);
                        i += 6;
                    },
                    None => {
                        return Err(
                            UnquoteError::BadCodePoint(string_of(chars.as_slice(), i + 2, i + 6)),
                        );
                    },
                }
            } else {
                match simple_escape_of(e) {
                    Some(c) => {
                        proof {
                            after_push(res@, c, unescape(chars@, i + 2, end as int));
                        }
                        res.push(c);
                        i += 2;
                    },
                    None => {
                        return Err(UnquoteError::BadEscape(e));
                    },
                }
            }
        }
    }
    assert(res@ + Seq::<char>::empty() =~= res@);
    Ok(res)
}

/// `line` without the carriage return at its end, if it has one.
pub open spec fn strip_cr(line: Seq<char>) -> Seq<char> {
    if line.len() > 0 && line.last() == '\r' {
        line.drop_last()
    } else {
        line
    }
}

/// The lines of `t[start..end]`, of which `t[start..i]` is known to hold
/// no line feed. See [`lines`].
pub open spec fn split_lines(t: Seq<char>, i: int, start: int, end: int) -> Seq<Seq<char>>
    decreases end - i,
{
    if i >= end {
        if start < end {
            seq![t.subrange(start, end)]
        } else {
            Seq::empty()
        }
    } else if t[i] == '\n' {
        seq![strip_cr(t.subrange(start, i))] + split_lines(t, i + 1, i + 1, end)
    } else {
        split_lines(t, i + 1, start, end)
    }
}

/// The lines of `t`. A line ends at a line feed, which is no part of it,
/// nor is a carriage return right before that line feed. What follows the
/// last line feed is a line if it is not empty, and keeps a carriage
/// return at its end.
pub open spec fn lines(t: Seq<char>) -> Seq<Seq<char>> {
    split_lines(t, 0, 0, t.len() as int)
}

/// The index of the first character of `line` at or after `i` that is no
/// white space, or the length of `line`.
pub open spec fn leading_space(line: Seq<char>, i: int) -> int
    decreases line.len() - i,
{
    if 0 <= i < line.len() && is_whitespace(line[i]) {
        leading_space(line, i + 1)
    } else {
        i
    }
}

/// The number of white-space characters at the start of `line`.
pub open spec fn indent_of(line: Seq<char>) -> int {
    leading_space(line, 0)
}

/// `line` holds nothing but white space.
pub open spec fn is_blank(line: Seq<char>) -> bool {
    indent_of(line) >= line.len()
}

/// The smallest indent among the lines `ls[1..n]` that are not blank.
pub open spec fn min_indent(ls: Seq<Seq<char>>, n: int) -> Option<int>
    decreases n,
{
    if n <= 1 || n > ls.len() {
        None
    } else if is_blank(ls[n - 1]) {
        min_indent(ls, n - 1)
    } else {
        match min_indent(ls, n - 1) {
            Some(m) => Some(
                if indent_of(ls[n - 1]) < m {
                    indent_of(ls[n - 1])
                } else {
                    m
                },
            ),
            None => Some(indent_of(ls[n - 1])),
        }
    }
}

/// The index of the first line at or after `i` that is not blank.
pub open spec fn first_text_line(ls: Seq<Seq<char>>, i: int) -> Option<int>
    decreases ls.len() - i,
{
    if i < 0 || i >= ls.len() {
        None
    } else if !is_blank(ls[i]) {
        Some(i)
    } else {
        first_text_line(ls, i + 1)
    }
}

/// The index of the last line among `ls[0..n]` that is not blank.
pub open spec fn last_text_line(ls: Seq<Seq<char>>, n: int) -> Option<int>
    decreases n,
{
    if n <= 0 || n > ls.len() {
        None
    } else if !is_blank(ls[n - 1]) {
        Some(n - 1)
    } else {
        last_text_line(ls, n - 1)
    }
}

/// `line` without its first `n` characters; empty if it has no more than
/// `n`.
pub open spec fn strip_indent(line: Seq<char>, n: int) -> Seq<char> {
    if n >= line.len() {
        Seq::empty()
    } else if n <= 0 {
        line
    } else {
        line.skip(n)
    }
}

/// `t[i..]` with each backslash that stands before three quotes left out,
/// read from the left and without overlap.
pub open spec fn unescape_quotes(t: Seq<char>, i: int) -> Seq<char>
    decreases t.len() - i,
{
    if i < 0 || i >= t.len() {
        Seq::empty()
    } else if t[i] == '\\' && quotes_at(t, i + 1) {
        seq!['"', '"', '"'] + unescape_quotes(t, i + 4)
    } else {
        seq![t[i]] + unescape_quotes(t, i + 1)
    }
}

/// Line `i` of a block string as it enters the value: without the common
/// indent, unless it is the first line, and with escaped quotes restored.
pub open spec fn block_line(ls: Seq<Seq<char>>, common: Option<int>, i: int) -> Seq<char> {
    if i == 0 || common is None {
        unescape_quotes(ls[i], 0)
    } else {
        unescape_quotes(strip_indent(ls[i], common->0), 0)
    }
}

/// The lines `from..to` of a block string as they enter the value, with a
/// line feed between each two.
pub open spec fn joined(ls: Seq<Seq<char>>, common: Option<int>, from: int, to: int) -> Seq<char>
    decreases to - from,
{
    if to <= from {
        Seq::empty()
    } else if to == from + 1 {
        block_line(ls, common, from)
    } else {
        joined(ls, common, from, to - 1) + seq!['\n'] + block_line(ls, common, to - 1)
    }
}

/// The value of a block string with the given body, the text between its
/// triple quotes: the lines from the first to the last that is not blank,
/// each but the body's first without the indent that all lines but the
/// first share, joined by line feeds.
pub open spec fn block_value(body: Seq<char>) -> Seq<char> {
    let ls = lines(body);
    match first_text_line(ls, 0) {
        None => Seq::empty(),
        Some(first) => joined(
            ls,
            min_indent(ls, ls.len() as int),
            first,
            last_text_line(ls, ls.len() as int)->0 + 1,
        ),
    }
}

/// The text of `t` between the offsets that each pair of `rs` holds.
pub open spec fn ranges_lines(t: Seq<char>, rs: Seq<(usize, usize)>) -> Seq<Seq<char>> {
    Seq::new(rs.len(), |k: int| t.subrange(rs[k].0 as int, rs[k].1 as int))
}

/// Where the lines of `t` start and end.
pub(crate) fn line_ranges(t: &[char]) -> (rs: Vec<(usize, usize)>)
    ensures
        ranges_lines(t@, rs@) == lines(t@),
        forall|k: int| 0 <= k < rs@.len() ==> (#[trigger] rs@[k]).0 <= rs@[k].1 <= t@.len(),
{
    let n = t.len();
    let mut rs: Vec<(usize, usize)> = Vec::new();
    let mut i: usize = 0;
    let mut start: usize = 0;
    assert(ranges_lines(t@, rs@) + split_lines(t@, 0, 0, n as int) =~= lines(t@));
    while i < n
        invariant
            n == t@.len(),
            start <= i <= n,
            lines(t@) == ranges_lines(t@, rs@) + split_lines(t@, i as int, start as int, n as int),
            forall|k: int| 0 <= k < rs@.len() ==> (#[trigger] rs@[k]).0 <= rs@[k].1 <= t@.len(),
        decreases n - i,
    {
        if t[i] == '\n' {
            let e = if i > start && t[i - 1] == '\r' {
                (i - 1) as usize
            } else {
                i
            };
            proof {
                let line = t@.subrange(start as int, i as int);
                if i > start {
                    assert(line.last() == t@[i - 1]);
                    assert(line.drop_last() =~= t@.subrange(start as int, i - 1));
                }
                assert(strip_cr(line) == t@.subrange(start as int, e as int));
                assert(ranges_lines(t@, rs@.push((start, e))) =~= ranges_lines(t@, rs@) + seq![
                    strip_cr(line),
                ]);
                assert(ranges_lines(t@, rs@) + (seq![strip_cr(line)] + split_lines(
                    t@,
                    i + 1,
                    i + 1,
                    n as int,
                )) =~= ranges_lines(t@, rs@) + seq![strip_cr(line)] + split_lines(
                    t@,
                    i + 1,
                    i + 1,
                    n as int,
                ));
            }
            rs.push((start, e));
            start = i + 1;
        }
        i += 1;
    }
    if start < n {
        proof {
            assert(ranges_lines(t@, rs@.push((start, n))) =~= ranges_lines(t@, rs@) + seq![
                t@.subrange(start as int, n as int),
            ]);
        }
        rs.push((start, n));
    } else {
        assert(ranges_lines(t@, rs@) + Seq::<Seq<char>>::empty() =~= ranges_lines(t@, rs@));
    }
    rs
}

/// The number of white-space characters at the start of `t[from..to]`.
pub(crate) fn line_indent(t: &[char], from: usize, to: usize) -> (n: usize)
    requires
        from <= to <= t@.len(),
    ensures
        n as int == indent_of(t@.subrange(from as int, to as int)),
        n <= to - from,
{
    let ghost line = t@.subrange(from as int, to as int);
    let mut j: usize = from;
    while j < to && whitespace(t[j])
        invariant
            from <= j <= to <= t@.len(),
            line == t@.subrange(from as int, to as int),
            indent_of(line) == leading_space(line, j - from),
        decreases to - j,
    {
        assert(line[j - from] == t@[j as int]);
        j += 1;
    }
    proof {
        if j < to {
            assert(line[j - from] == t@[j as int]);
        }
    }
    j - from
}

/// Appends `t[from..to]` to `buf`, leaving out each backslash that stands
/// before three quotes.
fn push_unescaped(buf: &mut String, t: &[char], from: usize, to: usize)
    requires
        from <= to <= t@.len(),
    ensures
        final(buf)@ == old(buf)@ + unescape_quotes(t@.subrange(from as int, to as int), 0),
{
    let ghost line = t@.subrange(from as int, to as int);
    let mut j: usize = from;
    assert(old(buf)@ + Seq::<char>::empty() =~= old(buf)@);
    let ghost mut done = Seq::<char>::empty();
    while j < to
        invariant
            from <= j <= to <= t@.len(),
            line == t@.subrange(from as int, to as int),
            buf@ == old(buf)@ + done,
            unescape_quotes(line, 0) == done + unescape_quotes(line, j - from),
        decreases to - j,
    {
        let c = t[j];
        assert(line[j - from] == c);
        if c == '\\' && to - j >= 4 && t[j + 1] == '"' && t[j + 2] == '"' && t[j + 3] == '"' {
            proof {
                assert(line[j - from + 1] == t@[j + 1]);
                assert(line[j - from + 2] == t@[j + 2]);
                assert(line[j - from + 3] == t@[j + 3]);
                assert(quotes_at(line, j - from + 1));
                let rest = unescape_quotes(line, j - from + 4);
                assert(done + (seq!['"', '"', '"'] + rest) =~= done.push('"').push('"').push('"')
                    + rest);
                assert(old(buf)@ + done.push('"').push('"').push('"') =~= (old(buf)@ + done).push(
                    '"',
                ).push('"').push('"'));
                done = done.push('"').push('"').push('"');
            }
            buf.push('"');
            buf.push('"');
            buf.push('"');
            j += 4;
        } else {
            proof {
                if to - j >= 4 {
                    assert(line[j - from + 1] == t@[j + 1]);
                    assert(line[j - from + 2] == t@[j + 2]);
                    assert(line[j - from + 3] == t@[j + 3]);
                }
                assert(!(c == '\\' && quotes_at(line, j - from + 1)));
                let rest = unescape_quotes(line, j - from + 1);
                assert(done + (seq![c] + rest) =~= done.push(c) + rest);
                assert(old(buf)@ + done.push(c) =~= (old(buf)@ + done).push(c));
                done = done.push(c);
            }
            buf.push(c);
            j += 1;
        }
    }
    assert(done + Seq::<char>::empty() =~= done);
}

/// The characters `chars[from..to]` as a vector of their own.
fn copy_chars(chars: &[char], from: usize, to: usize) -> (v: Vec<char>)
    requires
        from <= to <= chars@.len(),
    ensures
        v@ == chars@.subrange(from as int, to as int),
{
    let mut v: Vec<char> = Vec::new();
    let mut i: usize = from;
    while i < to
        invariant
            from <= i <= to <= chars@.len(),
            v@ == chars@.subrange(from as int, i as int),
        decreases to - i,
    {
        v.push(chars[i]);
        i += 1;
        assert(chars@.subrange(from as int, i as int) == chars@.subrange(from as int, i - 1).push(chars@[i - 1]));
    }
    v
}

/// What the lines of a block string say about its layout: the common
/// indent, and the first and the last line that is not blank.
struct Layout {
    common: Option<usize>,
    first: Option<usize>,
    last: usize,
}

fn survey(t: &[char], rs: &Vec<(usize, usize)>) -> (l: Layout)
    requires
        forall|k: int| 0 <= k < rs@.len() ==> (#[trigger] rs@[k]).0 <= rs@[k].1 <= t@.len(),
    ensures
        crate::number::opt_int(l.common) == min_indent(
            ranges_lines(t@, rs@),
            rs@.len() as int,
        ),
        crate::number::opt_int(l.first) == first_text_line(ranges_lines(t@, rs@), 0),
        l.first is Some ==> Some(l.last as int) == last_text_line(
            ranges_lines(t@, rs@),
            rs@.len() as int,
        ) && l.first->0 <= l.last < rs@.len(),
{
    let ghost ls = ranges_lines(t@, rs@);
    let mut common: Option<usize> = None;
    let mut first: Option<usize> = None;
    let mut last: usize = 0;
    let mut k: usize = 0;
    while k < rs.len()
        invariant
            k <= rs@.len(),
            ls == ranges_lines(t@, rs@),
            forall|k: int| 0 <= k < rs@.len() ==> (#[trigger] rs@[k]).0 <= rs@[k].1 <= t@.len(),
            crate::number::opt_int(common) == min_indent(ls, k as int),
            first is None ==> first_text_line(ls, 0) == first_text_line(ls, k as int),
            first is None ==> last_text_line(ls, k as int) is None,
            first is Some ==> first_text_line(ls, 0) == Some(first->0 as int),
            first is Some ==> last_text_line(ls, k as int) == Some(last as int) && first->0 <= last
                < k,
        decreases rs@.len() - k,
    {
        let (a, b) = rs[k];
        assert(ls[k as int] == t@.subrange(a as int, b as int));
        let indent = line_indent(t, a, b);
        if indent < b - a {
            if first.is_none() {
                first = Some(k);
            }
            last = k;
            if k != 0 {
                common = match common {
                    Some(m) => Some(
                        if indent < m {
                            indent
                        } else {
                            m
                        },
                    ),
                    None => Some(indent),
                };
            }
        }
        k += 1;
    }
    Layout { common, first, last }
}

/// Reads the block string `src`, the text of a block-string token with its
/// triple quotes: gives its value, [`block_value`] of what lies between
/// the quotes. It never fails.
pub fn unquote_block_string(src: &str) -> (r: Result<String, UnquoteError>)
    requires
        src@.len() >= 6,
        quotes_at(src@, 0),
        quotes_at(src@, src@.len() - 3),
    ensures
        r is Ok,
        r->Ok_0@ == block_value(src@.subrange(3, src@.len() - 3)),
{
    let chars = chars_of(src);
    let body = copy_chars(chars.as_slice(), 3, chars.len() - 3);
    let t = body.as_slice();
    let rs = line_ranges(t);
    let ghost ls = lines(t@);
    let layout = survey(t, &rs);
    let mut result = String::new();
    let first = match layout.first {
        Some(first) => first,
        None => {
            return Ok(result);
        },
    };
    let last = layout.last;
    let ghost common = crate::number::opt_int(layout.common);
    let mut k: usize = first;
    assert(last < rs.len());
    while k <= last
        invariant
            first <= k <= last + 1,
            last < rs@.len(),
            last < usize::MAX,
            ls == ranges_lines(t@, rs@),
            common == crate::number::opt_int(layout.common),
            forall|k: int| 0 <= k < rs@.len() ==> (#[trigger] rs@[k]).0 <= rs@[k].1 <= t@.len(),
            result@ == joined(ls, common, first as int, k as int),
        decreases last + 1 - k,
    {
        let (a, b) = rs[k];
        assert(ls[k as int] == t@.subrange(a as int, b as int));
        if k > first {
            result.push('\n');
        }
        let from = match layout.common {
            Some(c) => if k == 0 {
                a
            } else if c >= b - a {
                b
            } else {
                a + c
            },
            None => a,
        };
        proof {
            let line = ls[k as int];
            if k != 0 && layout.common is Some {
                let c = layout.common->0 as int;
                if c >= line.len() {
                    assert(t@.subrange(from as int, b as int) =~= Seq::<char>::empty());
                } else if c <= 0 {
                } else {
                    assert(t@.subrange(from as int, b as int) =~= line.skip(c));
                }
                assert(t@.subrange(from as int, b as int) == strip_indent(line, c));
            }
            assert(unescape_quotes(t@.subrange(from as int, b as int), 0) == block_line(
                ls,
                common,
                k as int,
            ));
            if k == first {
                assert(Seq::<char>::empty() + block_line(ls, common, k as int) =~= block_line(
                    ls,
                    common,
                    k as int,
                ));
            } else {
                assert(joined(ls, common, first as int, k as int).push('\n') =~= joined(
                    ls,
                    common,
                    first as int,
                    k as int,
                ) + seq!['\n']);
            }
        }
        push_unescaped(&mut result, t, from, b);
        k += 1;
    }
    Ok(result)
}

} // verus!
