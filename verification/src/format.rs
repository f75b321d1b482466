//! The formatter: a text sink with an indent, and the style that it
//! follows. The printers of the syntax trees are built from its steps.

use vstd::prelude::*;
use vstd::string::*;
use crate::text::{chars_of, spaces, push_spaces, push_chars, push_hex_code, hex_code};
use crate::tokenizer::quotes_at;
use crate::unquote::{lines, is_blank, ranges_lines, line_ranges, line_indent};

verus! {

/// How a document is laid out: the width of one level of indent, and
/// whether each argument stands on a line of its own.
#[derive(Debug, PartialEq, Clone)]
pub struct Style {
    indent: u32,
    multiline_arguments: bool,
}

impl Default for Style {
    /// Two spaces of indent for each level, arguments on one line.
    fn default() -> (style: Style)
        ensures
            style == Style::standard(),
    {
        Style { indent: 2, multiline_arguments: false }
    }
}

impl Style {
    /// The default style: two spaces of indent for each level, arguments
    /// on one line.
    pub closed spec fn standard() -> Style {
        Style { indent: 2, multiline_arguments: false }
    }

    /// What the default style is.
    pub proof fn standard_is(self)
        ensures
            Style::standard().width() == 2,
            !Style::standard().multiline(),
    {
    }

    /// The number of spaces of one level of indent.
    pub closed spec fn width(&self) -> u32 {
        self.indent
    }

    /// Whether each argument stands on a line of its own.
    pub closed spec fn multiline(&self) -> bool {
        self.multiline_arguments
    }

    /// Changes the number of spaces used for one level of indent.
    pub fn indent(&mut self, indent: u32) -> (style: &mut Self)
        ensures
            style.width() == indent,
            style.multiline() == old(self).multiline(),
            *final(self) == *final(style),
    {
        self.indent = indent;
        self
    }

    /// Sets whether each argument stands on a line of its own.
    pub fn multiline_arguments(&mut self, multiline_arguments: bool) -> (style: &mut Self)
        ensures
            style.width() == old(self).width(),
            style.multiline() == multiline_arguments,
            *final(self) == *final(style),
    {
        self.multiline_arguments = multiline_arguments;
        self
    }
}

/// The indent one level below `level`. Indents are counted in 32 bits; one
/// that would be larger is the largest.
pub open spec fn deeper(level: u32, width: u32) -> u32 {
    if level + width > u32::MAX {
        u32::MAX
    } else {
        (level + width) as u32
    }
}

/// A character that a string literal may hold as it is, apart from the
/// line feed: a tab, a carriage return, or a character from the space up
/// to `U+FFFF`.
pub open spec fn is_printable(c: char) -> bool {
    c == '\r' || c == '\t' || ('\u{20}' <= c && c <= '\u{ffff}')
}

/// `s` holds a line feed.
pub open spec fn has_newline(s: Seq<char>) -> bool {
    exists|i: int| 0 <= i < s.len() && s[i] == '\n'
}

/// `s` holds a character that is neither printable nor a line feed.
pub open spec fn has_nonprintable(s: Seq<char>) -> bool {
    exists|i: int| 0 <= i < s.len() && s[i] != '\n' && !is_printable(#[trigger] s[i])
}

/// How a character is written inside a quoted string.
pub open spec fn escape_char(c: char) -> Seq<char> {
    if c == '\r' {
        seq!['\\', 'r']
    } else if c == '\n' {
        seq!['\\', 'n']
    } else if c == '\t' {
        seq!['\\', 't']
    } else if c == '"' {
        seq!['\\', '"']
    } else if c == '\\' {
        seq!['\\', '\\']
    } else if '\u{20}' <= c && c <= '\u{ffff}' {
        seq![c]
    } else {
        seq!['\\', 'u'] + hex_code(c as nat)
    }
}

/// The characters of `s`, each written as inside a quoted string.
pub open spec fn escaped(s: Seq<char>) -> Seq<char>
    decreases s.len(),
{
    if s.len() == 0 {
        Seq::empty()
    } else {
        escaped(s.drop_last()) + escape_char(s.last())
    }
}

/// `s` as a quoted string on one line.
pub open spec fn quoted(s: Seq<char>) -> Seq<char> {
    seq!['"'] + escaped(s) + seq!['"']
}

/// `t[i..]` with a backslash put before each run of three quotes, read
/// from the left and without overlap.
pub open spec fn escape_quotes(t: Seq<char>, i: int) -> Seq<char>
    decreases t.len() - i,
{
    if i < 0 || i >= t.len() {
        Seq::empty()
    } else if quotes_at(t, i) {
        seq!['\\', '"', '"', '"'] + escape_quotes(t, i + 3)
    } else {
        seq![t[i]] + escape_quotes(t, i + 1)
    }
}

/// One line of a block string as it is written: indented and with its
/// triple quotes escaped, or empty if it is blank; then a line feed.
pub open spec fn block_row(line: Seq<char>, inner: u32) -> Seq<char> {
    if is_blank(line) {
        seq!['\n']
    } else {
        spaces(inner as nat) + escape_quotes(line, 0) + seq!['\n']
    }
}

/// The first `n` lines of a block string as they are written.
pub open spec fn block_rows(ls: Seq<Seq<char>>, inner: u32, n: int) -> Seq<char>
    decreases n,
{
    if n <= 0 || n > ls.len() {
        Seq::empty()
    } else {
        block_rows(ls, inner, n - 1) + block_row(ls[n - 1], inner)
    }
}

/// `s` as a block string, written at indent `level` with its lines at
/// indent `inner`.
pub open spec fn block_quoted(s: Seq<char>, level: u32, inner: u32) -> Seq<char> {
    seq!['"', '"', '"', '\n'] + block_rows(lines(s), inner, lines(s).len() as int) + spaces(
        level as nat,
    ) + seq!['"', '"', '"']
}

/// `s` as a string literal: a block string if `s` holds a line feed and
/// nothing unprintable, a quoted string on one line otherwise.
pub open spec fn string_literal(s: Seq<char>, level: u32, width: u32) -> Seq<char> {
    if has_newline(s) && !has_nonprintable(s) {
        block_quoted(s, level, deeper(level, width))
    } else {
        quoted(s)
    }
}

/// A text sink that knows its indent.
#[derive(Debug, PartialEq)]
pub struct Formatter<'a> {
    buf: String,
    style: &'a Style,
    indent: u32,
    above: Vec<u32>,
}

impl<'a> Formatter<'a> {
    /// The text written so far.
    pub closed spec fn text(&self) -> Seq<char> {
        self.buf@
    }

    /// The indent, in spaces.
    pub closed spec fn level(&self) -> u32 {
        self.indent
    }

    /// The style that the formatter follows.
    pub closed spec fn style(&self) -> Style {
        *self.style
    }

    /// The indents of the levels above the one at which the formatter
    /// stands, from the outermost on.
    pub closed spec fn outer(&self) -> Seq<u32> {
        self.above@
    }

    /// The indent one level up: that of the level from which the formatter
    /// went down, and where there is none, the indent less the width.
    pub open spec fn upper(&self) -> u32 {
        if self.outer().len() > 0 {
            self.outer().last()
        } else {
            (self.level() - self.style().width()) as u32
        }
    }

    /// Each level is one level below the level above it, and the outermost
    /// has no indent. This holds of a new formatter, and each method keeps
    /// it.
    pub open spec fn linked(&self) -> bool {
        &&& self.outer().len() == 0 ==> self.level() == 0
        &&& self.outer().len() > 0 ==> self.outer()[0] == 0
        &&& forall|i: int|
            0 <= i < self.outer().len() ==> deeper(
                #[trigger] self.outer()[i],
                self.style().width(),
            ) == (if i + 1 < self.outer().len() {
                self.outer()[i + 1]
            } else {
                self.level()
            })
    }

    /// One level up the indent is less by the width, unless it is the
    /// largest.
    pub proof fn upper_of_linked(&self)
        requires
            self.linked(),
            self.level() >= self.style().width(),
            self.level() < u32::MAX,
        ensures
            self.upper() == self.level() - self.style().width(),
    {
        if self.outer().len() > 0 {
            let i = self.outer().len() - 1;
            assert(deeper(self.outer()[i], self.style().width()) == self.level());
        }
    }

    /// Going down and going up keep the levels linked.
    pub proof fn linked_stays(&self, f: &Self, t: Seq<char>)
        requires
            f.linked(),
            self.went_down(f, t) || (self.went_up(f, t) && f.level() >= f.style().width()),
        ensures
            self.linked(),
    {
        if self.went_down(f, t) {
            assert forall|i: int| 0 <= i < self.outer().len() implies deeper(
                #[trigger] self.outer()[i],
                self.style().width(),
            ) == (if i + 1 < self.outer().len() {
                self.outer()[i + 1]
            } else {
                self.level()
            }) by {
                if i < f.outer().len() {
                    assert(self.outer()[i] == f.outer()[i]);
                }
            }
        } else {
            if f.outer().len() > 0 {
                assert forall|i: int| 0 <= i < self.outer().len() implies deeper(
                    #[trigger] self.outer()[i],
                    self.style().width(),
                ) == (if i + 1 < self.outer().len() {
                    self.outer()[i + 1]
                } else {
                    self.level()
                }) by {
                    assert(self.outer()[i] == f.outer()[i]);
                }
            }
        }
    }

    /// The formatter `f` after it has written `t`, with indent `level`, at
    /// the level of `f`.
    pub open spec fn wrote(&self, f: &Self, t: Seq<char>, level: u32) -> bool {
        &&& self.text() == f.text() + t
        &&& self.level() == level
        &&& self.style() == f.style()
        &&& self.outer() == f.outer()
    }

    /// The formatter `f` after it has written `t` and gone one level down.
    pub open spec fn went_down(&self, f: &Self, t: Seq<char>) -> bool {
        &&& self.text() == f.text() + t
        &&& self.level() == deeper(f.level(), f.style().width())
        &&& self.style() == f.style()
        &&& self.outer() == f.outer().push(f.level())
    }

    /// The formatter `f` after it has gone one level up and written `t`.
    pub open spec fn went_up(&self, f: &Self, t: Seq<char>) -> bool {
        &&& self.text() == f.text() + t
        &&& self.level() == f.upper()
        &&& self.style() == f.style()
        &&& self.outer() == if f.outer().len() > 0 {
            f.outer().drop_last()
        } else {
            f.outer()
        }
    }

    /// A formatter with nothing written and no indent.
    pub fn new(style: &'a Style) -> (f: Formatter<'a>)
        ensures
            f.text() == Seq::<char>::empty(),
            f.level() == 0,
            f.style() == *style,
            f.outer() == Seq::<u32>::empty(),
            f.linked(),
    {
        Formatter { buf: String::new(), style, indent: 0, above: Vec::new() }
    }

    /// Writes the indent.
    pub fn indent(&mut self)
        ensures
            final(self).wrote(old(self), spaces(old(self).level() as nat), old(self).level()),
    {
        push_spaces(&mut self.buf, self.indent);
    }

    /// Ends the line.
    pub fn endline(&mut self)
        ensures
            final(self).wrote(old(self), seq!['\n'], old(self).level()),
    {
        self.buf.push('\n');
        assert(old(self).buf@.push('\n') =~= old(self).buf@ + seq!['\n']);
    }

    /// Opens a list of arguments with `open_char`. In a style with one
    /// argument to a line the arguments are one level deeper.
    pub fn start_argument_block(&mut self, open_char: char)
        ensures
            old(self).style().multiline() ==> final(self).went_down(old(self), seq![open_char]),
            !old(self).style().multiline() ==> final(self).wrote(
                old(self),
                seq![open_char],
                old(self).level(),
            ),
    {
        self.buf.push(open_char);
        assert(old(self).buf@.push(open_char) =~= old(self).buf@ + seq![open_char]);
        if self.style.multiline_arguments {
            self.inc_indent();
        }
    }

    /// Closes a list of arguments with `close_char`. In a style with one
    /// argument to a line it stands on a line of its own, one level up;
    /// the formatter must stand at least one level deep there.
    pub fn end_argument_block(&mut self, close_char: char)
        requires
            old(self).style().multiline() ==> old(self).level() >= old(self).style().width(),
        ensures
            old(self).style().multiline() ==> final(self).went_up(
                old(self),
                end_of_arguments(old(self).style(), old(self).upper(), close_char),
            ),
            !old(self).style().multiline() ==> final(self).wrote(
                old(self),
                end_of_arguments(old(self).style(), old(self).level(), close_char),
                old(self).level(),
            ),
    {
        if self.style.multiline_arguments {
            self.endline();
            self.dec_indent();
            self.indent();
            self.buf.push(close_char);
            assert(self.buf@ =~= old(self).buf@ + (seq!['\n'] + spaces(self.indent as nat) + seq![
                close_char,
            ]));
        } else {
            self.buf.push(close_char);
            assert(old(self).buf@.push(close_char) =~= old(self).buf@ + seq![close_char]);
        }
    }

    /// Begins an argument: on a line of its own in a style with one
    /// argument to a line, right where the formatter stands otherwise.
    pub fn start_argument(&mut self)
        ensures
            final(self).wrote(
                old(self),
                start_of_argument(old(self).style(), old(self).level()),
                old(self).level(),
            ),
    {
        if self.style.multiline_arguments {
            self.endline();
            self.indent();
            assert(self.buf@ =~= old(self).buf@ + (seq!['\n'] + spaces(self.indent as nat)));
        } else {
            assert(self.buf@ =~= old(self).buf@ + Seq::<char>::empty());
        }
    }

    /// Parts two arguments: with a comma, and with a space after it
    /// unless each argument stands on a line of its own.
    pub fn deliniate_argument(&mut self)
        ensures
            final(self).wrote(old(self), argument_break(old(self).style()), old(self).level()),
    {
        self.buf.push(',');
        if !self.style.multiline_arguments {
            self.buf.push(' ');
            assert(self.buf@ =~= old(self).buf@ + seq![',', ' ']);
        } else {
            assert(self.buf@ =~= old(self).buf@ + seq![',']);
        }
    }

    /// Opens a block: a brace, the end of the line, and one level down.
    pub fn start_block(&mut self)
        ensures
            final(self).went_down(old(self), seq!['{', '\n']),
    {
        self.buf.push('{');
        self.endline();
        self.inc_indent();
        assert(self.buf@ =~= old(self).buf@ + seq!['{', '\n']);
    }

    /// Closes a block: one level up, and there the indent, a brace and the
    /// end of the line. The formatter must stand at least one level deep.
    pub fn end_block(&mut self)
        requires
            old(self).level() >= old(self).style().width(),
        ensures
            final(self).went_up(old(self), end_of_block(old(self).upper())),
    {
        self.dec_indent();
        self.indent();
        self.buf.push('}');
        self.endline();
        assert(self.buf@ =~= old(self).buf@ + (spaces(self.indent as nat) + seq!['}', '\n']));
    }

    /// Leaves a line empty, unless nothing is written yet.
    pub fn margin(&mut self)
        ensures
            final(self).wrote(old(self), margin_of(old(self).text()), old(self).level()),
    {
        if !self.buf.as_str().is_empty() {
            self.buf.push('\n');
            assert(self.buf@ =~= old(self).buf@ + seq!['\n']);
        } else {
            assert(self.buf@ =~= old(self).buf@ + Seq::<char>::empty());
        }
    }

    /// Writes `s` as it is.
    pub fn write(&mut self, s: &str)
        ensures
            final(self).wrote(old(self), s@, old(self).level()),
    {
        self.buf.append(s);
    }

    /// Writes one character.
    pub fn write_char(&mut self, c: char)
        ensures
            final(self).wrote(old(self), seq![c], old(self).level()),
    {
        self.buf.push(c);
        assert(self.buf@ =~= old(self).buf@ + seq![c]);
    }

    /// The text written.
    pub fn into_string(self) -> (s: String)
        ensures
            s@ == self.text(),
    {
        self.buf
    }

    /// Writes `s` as a string literal: as a block string if `s` holds a
    /// line feed and nothing unprintable, as a quoted string on one line
    /// otherwise.
    pub fn write_quoted(&mut self, s: &str)
        ensures
            final(self).wrote(
                old(self),
                string_literal(s@, old(self).level(), old(self).style().width()),
                old(self).level(),
            ),
    {
        let chars = chars_of(s);
        let t = chars.as_slice();
        let n = t.len();
        let mut newline = false;
        let mut nonprintable = false;
        let mut i: usize = 0;
        while i < n
            invariant
                i <= n,
                n == t@.len(),
                newline <==> exists|j: int| 0 <= j < i && t@[j] == '\n',
                nonprintable <==> exists|j: int|
                    0 <= j < i && t@[j] != '\n' && !is_printable(#[trigger] t@[j]),
            decreases n - i,
        {
            let c = t[i];
            if c == '\n' {
                newline = true;
            } else if !(c == '\r' || c == '\t' || ('\u{20}' <= c && c <= '\u{ffff}')) {
                nonprintable = true;
            }
            i += 1;
        }
        if !newline || nonprintable {
            write_quoted_line(&mut self.buf, t);
        } else {
            let inner = below(self.indent, self.style.indent);
            write_quoted_block(&mut self.buf, t, self.indent, inner);
        }
    }

    /// Goes one level down.
    pub fn inc_indent(&mut self)
        ensures
            final(self).went_down(old(self), Seq::empty()),
    {
        let inner = below(self.indent, self.style.indent);
        self.above.push(self.indent);
        self.indent = inner;
        assert(self.buf@ =~= old(self).buf@ + Seq::<char>::empty());
    }

    /// Goes one level up. The formatter must stand at least one level
    /// deep.
    pub fn dec_indent(&mut self)
        requires
            old(self).level() >= old(self).style().width(),
        ensures
            final(self).went_up(old(self), Seq::empty()),
    {
        match self.above.pop() {
            Some(level) => {
                self.indent = level;
                assert(self.above@ =~= old(self).above@.drop_last());
            },
            None => {
                self.indent = self.indent - self.style.indent;
            },
        }
        assert(self.buf@ =~= old(self).buf@ + Seq::<char>::empty());
    }
}

/// The indent one level below `level`.
fn below(level: u32, width: u32) -> (inner: u32)
    ensures
        inner == deeper(level, width),
{
    if width > u32::MAX - level {
        u32::MAX
    } else {
        level + width
    }
}

/// What closes a list of arguments that stands at indent `level`.
pub open spec fn end_of_arguments(style: Style, level: u32, close_char: char) -> Seq<char> {
    if style.multiline() {
        seq!['\n'] + spaces(level as nat) + seq![close_char]
    } else {
        seq![close_char]
    }
}

/// What stands before an argument at indent `level`.
pub open spec fn start_of_argument(style: Style, level: u32) -> Seq<char> {
    if style.multiline() {
        seq!['\n'] + spaces(level as nat)
    } else {
        Seq::empty()
    }
}

/// What stands between two arguments.
pub open spec fn argument_break(style: Style) -> Seq<char> {
    if style.multiline() {
        seq![',']
    } else {
        seq![',', ' ']
    }
}

/// The closing line of a block whose brace stands at indent `level`.
pub open spec fn end_of_block(level: u32) -> Seq<char> {
    spaces(level as nat) + seq!['}', '\n']
}

/// The empty line that stands before a definition, unless it is the first
/// thing written.
pub open spec fn margin_of(written: Seq<char>) -> Seq<char> {
    if written.len() == 0 {
        Seq::empty()
    } else {
        seq!['\n']
    }
}

/// Appends how `c` is written inside a quoted string.
fn push_escaped(buf: &mut String, c: char)
    ensures
        final(buf)@ == old(buf)@ + escape_char(c),
{
    if c == '\r' {
        buf.push('\\');
        buf.push('r');
        assert(buf@ =~= old(buf)@ + seq!['\\', 'r']);
    } else if c == '\n' {
        buf.push('\\');
        buf.push('n');
        assert(buf@ =~= old(buf)@ + seq!['\\', 'n']);
    } else if c == '\t' {
        buf.push('\\');
        buf.push('t');
        assert(buf@ =~= old(buf)@ + seq!['\\', 't']);
    } else if c == '"' {
        buf.push('\\');
        buf.push('"');
        assert(buf@ =~= old(buf)@ + seq!['\\', '"']);
    } else if c == '\\' {
        buf.push('\\');
        buf.push('\\');
        assert(buf@ =~= old(buf)@ + seq!['\\', '\\']);
    } else if '\u{20}' <= c && c <= '\u{ffff}' {
        buf.push(c);
        assert(buf@ =~= old(buf)@ + seq![c]);
    } else {
        buf.push('\\');
        buf.push('u');
        push_hex_code(buf, c as u32);
        assert(buf@ =~= old(buf)@ + (seq!['\\', 'u'] + hex_code(c as nat)));
    }
}

/// Appends `t` as a quoted string on one line.
pub fn write_quoted_line(buf: &mut String, t: &[char])
    ensures
        final(buf)@ == old(buf)@ + quoted(t@),
{
    buf.push('"');
    let n = t.len();
    let mut i: usize = 0;
    assert(t@.take(0) =~= Seq::<char>::empty());
    assert(buf@ =~= old(buf)@ + seq!['"'] + escaped(t@.take(0)));
    while i < n
        invariant
            i <= n,
            n == t@.len(),
            buf@ == old(buf)@ + seq!['"'] + escaped(t@.take(i as int)),
        decreases n - i,
    {
        proof {
            assert(t@.take(i + 1).drop_last() =~= t@.take(i as int));
            assert(old(buf)@ + seq!['"'] + escaped(t@.take(i as int)) + escape_char(t@[i as int])
                =~= old(buf)@ + seq!['"'] + escaped(t@.take(i + 1)));
        }
        push_escaped(buf, t[i]);
        i += 1;
    }
    buf.push('"');
    assert(t@.take(n as int) =~= t@);
    assert(buf@ =~= old(buf)@ + quoted(t@));
}

/// Appends `t[from..to]` to `buf`, with a backslash put before each run
/// of three quotes.
fn push_quotes_escaped(buf: &mut String, t: &[char], from: usize, to: usize)
    requires
        from <= to <= t@.len(),
    ensures
        final(buf)@ == old(buf)@ + escape_quotes(t@.subrange(from as int, to as int), 0),
{
    let ghost line = t@.subrange(from as int, to as int);
    let mut j: usize = from;
    assert(old(buf)@ + Seq::<char>::empty() =~= old(buf)@);
    let ghost mut done = Seq::<char>::empty();
    while j < to
        invariant
            from <= j <= to <= t@.len(),
            line == t@.subrange(from as int, to as int),
            buf@ == old(buf)@ + done,
            escape_quotes(line, 0) == done + escape_quotes(line, j - from),
        decreases to - j,
    {
        let c = t[j];
        assert(line[j - from] == c);
        if c == '"' && to - j >= 3 && t[j + 1] == '"' && t[j + 2] == '"' {
            proof {
                assert(line[j - from + 1] == t@[j + 1]);
                assert(line[j - from + 2] == t@[j + 2]);
                assert(quotes_at(line, j - from));
                let rest = escape_quotes(line, j - from + 3);
                assert(done + (seq!['\\', '"', '"', '"'] + rest) =~= done.push('\\').push(
                    '"',
                ).push('"').push('"') + rest);
                assert(old(buf)@ + done.push('\\').push('"').push('"').push('"') =~= (old(buf)@
                    + done).push('\\').push('"').push('"').push('"'));
                done = done.push('\\').push('"').push('"').push('"');
            }
            buf.push('\\');
            buf.push('"');
            buf.push('"');
            buf.push('"');
            j += 3;
        } else {
            proof {
                if to - j >= 3 {
                    assert(line[j - from + 1] == t@[j + 1]);
                    assert(line[j - from + 2] == t@[j + 2]);
                }
                assert(!quotes_at(line, j - from));
                let rest = escape_quotes(line, j - from + 1);
                assert(done + (seq![c] + rest) =~= done.push(c) + rest);
                assert(old(buf)@ + done.push(c) =~= (old(buf)@ + done).push(c));
                done = done.push(c);
            }
            buf.push(c);
            j += 1;
        }
    }
    assert(done + Seq::<char>::empty() =~= done);
}

/// Appends `t` as a block string that is written at indent `level`, with
/// its lines at indent `inner`.
pub fn write_quoted_block(buf: &mut String, t: &[char], level: u32, inner: u32)
    ensures
        final(buf)@ == old(buf)@ + block_quoted(t@, level, inner),
{
    let rs = line_ranges(t);
    let ghost ls = lines(t@);
    buf.push('"');
    buf.push('"');
    buf.push('"');
    buf.push('\n');
    let ghost head = old(buf)@ + seq!['"', '"', '"', '\n'];
    assert(buf@ =~= head + block_rows(ls, inner, 0));
    let mut k: usize = 0;
    while k < rs.len()
        invariant
            k <= rs@.len(),
            ls == ranges_lines(t@, rs@),
            forall|k: int| 0 <= k < rs@.len() ==> (#[trigger] rs@[k]).0 <= rs@[k].1 <= t@.len(),
            buf@ == head + block_rows(ls, inner, k as int),
        decreases rs@.len() - k,
    {
        let (a, b) = rs[k];
        assert(ls[k as int] == t@.subrange(a as int, b as int));
        let ghost before = buf@;
        if line_indent(t, a, b) < b - a {
            push_spaces(buf, inner);
            push_quotes_escaped(buf, t, a, b);
        }
        buf.push('\n');
        proof {
            assert(buf@ =~= before + block_row(ls[k as int], inner));
            assert(head + block_rows(ls, inner, k as int) + block_row(ls[k as int], inner) =~= head
                + block_rows(ls, inner, k + 1));
        }
        k += 1;
    }
    let ghost body = buf@;
    push_spaces(buf, level);
    buf.push('"');
    buf.push('"');
    buf.push('"');
    assert(buf@ =~= body + spaces(level as nat) + seq!['"', '"', '"']);
    assert(buf@ =~= old(buf)@ + block_quoted(t@, level, inner));
}

} // verus!
