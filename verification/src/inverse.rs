//! Writing a string literal and reading it back.

use vstd::prelude::*;
use crate::format::{
    quoted, escaped, escape_char, escape_quotes, block_quoted, block_rows, block_row,
    string_literal, has_newline, has_nonprintable, deeper,
};
use crate::tokenizer::quotes_at;
use crate::text::{hex_char, hex_code, is_whitespace, spaces};
use crate::unquote::{
    unquoted, unescape, after, UnquoteFault, simple_escape, code_point, hex4, hex_digit, lines,
    split_lines, strip_cr, leading_space, indent_of, is_blank, unescape_quotes, block_value,
    min_indent, first_text_line, last_text_line, strip_indent, block_line, joined,
};

verus! {

/// A character that a quoted string on one line hands back as it was: a
/// character up to `U+FFFF`, whose code four hexadecimal digits spell.
pub open spec fn reads_back(c: char) -> bool {
    c <= '\u{ffff}'
}

/// Every character of `s` is handed back as it was.
pub open spec fn all_read_back(s: Seq<char>) -> bool {
    forall|i: int| 0 <= i < s.len() ==> reads_back(#[trigger] s[i])
}

/// Escaping goes character by character.
pub proof fn escaped_concat(a: Seq<char>, b: Seq<char>)
    ensures
        escaped(a + b) == escaped(a) + escaped(b),
    decreases b.len(),
{
    if b.len() == 0 {
        assert(a + b =~= a);
        assert(escaped(a) + escaped(b) =~= escaped(a));
    } else {
        assert((a + b).drop_last() =~= a + b.drop_last());
        assert((a + b).last() == b.last());
        escaped_concat(a, b.drop_last());
        assert(escaped(a) + escaped(b.drop_last()) + escape_char(b.last()) =~= escaped(a) + (
        escaped(b.drop_last()) + escape_char(b.last())));
    }
}

/// A hexadecimal digit as it is written spells itself.
proof fn hex_char_reads(d: int)
    requires
        0 <= d < 16,
    ensures
        hex_digit(hex_char(d)) == Some(d),
{
}

/// Where the written form of a character that is handed back stands in a
/// text, reading gives the character and goes on behind it.
proof fn read_escape(q: Seq<char>, i: int, end: int, c: char)
    requires
        reads_back(c),
        0 <= i,
        i + escape_char(c).len() <= end <= q.len(),
        q.subrange(i, i + escape_char(c).len()) == escape_char(c),
    ensures
        unescape(q, i, end) == after(seq![c], unescape(q, i + escape_char(c).len(), end)),
{
    let e = escape_char(c);
    let w = q.subrange(i, i + e.len());
    assert(forall|j: int| 0 <= j < e.len() ==> q[i + j] == #[trigger] w[j]);
    if c == '\r' || c == '\n' || c == '\t' || c == '"' || c == '\\' {
        assert(e.len() == 2);
        assert(q[i] == e[0] && q[i + 1] == e[1]);
    } else if '\u{20}' <= c && c <= '\u{ffff}' {
        assert(q[i] == e[0]);
    } else {
        let n = c as nat;
        assert(n < 0x20);
        assert(n / 0x1000 == 0 && n / 0x100 % 16 == 0 && n / 0x10 % 16 == n / 16);
        let hi = hex_char((n / 16) as int);
        let lo = hex_char((n % 16) as int);
        assert(hex_code(n) =~= seq!['0', '0', hi, lo]);
        assert(e =~= seq!['\\', 'u', '0', '0', hi, lo]);
        assert(e.len() == 6);
        assert(q[i] == e[0] && q[i + 1] == e[1] && q[i + 2] == e[2] && q[i + 3] == e[3] && q[i
            + 4] == e[4] && q[i + 5] == e[5]);
        let four = q.subrange(i + 2, i + 6);
        assert(four =~= seq!['0', '0', hi, lo]);
        hex_char_reads((n / 16) as int);
        hex_char_reads((n % 16) as int);
        assert(hex_digit(four[0]) == Some(0int));
        assert(hex_digit(four[1]) == Some(0int));
        assert(hex_digit(four[2]) == Some((n / 16) as int));
        assert(hex_digit(four[3]) == Some((n % 16) as int));
        assert(((0 * 16 + 0) * 16 + (n / 16) as int) * 16 + (n % 16) as int == n as int);
        assert(hex4(four) == Some(n as int));
        assert((n as int) as char == c);
        assert(code_point(four) == Some(c));
    }
}

/// Reading the written form of `s` from where its character `k` stands
/// gives `s` from `k` on.
proof fn read_from(s: Seq<char>, k: int)
    requires
        all_read_back(s),
        0 <= k <= s.len(),
    ensures
        unescape(quoted(s), 1 + escaped(s.take(k)).len() as int, quoted(s).len() - 1) == Ok::<
            Seq<char>,
            UnquoteFault,
        >(s.skip(k)),
    decreases s.len() - k,
{
    let q = quoted(s);
    let end = q.len() - 1;
    let p: int = 1 + escaped(s.take(k)).len() as int;
    escaped_concat(s.take(k), s.skip(k));
    assert(s.take(k) + s.skip(k) =~= s);
    assert(end == 1 + escaped(s).len());
    if k == s.len() {
        assert(s.skip(k) =~= Seq::<char>::empty());
        assert(escaped(s.skip(k)) =~= Seq::<char>::empty());
        assert(p == end);
    } else {
        let c = s[k];
        let e = escape_char(c);
        assert(s.take(k + 1).drop_last() =~= s.take(k));
        assert(escaped(s.take(k + 1)) == escaped(s.take(k)) + e);
        escaped_concat(s.take(k + 1), s.skip(k + 1));
        assert(s.take(k + 1) + s.skip(k + 1) =~= s);
        assert(q =~= seq!['"'] + (escaped(s.take(k)) + e + escaped(s.skip(k + 1))) + seq!['"']);
        assert(q.subrange(p, p + e.len()) =~= e);
        read_escape(q, p, end, c);
        read_from(s, k + 1);
        assert(seq![c] + s.skip(k + 1) =~= s.skip(k));
    }
}

/// A string written as a quoted string on one line and read back is the
/// string itself, where each of its characters is one that is handed back
/// as it was.
pub proof fn unquote_inverts_quote(s: Seq<char>)
    requires
        all_read_back(s),
    ensures
        unquoted(quoted(s)) == Ok::<Seq<char>, UnquoteFault>(s),
{
    read_from(s, 0);
    assert(s.take(0) =~= Seq::<char>::empty());
    assert(s.skip(0) =~= s);
}

/// `t` holds no line feed.
pub open spec fn one_line(t: Seq<char>) -> bool {
    forall|i: int| 0 <= i < t.len() ==> #[trigger] t[i] != '\n'
}

/// `t` does not end with a carriage return.
pub open spec fn no_cr_end(t: Seq<char>) -> bool {
    t.len() == 0 || t.last() != '\r'
}

/// The first `n` of the lines `rows`, each with a line feed behind it.
pub open spec fn glued(rows: Seq<Seq<char>>, n: int) -> Seq<char>
    decreases n,
{
    if n <= 0 || n > rows.len() {
        Seq::empty()
    } else {
        glued(rows, n - 1) + rows[n - 1] + seq!['\n']
    }
}

/// Where no line feed stands between `i` and `j`, the search for the
/// end of a line may start at either.
proof fn split_lines_skip(t: Seq<char>, i: int, j: int, start: int, end: int)
    requires
        0 <= start <= i <= j <= end <= t.len(),
        forall|k: int| i <= k < j ==> #[trigger] t[k] != '\n',
    ensures
        split_lines(t, i, start, end) == split_lines(t, j, start, end),
    decreases j - i,
{
    if i < j {
        split_lines_skip(t, i + 1, j, start, end);
    }
}

/// The lines of a text that is made of lines with a line feed behind
/// each, and of a rest without one, are those lines and the rest.
proof fn lines_from_row(t: Seq<char>, rows: Seq<Seq<char>>, n: int, rest: Seq<char>, k: int)
    requires
        0 <= k <= n <= rows.len(),
        t == glued(rows, n) + rest,
        one_line(rest),
        forall|i: int| 0 <= i < n ==> one_line(#[trigger] rows[i]) && no_cr_end(rows[i]),
    ensures
        glued(rows, k).len() <= t.len(),
        split_lines(t, glued(rows, k).len() as int, glued(rows, k).len() as int, t.len() as int)
            == rows.subrange(k, n) + (if rest.len() > 0 {
            seq![rest]
        } else {
            Seq::<Seq<char>>::empty()
        }),
    decreases n - k,
{
    let o = glued(rows, k).len() as int;
    let end = t.len() as int;
    glued_prefix(rows, k, n);
    if k == n {
        assert(t.subrange(o, end) =~= rest);
        assert forall|j: int| o <= j < end implies #[trigger] t[j] != '\n' by {
            assert(t[j] == rest[j - o]);
        }
        split_lines_skip(t, o, end, o, end);
        assert(rows.subrange(k, n) =~= Seq::<Seq<char>>::empty());
        if rest.len() > 0 {
            assert(rows.subrange(k, n) + seq![rest] =~= seq![rest]);
        }
    } else {
        let row = rows[k];
        let p = o + row.len();
        glued_prefix(rows, k + 1, n);
        assert(glued(rows, k + 1) == glued(rows, k) + row + seq!['\n']);
        assert(t.subrange(0, p + 1) == glued(rows, k + 1));
        assert(t.subrange(o, p) =~= row) by {
            assert forall|j: int| 0 <= j < row.len() implies t.subrange(o, p)[j] == row[j] by {
                assert(t.subrange(0, p + 1)[o + j] == row[j]);
            }
        }
        assert(t[p] == '\n') by {
            assert(t.subrange(0, p + 1)[p] == '\n');
        }
        assert forall|j: int| o <= j < p implies #[trigger] t[j] != '\n' by {
            assert(t[j] == t.subrange(o, p)[j - o]);
        }
        split_lines_skip(t, o, p, o, end);
        assert(strip_cr(row) == row);
        lines_from_row(t, rows, n, rest, k + 1);
        assert(glued(rows, k + 1).len() == p + 1);
        assert(seq![row] + rows.subrange(k + 1, n) =~= rows.subrange(k, n));
        assert(seq![row] + (rows.subrange(k + 1, n) + seq![rest]) =~= rows.subrange(k, n) + seq![
            rest,
        ]);
    }
}

/// The first lines of glued lines are a part of all of them.
proof fn glued_prefix(rows: Seq<Seq<char>>, k: int, n: int)
    requires
        0 <= k <= n <= rows.len(),
    ensures
        glued(rows, k).len() <= glued(rows, n).len(),
        glued(rows, n).subrange(0, glued(rows, k).len() as int) == glued(rows, k),
        forall|rest: Seq<char>| #[trigger]
            (glued(rows, n) + rest).subrange(0, glued(rows, k).len() as int) == glued(rows, k),
    decreases n - k,
{
    if k == n {
        assert(glued(rows, n).subrange(0, glued(rows, k).len() as int) =~= glued(rows, k));
    } else {
        glued_prefix(rows, k, n - 1);
        let a = glued(rows, n - 1);
        let b = a + rows[n - 1] + seq!['\n'];
        assert(b.subrange(0, glued(rows, k).len() as int) =~= a.subrange(
            0,
            glued(rows, k).len() as int,
        ));
    }
    assert forall|rest: Seq<char>| #[trigger]
        (glued(rows, n) + rest).subrange(0, glued(rows, k).len() as int) == glued(rows, k) by {
        assert((glued(rows, n) + rest).subrange(0, glued(rows, k).len() as int) =~= glued(
            rows,
            n,
        ).subrange(0, glued(rows, k).len() as int));
    }
}

/// The lines of a text that is made of lines with a line feed behind
/// each, and of a rest without one, are those lines and the rest.
pub proof fn lines_of_glued(rows: Seq<Seq<char>>, rest: Seq<char>)
    requires
        one_line(rest),
        forall|i: int| 0 <= i < rows.len() ==> one_line(#[trigger] rows[i]) && no_cr_end(rows[i]),
    ensures
        lines(glued(rows, rows.len() as int) + rest) == rows + (if rest.len() > 0 {
            seq![rest]
        } else {
            Seq::<Seq<char>>::empty()
        }),
{
    let n = rows.len() as int;
    lines_from_row(glued(rows, n) + rest, rows, n, rest, 0);
    assert(rows.subrange(0, n) =~= rows);
}

/// Where the white space at the start of a line ends.
pub proof fn leading_space_ends(line: Seq<char>, i: int)
    requires
        0 <= i <= line.len(),
    ensures
        i <= leading_space(line, i) <= line.len(),
        forall|k: int| i <= k < leading_space(line, i) ==> is_whitespace(#[trigger] line[k]),
        leading_space(line, i) < line.len() ==> !is_whitespace(line[leading_space(line, i)]),
    decreases line.len() - i,
{
    if i < line.len() && is_whitespace(line[i]) {
        leading_space_ends(line, i + 1);
    }
}

/// White space before a text that begins with something else is the
/// indent of the whole.
pub proof fn indent_of_concat(w: Seq<char>, y: Seq<char>, i: int)
    requires
        0 <= i <= w.len(),
        forall|k: int| 0 <= k < w.len() ==> is_whitespace(#[trigger] w[k]),
        y.len() > 0,
        !is_whitespace(y[0]),
    ensures
        leading_space(w + y, i) == w.len(),
    decreases w.len() - i,
{
    if i < w.len() {
        assert((w + y)[i] == w[i]);
        indent_of_concat(w, y, i + 1);
    } else {
        assert((w + y)[i] == y[0]);
    }
}

/// White space is written as it is: no quote is white space.
pub proof fn escape_after_space(l: Seq<char>, i: int, j: int)
    requires
        0 <= i <= j <= l.len(),
        forall|k: int| i <= k < j ==> is_whitespace(#[trigger] l[k]),
    ensures
        escape_quotes(l, i) == l.subrange(i, j) + escape_quotes(l, j),
    decreases j - i,
{
    if i < j {
        escape_after_space(l, i + 1, j);
        assert(is_whitespace(l[i]));
        assert(!quotes_at(l, i));
        assert(seq![l[i]] + (l.subrange(i + 1, j) + escape_quotes(l, j)) =~= l.subrange(i, j)
            + escape_quotes(l, j));
    } else {
        assert(l.subrange(i, j) + escape_quotes(l, j) =~= escape_quotes(l, j));
    }
}

/// What is written for a text that begins with no white space begins
/// with none.
pub proof fn escape_head(l: Seq<char>, j: int)
    requires
        0 <= j < l.len(),
        !is_whitespace(l[j]),
    ensures
        escape_quotes(l, j).len() > 0,
        !is_whitespace(escape_quotes(l, j)[0]),
{
}

/// A character that is neither line feed nor carriage return.
pub open spec fn in_line(c: char) -> bool {
    c != '\n' && c != '\r'
}

/// What is written for a line holds no line break.
pub proof fn escape_in_line(l: Seq<char>, i: int)
    requires
        0 <= i <= l.len(),
        forall|k: int| 0 <= k < l.len() ==> in_line(#[trigger] l[k]),
    ensures
        forall|k: int|
            0 <= k < escape_quotes(l, i).len() ==> in_line(#[trigger] escape_quotes(l, i)[k]),
    decreases l.len() - i,
{
    let e = escape_quotes(l, i);
    if i < l.len() {
        if quotes_at(l, i) {
            escape_in_line(l, i + 3);
            let rest = escape_quotes(l, i + 3);
            assert forall|k: int| 0 <= k < e.len() implies in_line(#[trigger] e[k]) by {
                if k >= 4 {
                    assert(e[k] == rest[k - 4]);
                }
            }
        } else {
            escape_in_line(l, i + 1);
            let rest = escape_quotes(l, i + 1);
            assert forall|k: int| 0 <= k < e.len() implies in_line(#[trigger] e[k]) by {
                if k >= 1 {
                    assert(e[k] == rest[k - 1]);
                } else {
                    assert(e[0] == l[i]);
                }
            }
        }
    }
}

/// Reading back what was written for `l` from index `i` on gives `l`
/// from `i` on, wherever it stands in a text `x`.
pub proof fn unescape_of_escape(x: Seq<char>, p: int, l: Seq<char>, i: int)
    requires
        0 <= i <= l.len(),
        0 <= p <= x.len(),
        x.skip(p) == escape_quotes(l, i),
    ensures
        unescape_quotes(x, p) == l.skip(i),
    decreases l.len() - i,
{
    let e = escape_quotes(l, i);
    assert(x.len() - p == e.len());
    assert forall|k: int| 0 <= k < e.len() implies x[p + k] == #[trigger] e[k] by {
        assert(x.skip(p)[k] == x[p + k]);
    }
    if i >= l.len() {
        assert(l.skip(i) =~= Seq::<char>::empty());
    } else if quotes_at(l, i) {
        let rest = escape_quotes(l, i + 3);
        assert(e == seq!['\\', '"', '"', '"'] + rest);
        assert(e[0] == '\\' && e[1] == '"' && e[2] == '"' && e[3] == '"');
        assert(x[p] == '\\' && x[p + 1] == '"' && x[p + 2] == '"' && x[p + 3] == '"');
        assert(quotes_at(x, p + 1));
        assert(x.skip(p + 4) =~= rest) by {
            assert forall|k: int| 0 <= k < rest.len() implies x.skip(p + 4)[k] == rest[k] by {
                assert(e[k + 4] == rest[k]);
                assert(x[p + (k + 4)] == e[k + 4]);
            }
        }
        unescape_of_escape(x, p + 4, l, i + 3);
        assert(seq!['"', '"', '"'] + l.skip(i + 3) =~= l.skip(i));
    } else {
        let rest = escape_quotes(l, i + 1);
        assert(e == seq![l[i]] + rest);
        assert(e[0] == l[i]);
        assert(x[p] == l[i]);
        assert(x.skip(p + 1) =~= rest) by {
            assert forall|k: int| 0 <= k < rest.len() implies x.skip(p + 1)[k] == rest[k] by {
                assert(e[k + 1] == rest[k]);
                assert(x[p + (k + 1)] == e[k + 1]);
            }
        }
        if l[i] == '\\' {
            // what follows a backslash of `l` does not read as three quotes
            assert(!quotes_at(x, p + 1)) by {
                if quotes_at(x, p + 1) {
                    assert(rest.len() >= 3);
                    assert(rest[0] == x[p + 1] && rest[1] == x[p + 2] && rest[2] == x[p + 3]) by {
                        assert(e[1] == rest[0] && e[2] == rest[1] && e[3] == rest[2]);
                    }
                    escape_starts_with_quotes(l, i + 1);
                    assert(quotes_at(rest, 0));
                }
            }
        }
        unescape_of_escape(x, p + 1, l, i + 1);
        assert(seq![l[i]] + l.skip(i + 1) =~= l.skip(i));
    }
}

/// What is written for `l` from `i` on does not begin with three quotes:
/// three quotes of `l` get a backslash before them.
pub proof fn escape_starts_with_quotes(l: Seq<char>, i: int)
    requires
        0 <= i <= l.len(),
    ensures
        !quotes_at(escape_quotes(l, i), 0),
{
    let e0 = escape_quotes(l, i);
    if quotes_at(e0, 0) {
        assert(i < l.len());
        assert(!quotes_at(l, i));
        let e1 = escape_quotes(l, i + 1);
        assert(e0 == seq![l[i]] + e1);
        assert(e0[0] == l[i]);
        assert(e0[1] == e1[0] && e0[2] == e1[1]);
        assert(i + 1 < l.len());
        assert(!quotes_at(l, i + 1)) by {
            if quotes_at(l, i + 1) {
                assert(e1[0] == '\\');
            }
        }
        let e2 = escape_quotes(l, i + 2);
        assert(e1 == seq![l[i + 1]] + e2);
        assert(e1[0] == l[i + 1]);
        assert(e1[1] == e2[0]);
        assert(i + 2 < l.len());
        assert(!quotes_at(l, i + 2)) by {
            if quotes_at(l, i + 2) {
                assert(e2[0] == '\\');
            }
        }
        let e3 = escape_quotes(l, i + 3);
        assert(e2 == seq![l[i + 2]] + e3);
        assert(e2[0] == l[i + 2]);
        assert(quotes_at(l, i));
    }
}

/// Gluing a line before glued lines.
proof fn glued_cons(x: Seq<char>, r: Seq<Seq<char>>, m: int)
    requires
        0 <= m <= r.len(),
    ensures
        glued(seq![x] + r, m + 1) == x + seq!['\n'] + glued(r, m),
    decreases m,
{
    let l = seq![x] + r;
    if m == 0 {
        assert(l[0] == x);
        assert(glued(l, 0) + l[0] + seq!['\n'] =~= x + seq!['\n'] + glued(r, 0));
    } else {
        glued_cons(x, r, m - 1);
        assert(l[m] == r[m - 1]);
        assert(glued(l, m) + l[m] + seq!['\n'] =~= x + seq!['\n'] + (glued(r, m - 1) + r[m - 1]
            + seq!['\n']));
    }
}

/// Of a text without carriage returns that does not end with a line
/// feed: its lines hold no line break, and glued together again, the
/// last without a line feed behind it, they are the text.
proof fn lines_glue(t: Seq<char>, i: int, start: int, end: int)
    requires
        0 <= start <= i <= end <= t.len(),
        start < end,
        t[end - 1] != '\n',
        forall|k: int| start <= k < end ==> #[trigger] t[k] != '\r',
        forall|k: int| start <= k < i ==> #[trigger] t[k] != '\n',
    ensures
        split_lines(t, i, start, end).len() >= 1,
        forall|k: int|
            0 <= k < split_lines(t, i, start, end).len() ==> one_line(
                #[trigger] split_lines(t, i, start, end)[k],
            ) && forall|j: int|
                0 <= j < split_lines(t, i, start, end)[k].len() ==> in_line(
                    #[trigger] split_lines(t, i, start, end)[k][j],
                ),
        glued(split_lines(t, i, start, end), split_lines(t, i, start, end).len() - 1)
            + split_lines(t, i, start, end).last() == t.subrange(start, end),
    decreases end - i,
{
    let ls = split_lines(t, i, start, end);
    if i >= end {
        let line = t.subrange(start, end);
        assert(ls == seq![line]);
        assert(glued(ls, 0) + ls.last() =~= line);
        assert forall|j: int| 0 <= j < line.len() implies in_line(#[trigger] line[j]) by {
            assert(line[j] == t[start + j]);
        }
    } else if t[i] == '\n' {
        let line = t.subrange(start, i);
        assert forall|j: int| 0 <= j < line.len() implies in_line(#[trigger] line[j]) by {
            assert(line[j] == t[start + j]);
        }
        assert(strip_cr(line) == line);
        let r = split_lines(t, i + 1, i + 1, end);
        assert(i + 1 < end);
        lines_glue(t, i + 1, i + 1, end);
        assert(ls == seq![line] + r);
        glued_cons(line, r, r.len() - 1);
        assert(ls.last() == r.last());
        assert(line + seq!['\n'] + glued(r, r.len() - 1) + r.last() =~= line + seq!['\n'] + (glued(
            r,
            r.len() - 1,
        ) + r.last()));
        assert(line + seq!['\n'] + t.subrange(i + 1, end) =~= t.subrange(start, end));
        assert forall|k: int| 0 <= k < ls.len() implies one_line(#[trigger] ls[k]) && forall|
            j: int,
        |
            0 <= j < ls[k].len() ==> in_line(#[trigger] ls[k][j]) by {
            if k > 0 {
                assert(ls[k] == r[k - 1]);
            }
        }
    } else {
        lines_glue(t, i + 1, start, end);
    }
}

/// A line of a block string as it is written, without its line feed.
pub open spec fn row_text(line: Seq<char>, inner: u32) -> Seq<char> {
    if is_blank(line) {
        Seq::empty()
    } else {
        spaces(inner as nat) + escape_quotes(line, 0)
    }
}

/// The lines of the body of a written block string: an empty line, then
/// the lines as they are written.
pub open spec fn body_rows(ls: Seq<Seq<char>>, inner: u32) -> Seq<Seq<char>> {
    Seq::new(
        ls.len() + 1,
        |k: int|
            if k == 0 {
                Seq::empty()
            } else {
                row_text(ls[k - 1], inner)
            },
    )
}

/// The written lines of a block string are its rows, glued.
proof fn rows_are_glued(ls: Seq<Seq<char>>, inner: u32, m: int)
    requires
        0 <= m <= ls.len(),
    ensures
        seq!['\n'] + block_rows(ls, inner, m) == glued(body_rows(ls, inner), m + 1),
    decreases m,
{
    let rows = body_rows(ls, inner);
    if m == 0 {
        assert(rows[0] =~= Seq::<char>::empty());
        assert(glued(rows, 0) + rows[0] + seq!['\n'] =~= seq!['\n'] + block_rows(ls, inner, 0));
    } else {
        rows_are_glued(ls, inner, m - 1);
        assert(rows[m] == row_text(ls[m - 1], inner));
        assert(block_row(ls[m - 1], inner) =~= row_text(ls[m - 1], inner) + seq!['\n']);
        assert(seq!['\n'] + (block_rows(ls, inner, m - 1) + block_row(ls[m - 1], inner)) =~= (
        seq!['\n'] + block_rows(ls, inner, m - 1)) + rows[m] + seq!['\n']);
    }
}

/// Of a written line that is not blank: it is not blank, its indent is
/// the indent of the block and its own, and less the indent of the
/// block it reads back as the line.
proof fn row_reads_back(line: Seq<char>, inner: u32)
    requires
        !is_blank(line),
    ensures
        !is_blank(row_text(line, inner)),
        indent_of(row_text(line, inner)) == inner + indent_of(line),
        unescape_quotes(strip_indent(row_text(line, inner), inner as int), 0) == line,
{
    let j = indent_of(line);
    let e = escape_quotes(line, 0);
    let row = row_text(line, inner);
    leading_space_ends(line, 0);
    escape_after_space(line, 0, j);
    escape_head(line, j);
    let w = spaces(inner as nat) + line.subrange(0, j);
    let y = escape_quotes(line, j);
    assert(row =~= w + y);
    assert forall|k: int| 0 <= k < w.len() implies is_whitespace(#[trigger] w[k]) by {
        if k >= inner {
            assert(w[k] == line[k - inner]);
        }
    }
    indent_of_concat(w, y, 0);
    assert(e.len() > 0);
    assert(strip_indent(row, inner as int) =~= e);
    assert(e.skip(0) =~= e);
    unescape_of_escape(e, 0, line, 0);
    assert(line.skip(0) =~= line);
}

/// The smallest indent is no smaller than a bound of all indents.
proof fn min_indent_bound(ls: Seq<Seq<char>>, m: int, c: int)
    requires
        0 <= m <= ls.len(),
        forall|k: int| 1 <= k < m && !is_blank(#[trigger] ls[k]) ==> indent_of(ls[k]) >= c,
    ensures
        min_indent(ls, m) is Some ==> min_indent(ls, m)->0 >= c,
    decreases m,
{
    if m > 1 {
        min_indent_bound(ls, m - 1, c);
    }
}

/// The smallest indent is a bound of all indents that one line meets.
proof fn min_indent_met(ls: Seq<Seq<char>>, m: int, c: int, at: int)
    requires
        1 <= at < m <= ls.len(),
        !is_blank(ls[at]),
        indent_of(ls[at]) == c,
        forall|k: int| 1 <= k < m && !is_blank(#[trigger] ls[k]) ==> indent_of(ls[k]) >= c,
    ensures
        min_indent(ls, m) == Some(c),
    decreases m,
{
    if m - 1 == at {
        min_indent_bound(ls, m - 1, c);
    } else {
        min_indent_met(ls, m - 1, c, at);
    }
}

/// A text keeps its layout when written as a block string and read
/// back: it holds no carriage return and does not end with a line
/// feed, its first and its last line are not blank, its blank lines
/// are empty, and one of its lines that are not blank has no indent.
pub open spec fn keeps_layout(s: Seq<char>) -> bool {
    let ls = lines(s);
    &&& s.len() > 0
    &&& s.last() != '\n'
    &&& forall|i: int| 0 <= i < s.len() ==> #[trigger] s[i] != '\r'
    &&& ls.len() > 0 ==> !is_blank(ls[0]) && !is_blank(ls.last())
    &&& forall|k: int| 0 <= k < ls.len() && is_blank(#[trigger] ls[k]) ==> ls[k].len() == 0
    &&& exists|k: int| 0 <= k < ls.len() && !is_blank(#[trigger] ls[k]) && indent_of(ls[k]) == 0
}

/// What lies between the triple quotes of a block string.
pub open spec fn body_of(w: Seq<char>) -> Seq<char> {
    w.subrange(3, w.len() - 3)
}

/// The first `m` lines of the value of a written block string are the
/// first `m` lines of the text.
proof fn joined_rows(ls: Seq<Seq<char>>, rows: Seq<Seq<char>>, inner: u32, m: int)
    requires
        1 <= m <= ls.len(),
        rows.len() > ls.len(),
        forall|k: int|
            1 <= k <= ls.len() ==> #[trigger] block_line(rows, Some(inner as int), k) == ls[k
                - 1],
    ensures
        joined(rows, Some(inner as int), 1, m + 1) == glued(ls, m - 1) + ls[m - 1],
    decreases m,
{
    if m == 1 {
        assert(block_line(rows, Some(inner as int), 1) == ls[0]);
        assert(glued(ls, 0) + ls[0] =~= ls[0]);
    } else {
        joined_rows(ls, rows, inner, m - 1);
        assert(block_line(rows, Some(inner as int), m) == ls[m - 1]);
        assert(glued(ls, m - 2) + ls[m - 2] + seq!['\n'] + ls[m - 1] =~= glued(ls, m - 1) + ls[m
            - 1]);
    }
}

/// A text that keeps its layout, written as a block string and read
/// back, is the text itself, whatever the indents it is written at.
pub proof fn block_value_inverts_block_quoted(s: Seq<char>, level: u32, inner: u32)
    requires
        keeps_layout(s),
    ensures
        block_value(body_of(block_quoted(s, level, inner))) == s,
{
    let ls = lines(s);
    let n = ls.len() as int;
    lines_glue(s, 0, 0, s.len() as int);
    assert(s.subrange(0, s.len() as int) =~= s);
    let rows = body_rows(ls, inner);
    let tail = spaces(level as nat);
    let w = block_quoted(s, level, inner);
    let body = body_of(w);
    rows_are_glued(ls, inner, n);
    assert(body =~= seq!['\n'] + block_rows(ls, inner, n) + tail);
    assert(body == glued(rows, n + 1) + tail);
    assert forall|k: int| 0 <= k < rows.len() implies one_line(#[trigger] rows[k]) && no_cr_end(
        rows[k],
    ) by {
        if k > 0 && !is_blank(ls[k - 1]) {
            let line = ls[k - 1];
            escape_in_line(line, 0);
            let e = escape_quotes(line, 0);
            assert forall|j: int| 0 <= j < rows[k].len() implies in_line(#[trigger] rows[k][j]) by {
                if j >= inner {
                    assert(rows[k][j] == e[j - inner]);
                }
            }
        }
    }
    lines_of_glued(rows, tail);
    let bl = lines(body);
    assert(bl == rows + (if tail.len() > 0 {
        seq![tail]
    } else {
        Seq::<Seq<char>>::empty()
    }));
    assert(bl.len() >= n + 1);
    assert(bl[0] == rows[0]);
    assert(is_blank(bl[0]));
    assert forall|k: int| 1 <= k <= n implies bl[k] == row_text(#[trigger] ls[k - 1], inner) by {
        assert(bl[k] == rows[k]);
    }
    assert forall|k: int| 1 <= k <= n && !is_blank(ls[k - 1]) implies !is_blank(#[trigger] bl[k])
        && indent_of(bl[k]) == inner + indent_of(ls[k - 1]) && unescape_quotes(
        strip_indent(bl[k], inner as int),
        0,
    ) == ls[k - 1] by {
        assert(bl[k] == row_text(ls[k - 1], inner));
        row_reads_back(ls[k - 1], inner);
    }
    assert forall|k: int| 1 <= k <= n && is_blank(ls[k - 1]) implies is_blank(#[trigger] bl[k])
        && bl[k].len() == 0 by {
        assert(bl[k] == row_text(ls[k - 1], inner));
    }
    if tail.len() > 0 {
        assert(bl.len() == n + 2);
        assert(bl[n + 1] == tail);
        leading_space_all(tail, 0);
        assert(is_blank(bl[n + 1]));
    }
    // the first and the last line that are not blank
    assert(!is_blank(bl[1])) by {
        assert(!is_blank(ls[0]));
    }
    assert(first_text_line(bl, 1) == Some(1int));
    assert(first_text_line(bl, 0) == Some(1int));
    assert(!is_blank(bl[n])) by {
        assert(ls.last() == ls[n - 1]);
        assert(!is_blank(ls[n - 1]));
    }
    assert(last_text_line(bl, n + 1) == Some(n));
    assert(last_text_line(bl, bl.len() as int) == Some(n));
    // the common indent
    let at = choose|k: int| 0 <= k < ls.len() && !is_blank(#[trigger] ls[k]) && indent_of(ls[k]) == 0;
    assert(!is_blank(bl[at + 1]) && indent_of(bl[at + 1]) == inner) by {
        assert(!is_blank(ls[(at + 1) - 1]));
    }
    assert forall|k: int| 1 <= k < bl.len() && !is_blank(#[trigger] bl[k]) implies indent_of(
        bl[k],
    ) >= inner by {
        if k <= n {
            if is_blank(ls[k - 1]) {
                assert(is_blank(bl[k]));
            } else {
                leading_space_ends(ls[k - 1], 0);
            }
        }
    }
    min_indent_met(bl, bl.len() as int, inner as int, at + 1);
    // line by line
    assert forall|k: int| 1 <= k <= n implies #[trigger] block_line(bl, Some(inner as int), k)
        == ls[k - 1] by {
        if is_blank(ls[k - 1]) {
            assert(bl[k].len() == 0);
            assert(strip_indent(bl[k], inner as int) =~= Seq::<char>::empty());
            assert(ls[k - 1] =~= Seq::<char>::empty());
        } else {
            assert(!is_blank(bl[k]));
        }
    }
    joined_rows(ls, bl, inner, n);
}

/// A text of white space is blank.
proof fn leading_space_all(t: Seq<char>, i: int)
    requires
        0 <= i <= t.len(),
        forall|k: int| 0 <= k < t.len() ==> is_whitespace(#[trigger] t[k]),
    ensures
        leading_space(t, i) == t.len(),
    decreases t.len() - i,
{
    if i < t.len() {
        leading_space_all(t, i + 1);
    }
}

/// A text of several lines that holds nothing unprintable is written
/// as a block string; if it keeps its layout, it is read back as it
/// was.
pub proof fn unquote_inverts_block_literal(s: Seq<char>, level: u32, width: u32)
    requires
        has_newline(s),
        !has_nonprintable(s),
        keeps_layout(s),
    ensures
        string_literal(s, level, width) == block_quoted(s, level, deeper(level, width)),
        block_value(body_of(string_literal(s, level, width))) == s,
{
    block_value_inverts_block_quoted(s, level, deeper(level, width));
}

} // verus!
