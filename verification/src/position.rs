//! Source positions.

use vstd::prelude::*;

verus! {

/// A place in the source text: line and column, both counted from 1 by the
/// tokenizer.
#[derive(Clone, Copy, Debug, PartialEq, Eq, Structural, PartialOrd, Ord, Hash)]
pub struct Pos {
    /// One-based line number.
    pub line: usize,
    /// One-based column number.
    pub column: usize,
}

impl Default for Pos {
    fn default() -> (p: Pos)
        ensures
            p == (Pos { line: 0, column: 0 }),
    {
        Pos { line: 0, column: 0 }
    }
}

/// `a + b`, held at the largest `usize` when the sum does not fit.
pub open spec fn sat_add(a: usize, b: int) -> usize {
    if a + b > usize::MAX {
        usize::MAX
    } else if a + b < 0 {
        0
    } else {
        (a + b) as usize
    }
}

impl Pos {
    /// The position of the first character of a text.
    pub open spec fn start() -> Pos {
        Pos { line: 1, column: 1 }
    }

    /// The position `n` columns to the right on the same line.
    pub open spec fn right(self, n: int) -> Pos {
        Pos { line: self.line, column: sat_add(self.column, n) }
    }

    /// The first column of the next line.
    pub open spec fn next_line(self) -> Pos {
        Pos { line: sat_add(self.line, 1), column: 1 }
    }

    /// Moves `n` columns to the right, stopping at the largest column a
    /// `usize` can hold.
    pub fn advance(&mut self, n: usize)
        ensures
            *final(self) == old(self).right(n as int),
    {
        self.column = self.column.saturating_add(n);
    }

    /// Moves to the first column of the next line.
    pub fn newline(&mut self)
        ensures
            *final(self) == old(self).next_line(),
    {
        self.line = self.line.saturating_add(1);
        self.column = 1;
    }
}

} // verus!
