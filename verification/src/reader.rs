//! Position-tracked view over source text.
//!
//! The reader walks a sequence of characters while keeping a line/column
//! position for diagnostics. A cursor can be saved and restored at any time,
//! which is the backtracking primitive of the whole parser.

use vstd::prelude::*;

verus! {

/// A line/column position in source text. Lines and columns start at 1.
#[derive(Clone, Copy, Debug, PartialEq, Eq, Structural)]
pub struct Pos {
    pub line: usize,
    pub column: usize,
}

impl Pos {
    pub fn new(line: usize, column: usize) -> (p: Pos)
        ensures
            p == (Pos { line, column }),
    {
        Pos { line, column }
    }
}

/// A saved reader state: an offset into the character sequence plus the
/// position that offset corresponds to.
#[derive(Clone, Copy, Debug, PartialEq, Eq, Structural)]
pub struct Cursor {
    pub index: usize,
    pub pos: Pos,
}

/// A counter incremented, stopping at the largest representable value rather
/// than overflowing. Source positions can never get near that bound.
pub open spec fn bumped(x: usize) -> usize {
    if x < usize::MAX {
        (x + 1) as usize
    } else {
        x
    }
}

fn bump(x: usize) -> (r: usize)
    ensures
        r == bumped(x),
{
    if x < usize::MAX {
        x + 1
    } else {
        x
    }
}

/// How one character moves the position: a newline starts the next line,
/// anything else moves one column to the right.
pub open spec fn advance_pos(p: Pos, c: char) -> Pos {
    if c == '\n' {
        Pos { line: bumped(p.line), column: 1 }
    } else {
        Pos { line: p.line, column: bumped(p.column) }
    }
}

/// The position reached after reading the first `i` characters of a text,
/// starting from line 1, column 1.
pub open spec fn pos_at(s: Seq<char>, i: int) -> Pos
    decreases i,
{
    if i <= 0 {
        Pos { line: 1, column: 1 }
    } else {
        advance_pos(pos_at(s, i - 1), s[i - 1])
    }
}

/// A character reader over source text with peek, advance and seek.
pub struct Reader {
    pub chars: Vec<char>,
    pub index: usize,
    pub pos: Pos,
}

impl View for Reader {
    type V = Seq<char>;

    open spec fn view(&self) -> Seq<char> {
        self.chars@
    }
}

impl Reader {
    /// The current offset into the character sequence.
    pub open spec fn spec_index(&self) -> int {
        self.index as int
    }

    /// What remains to be read.
    pub open spec fn remaining(&self) -> Seq<char> {
        self@.skip(self.index as int)
    }

    pub open spec fn wf(&self) -> bool {
        &&& self.index <= self@.len()
        &&& self.pos == pos_at(self@, self.index as int)
    }

    pub fn new(s: &str) -> (r: Reader)
        ensures
            r.wf(),
            r@ == s@,
            r.spec_index() == 0,
            r.cursor_spec().pos == (Pos { line: 1, column: 1 }),
    {
        let n = s.unicode_len();
        let mut chars: Vec<char> = Vec::new();
        let mut i: usize = 0;
        while i < n
            invariant
                n == s@.len(),
                i <= n,
                chars@ == s@.take(i as int),
            decreases n - i,
        {
            chars.push(s.get_char(i));
            i = i + 1;
            proof {
                assert(chars@ =~= s@.take(i as int));
            }
        }
        proof {
            assert(chars@ =~= s@);
        }
        Reader { chars, index: 0, pos: Pos { line: 1, column: 1 } }
    }

    /// The current state, to be restored later with `seek`.
    pub open spec fn cursor_spec(&self) -> Cursor {
        Cursor { index: self.index, pos: self.pos }
    }

    pub fn cursor(&self) -> (c: Cursor)
        ensures
            c == self.cursor_spec(),
    {
        Cursor { index: self.index, pos: self.pos }
    }

    /// Restores a previously saved state.
    pub fn seek(&mut self, c: Cursor)
        requires
            c.index <= old(self)@.len(),
            c.pos == pos_at(old(self)@, c.index as int),
        ensures
            final(self)@ == old(self)@,
            final(self).cursor_spec() == c,
            final(self).wf(),
    {
        self.index = c.index;
        self.pos = c.pos;
    }

    /// The next character, without advancing.
    pub fn peek(&self) -> (r: Option<char>)
        requires
            self.wf(),
        ensures
            self.index < self@.len() ==> r == Some(self@[self.index as int]),
            self.index == self@.len() ==> r is None,
    {
        if self.index < self.chars.len() {
            Some(self.chars[self.index])
        } else {
            None
        }
    }

    /// Reads the next character and advances past it, updating the position:
    /// a newline moves to the start of the next line, anything else moves one
    /// column to the right.
    pub fn read(&mut self) -> (r: Option<char>)
        requires
            old(self).wf(),
        ensures
            final(self).wf(),
            final(self)@ == old(self)@,
            old(self).spec_index() < old(self)@.len() ==> {
                &&& r == Some(old(self)@[old(self).spec_index()])
                &&& final(self).spec_index() == old(self).spec_index() + 1
            },
            old(self).spec_index() == old(self)@.len() ==> {
                &&& r is None
                &&& final(self).spec_index() == old(self).spec_index()
            },
    {
        if self.index < self.chars.len() {
            let c = self.chars[self.index];
            self.index = self.index + 1;
            if c == '\n' {
                self.pos = Pos { line: bump(self.pos.line), column: 1 };
            } else {
                self.pos = Pos { line: self.pos.line, column: bump(self.pos.column) };
            }
            Some(c)
        } else {
            None
        }
    }

    /// True when everything has been read.
    pub fn is_eof(&self) -> (r: bool)
        requires
            self.wf(),
        ensures
            r == (self.spec_index() == self@.len()),
    {
        self.index == self.chars.len()
    }
}

} // verus!
