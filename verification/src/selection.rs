//! The other end of a selection.
use crate::cursor::Cursor;
use vstd::prelude::*;

verus! {

/// Where a selection is anchored; `none` says there is no selection.
#[derive(Debug, Clone, Copy)]
pub struct Selection {
    pub line: usize,
    pub col: usize,
    pub none: bool,
}

impl Selection {
    pub fn new(line: usize, col: usize) -> (r: Selection)
        ensures
            r == (Selection { line, col, none: false }),
    {
        Selection { line, col, none: false }
    }

    pub fn get_lc(&self) -> (r: (usize, usize))
        ensures
            r == (self.line, self.col),
    {
        (self.line, self.col)
    }

    /// No selection, anchored at the start.
    pub fn empty() -> (r: Self)
        ensures
            r == (Selection { line: 0, col: 0, none: true }),
    {
        Self { line: 0, col: 0, none: true }
    }

    pub fn is_none(&self) -> (r: bool)
        ensures
            r == self.none,
    {
        self.none
    }

    /// The line, counted from one.
    pub fn line(&self) -> (r: usize)
        requires
            self.line < usize::MAX,
        ensures
            r == self.line + 1,
    {
        self.line + 1
    }

    /// The column, counted from one.
    pub fn col(&self) -> (r: usize)
        requires
            self.col < usize::MAX,
        ensures
            r == self.col + 1,
    {
        self.col + 1
    }

    /// Anchors the selection at the cursor.
    pub fn set_to(&mut self, cursor: &Cursor)
        ensures
            *final(self) == (Selection { line: cursor.line, col: cursor.col, none: false }),
    {
        self.none = false;
        self.line = cursor.line;
        self.col = cursor.col;
    }

    /// Moves the column by `n`, wrapping around the range of `usize`.
    pub fn next_or_prev_unchecked(&mut self, n: isize)
        ensures
            *final(self) == (Selection {
                col: vstd::wrapping::usize_specs::wrapping_add_signed(old(self).col, n),
                ..*old(self)
            }),
    {
        self.col = self.col.wrapping_add_signed(n);
    }

    /// Moves the line by `n`, wrapping around the range of `usize`.
    pub fn up_or_down_unchecked(&mut self, n: isize)
        ensures
            *final(self) == (Selection {
                line: vstd::wrapping::usize_specs::wrapping_add_signed(old(self).line, n),
                ..*old(self)
            }),
    {
        self.line = self.line.wrapping_add_signed(n);
    }
}

} // verus!
