//! The insertion point of a caret, and how it moves through the text.
use crate::char_utils::{is_variable_char, MyCharUtils};
use crate::content::{lemma_first_scalar_prefix, Content};
use crate::text::str_from_utf8;
use vstd::prelude::*;
use vstd::string::StrSliceExecFns;
use vstd::utf8::*;

verus! {

/// Which column vertical motion aims for.
#[derive(Debug, Clone, Copy, PartialEq, Eq)]
pub enum HorizontalGoal {
    Column(usize),
    EndOfLine,
}

/// A position in the text, counted in lines and bytes from zero, with the
/// column that vertical motion aims for.
#[derive(Debug, Clone, Copy)]
pub struct Cursor {
    pub line: usize,
    pub col: usize,
    pub goal: HorizontalGoal,
}

/// Whether the well-formed UTF-8 character that starts at byte `i` of `l`
/// may stand in a name (false where no such character starts there).
pub open spec fn variable_at(l: Seq<u8>, i: int) -> bool {
    valid_first_scalar(l.skip(i)) && is_variable_char(decode_first_scalar(l.skip(i)) as char)
}

/// Whether the character that starts at byte `i` of `l` may stand in a name
/// (see [`variable_at`]).
pub fn is_variable_at(l: &[u8], i: usize) -> (r: bool)
    requires
        i < l@.len(),
    ensures
        r == variable_at(l@, i as int),
{
    let ghost b = l@.skip(i as int);
    let b0 = l[i];
    assert(b[0] == b0);
    let w: usize = if b0 <= 0x7f {
        1
    } else if 0xc0 <= b0 && b0 <= 0xdf {
        2
    } else if 0xe0 <= b0 && b0 <= 0xef {
        3
    } else if 0xf0 <= b0 && b0 <= 0xf7 {
        4
    } else {
        0
    };
    if w == 0 || w > l.len() - i {
        return false;
    }
    let piece = &l[i..i + w];
    proof {
        assert(piece@ =~= b.take(w as int));
    }
    match str_from_utf8(piece) {
        Some(s) => {
            proof {
                if s@.len() == 0 {
                    assert(encode_utf8(s@) =~= Seq::<u8>::empty());
                }
                encode_utf8_first_scalar(s@);
                lemma_first_scalar_prefix(piece@, b);
                char_u32_cast(s@[0], decode_first_scalar(b));
            }
            s.get_char(0).is_variable_name()
        },
        None => {
            proof {
                if valid_first_scalar(b) {
                    lemma_first_scalar_prefix(b, piece@);
                    assert(pop_first_scalar(piece@) =~= Seq::<u8>::empty());
                    assert(valid_utf8(Seq::<u8>::empty()));
                }
            }
            false
        },
    }
}

/// The first position from `col` on that does not hold a space.
pub open spec fn skip_spaces_forward(l: Seq<u8>, col: int) -> int
    decreases l.len() - col,
{
    if 0 <= col < l.len() && l[col] == 32u8 {
        skip_spaces_forward(l, col + 1)
    } else {
        col
    }
}

/// The end of the run from `col` on, one byte at a time, of positions where
/// the character starting there has the class `base` (part of a name or not,
/// see [`variable_at`]).
pub open spec fn run_forward(l: Seq<u8>, col: int, base: bool) -> int
    decreases l.len() - col,
{
    if 0 <= col < l.len() && variable_at(l, col) == base {
        run_forward(l, col + 1, base)
    } else {
        col
    }
}

/// Stepping back from `col` while the byte at the position is a space; -1
/// where that runs off the start of the line.
pub open spec fn skip_spaces_backward(l: Seq<u8>, col: int) -> int
    decreases col + 1,
{
    if 0 <= col < l.len() && l[col] == 32u8 {
        if col == 0 {
            -1
        } else {
            skip_spaces_backward(l, col - 1)
        }
    } else {
        col
    }
}

/// The start of the run ending before `col`, one byte at a time, of positions
/// where the character starting there has the class `base`.
pub open spec fn run_backward(l: Seq<u8>, col: int, base: bool) -> int
    decreases col,
{
    if 0 < col <= l.len() && variable_at(l, col - 1) == base {
        run_backward(l, col - 1, base)
    } else {
        col
    }
}

/// Where a word motion forward inside a line ends.
pub open spec fn next_word_col(l: Seq<u8>, col: int) -> int {
    let c1 = skip_spaces_forward(l, col);
    if c1 < l.len() {
        run_forward(l, c1, variable_at(l, c1))
    } else {
        c1
    }
}

/// Where a word motion backward inside a line ends.
pub open spec fn prev_word_col(l: Seq<u8>, col: int) -> int {
    let c1 = skip_spaces_backward(l, col);
    run_backward(l, c1, variable_at(l, c1 - 1))
}

/// Skipping spaces forward from `col` stops at the first byte that is not
/// a space, or at the end of the line.
pub proof fn lemma_skip_forward_ends(l: Seq<u8>, col: int)
    requires
        0 <= col <= l.len(),
    ensures
        col <= skip_spaces_forward(l, col) <= l.len(),
        forall|j: int| col <= j < skip_spaces_forward(l, col) ==> l[j] == 32u8,
        skip_spaces_forward(l, col) < l.len() ==> l[skip_spaces_forward(l, col)] != 32u8,
    decreases l.len() - col,
{
    if col < l.len() && l[col] == 32u8 {
        lemma_skip_forward_ends(l, col + 1);
    }
}

/// The run forward from `c` of positions of class `base` holds only that
/// class and ends at the end of the line or before the other class.
pub proof fn lemma_run_forward_ends(l: Seq<u8>, c: int, base: bool)
    requires
        0 <= c <= l.len(),
    ensures
        c <= run_forward(l, c, base) <= l.len(),
        forall|j: int| c <= j < run_forward(l, c, base) ==> variable_at(l, j) == base,
        run_forward(l, c, base) < l.len() ==> variable_at(l, run_forward(l, c, base)) != base,
    decreases l.len() - c,
{
    if c < l.len() && variable_at(l, c) == base {
        lemma_run_forward_ends(l, c + 1, base);
    }
}

/// The run backward from `c` of positions of class `base` holds only that
/// class and starts at the start of the line or after the other class.
pub proof fn lemma_run_backward_ends(l: Seq<u8>, c: int, base: bool)
    requires
        0 <= c <= l.len(),
    ensures
        0 <= run_backward(l, c, base) <= c,
        forall|j: int| run_backward(l, c, base) <= j < c ==> variable_at(l, j) == base,
        run_backward(l, c, base) > 0 ==> variable_at(l, run_backward(l, c, base) - 1) != base,
    decreases c,
{
    if 0 < c && variable_at(l, c - 1) == base {
        lemma_run_backward_ends(l, c - 1, base);
    }
}

/// A word motion forward from inside a line always moves, and stops where
/// a run ends: past the spaces at the cursor it crosses one run of
/// characters that all are, or all are not, part of a name (from the first
/// byte that is not a space on, all of one class, like the last one it
/// crosses), it crosses such a byte unless it reaches the end of the line,
/// and it stops at the end of the line or before a character of the other
/// class.
pub proof fn next_word_ends_the_run(l: Seq<u8>, col: int)
    requires
        0 <= col < l.len(),
    ensures
        ({
            let r = next_word_col(l, col);
            &&& col < r <= l.len()
            &&& forall|j: int| col <= j < r ==> l[j] == 32u8 || variable_at(l, j) == variable_at(l, r - 1)
            &&& forall|i: int, j: int| col <= i <= j < r && l[i] != 32u8 ==> variable_at(l, j) == variable_at(l, i)
            &&& r < l.len() ==> exists|i: int| col <= i < r && l[i] != 32u8
            &&& r < l.len() ==> variable_at(l, r) != variable_at(l, r - 1)
        }),
{
    lemma_skip_forward_ends(l, col);
    let s = skip_spaces_forward(l, col);
    if s < l.len() {
        let base = variable_at(l, s);
        lemma_run_forward_ends(l, s, base);
        let r = run_forward(l, s, base);
        assert(r > s);
        assert(variable_at(l, r - 1) == base);
        assert(l[s] != 32u8);
    }
}

/// Skipping spaces backward from `col` stops at the last byte at or before
/// `col` that is not a space (or at the end of the line), having passed only
/// spaces.
pub proof fn lemma_skip_backward_ends(l: Seq<u8>, col: int)
    requires
        0 <= col <= l.len(),
    ensures
        -1 <= skip_spaces_backward(l, col) <= col,
        forall|j: int| skip_spaces_backward(l, col) < j <= col && j < l.len() ==> l[j] == 32u8,
    decreases col + 1,
{
    if col < l.len() && l[col] == 32u8 && col > 0 {
        lemma_skip_backward_ends(l, col - 1);
    }
}

/// From `r` up to `e` all characters are of the class of the one at `r`,
/// and after `e` up to `col` (within the line) only spaces lie.
pub open spec fn run_then_spaces(l: Seq<u8>, r: int, e: int, col: int) -> bool {
    &&& forall|j: int| r <= j < e ==> variable_at(l, j) == variable_at(l, r)
    &&& forall|j: int| e < j <= col && j < l.len() ==> l[j] == 32u8
}

/// A word motion backward inside a line (where the spaces at and before
/// the cursor do not reach the start of the line) always moves back, and
/// stops where a run starts: at the start of the line or after a character
/// of the other class than the one it stops before. From there up to some
/// point after it, all characters are of that one class, and after that
/// point up to the cursor only spaces lie.
pub proof fn prev_word_starts_the_run(l: Seq<u8>, col: int)
    requires
        0 < col <= l.len(),
        skip_spaces_backward(l, col) > 0,
    ensures
        ({
            let r = prev_word_col(l, col);
            &&& 0 <= r < col
            &&& r == 0 || variable_at(l, r - 1) != variable_at(l, r)
            &&& exists|e: int| r < e <= col && #[trigger] run_then_spaces(l, r, e, col)
        }),
{
    lemma_skip_backward_ends(l, col);
    let c1 = skip_spaces_backward(l, col);
    let base = variable_at(l, c1 - 1);
    lemma_run_backward_ends(l, c1, base);
    let r = run_backward(l, c1, base);
    assert(r < c1);
    assert(variable_at(l, r) == base);
    assert(run_then_spaces(l, r, c1, col));
}

proof fn lemma_skip_forward_bounds(l: Seq<u8>, col: int)
    requires
        0 <= col <= l.len(),
    ensures
        col <= skip_spaces_forward(l, col) <= l.len(),
    decreases l.len() - col,
{
    if col < l.len() && l[col] == 32u8 {
        lemma_skip_forward_bounds(l, col + 1);
    }
}

proof fn lemma_run_forward_bounds(l: Seq<u8>, col: int, base: bool)
    requires
        0 <= col <= l.len(),
    ensures
        col <= run_forward(l, col, base) <= l.len(),
    decreases l.len() - col,
{
    if col < l.len() && variable_at(l, col) == base {
        lemma_run_forward_bounds(l, col + 1, base);
    }
}

proof fn lemma_skip_backward_bounds(l: Seq<u8>, col: int)
    requires
        0 <= col <= l.len(),
    ensures
        -1 <= skip_spaces_backward(l, col) <= col,
    decreases col + 1,
{
    if col < l.len() && l[col] == 32u8 && col > 0 {
        lemma_skip_backward_bounds(l, col - 1);
    }
}

proof fn lemma_run_backward_bounds(l: Seq<u8>, col: int, base: bool)
    requires
        0 <= col <= l.len(),
    ensures
        0 <= run_backward(l, col, base) <= col,
    decreases col,
{
    if 0 < col && variable_at(l, col - 1) == base {
        lemma_run_backward_bounds(l, col - 1, base);
    }
}

/// The nearest position in the text to line `y`, column `x`.
pub open spec fn clamp(x: int, y: int, c: Seq<Seq<u8>>) -> (int, int) {
    if c.len() == 0 {
        (0, 0)
    } else {
        let line = if y < c.len() - 1 { y } else { c.len() - 1 };
        let col = if x < c[line].len() { x } else { c[line].len() as int };
        (line, col)
    }
}

/// The column that vertical motion lands on in a line of length `len`.
pub open spec fn goal_col(goal: HorizontalGoal, len: int) -> int {
    match goal {
        HorizontalGoal::Column(c) => if c < len { c as int } else { len },
        HorizontalGoal::EndOfLine => len,
    }
}

impl Cursor {
    pub fn new(line: usize, col: usize) -> (r: Self)
        ensures
            r == (Cursor { line, col, goal: HorizontalGoal::Column(col) }),
    {
        Self { line, col, goal: HorizontalGoal::Column(col) }
    }

    pub fn get_lc(&self) -> (r: (usize, usize))
        ensures
            r == (self.line, self.col),
    {
        (self.line, self.col)
    }

    /// The nearest position in `content` to line `y`, column `x`; (0, 0) for
    /// no lines at all.
    pub fn clamp_position(x: usize, y: usize, content: &Content) -> (r: (usize, usize))
        ensures
            (r.0 as int, r.1 as int) == clamp(x as int, y as int, content@),
    {
        if content.len() == 0 {
            return (0, 0);
        }
        let line = if y < content.len() - 1 { y } else { content.len() - 1 };
        let l = content.index(line).len();
        let pos = if x < l { x } else { l };
        (line, pos)
    }

    /// The line, counted from one.
    pub fn line(&self) -> (r: usize)
        requires
            self.line < usize::MAX,
        ensures
            r == self.line + 1,
    {
        self.line + 1
    }

    /// The column, counted from one.
    pub fn col(&self) -> (r: usize)
        requires
            self.col < usize::MAX,
        ensures
            r == self.col + 1,
    {
        self.col + 1
    }

    /// Moves to the nearest position to line `y`, column `x`.
    pub fn set_only_cursor(&mut self, x: usize, y: usize, content: &Content)
        ensures
            (final(self).line as int, final(self).col as int) == clamp(x as int, y as int, content@),
            final(self).goal == HorizontalGoal::Column(final(self).col),
    {
        let (line, col) = Self::clamp_position(x, y, content);
        self.line = line;
        self.col = col;
        self.goal = HorizontalGoal::Column(col);
    }

    /// One byte forward, to the start of the next line from the end of a
    /// line; nothing at the end of the text.
    pub fn next(&mut self, content: &Content)
        requires
            old(self).line < content@.len(),
        ensures
            old(self).col < content@[old(self).line as int].len() ==> final(self).line == old(self).line
                && final(self).col == old(self).col + 1,
            old(self).col >= content@[old(self).line as int].len() && old(self).line + 1 < content@.len()
                ==> final(self).line == old(self).line + 1 && final(self).col == 0,
            old(self).col >= content@[old(self).line as int].len() && old(self).line + 1 >= content@.len()
                ==> final(self).line == old(self).line && final(self).col == old(self).col,
            final(self).goal == HorizontalGoal::Column(final(self).col),
    {
        let line_len = content.index(self.line).len();
        if self.col < line_len {
            self.col = self.col + 1;
        } else if self.line < content.len() - 1 {
            self.line = self.line + 1;
            self.col = 0;
        }
        self.goal = HorizontalGoal::Column(self.col);
    }

    /// Forward over the spaces and then the run of positions whose
    /// characters are, or are not, part of a name, as the one after the
    /// spaces is; to the start of the next line from the end of a line.
    pub fn next_word(&mut self, content: &Content)
        requires
            old(self).line < content@.len(),
        ensures
            ({
                let l = content@[old(self).line as int];
                &&& old(self).col < l.len() ==> final(self).line == old(self).line
                    && final(self).col == next_word_col(l, old(self).col as int)
                &&& old(self).col >= l.len() && old(self).line + 1 < content@.len()
                    ==> final(self).line == old(self).line + 1 && final(self).col == 0
                &&& old(self).col >= l.len() && old(self).line + 1 >= content@.len()
                    ==> final(self).line == old(self).line && final(self).col == old(self).col
            }),
            final(self).goal == HorizontalGoal::Column(final(self).col),
    {
        let line = content.index(self.line);
        let ghost l = line@;
        let line_len = line.len();
        if self.col < line_len {
            let ghost start = self.col as int;
            while self.col < line_len && line[self.col] == 32u8
                invariant
                    start <= self.col <= line_len,
                    line_len == l.len(),
                    line@ == l,
                    self.line == old(self).line,
                    skip_spaces_forward(l, self.col as int) == skip_spaces_forward(l, start),
                decreases line_len - self.col,
            {
                self.col = self.col + 1;
            }
            proof {
                lemma_skip_forward_bounds(l, start);
            }
            if self.col < line_len {
                let base_state = is_variable_at(line.as_slice(), self.col);
                let ghost c1 = self.col as int;
                while self.col < line_len && is_variable_at(line.as_slice(), self.col) == base_state
                    invariant
                        c1 <= self.col <= line_len,
                        line_len == l.len(),
                        line@ == l,
                        self.line == old(self).line,
                        c1 == skip_spaces_forward(l, start),
                        c1 < l.len(),
                        base_state == variable_at(l, c1),
                        run_forward(l, self.col as int, base_state) == run_forward(l, c1, base_state),
                    decreases line_len - self.col,
                {
                    self.col = self.col + 1;
                }
                assert(run_forward(l, self.col as int, base_state) == self.col);
                assert(self.col == next_word_col(l, start));
            } else {
                assert(skip_spaces_forward(l, self.col as int) == self.col);
                assert(self.col == next_word_col(l, start));
            }
        } else if self.line < content.len() - 1 {
            self.line = self.line + 1;
            self.col = 0;
        }
        self.goal = HorizontalGoal::Column(self.col);
    }

    /// Moves the column by `n`, wrapping around the range of `usize`; the
    /// goal follows.
    pub fn next_or_prev_unchecked(&mut self, n: isize)
        ensures
            final(self).line == old(self).line,
            final(self).col == vstd::wrapping::usize_specs::wrapping_add_signed(old(self).col, n),
            final(self).goal == HorizontalGoal::Column(final(self).col),
    {
        self.col = self.col.wrapping_add_signed(n);
        self.goal = HorizontalGoal::Column(self.col);
    }

    /// Moves the line by `n`, wrapping around the range of `usize`.
    pub fn up_or_down_unchecked(&mut self, n: isize)
        ensures
            *final(self) == (Cursor {
                line: vstd::wrapping::usize_specs::wrapping_add_signed(old(self).line, n),
                ..*old(self)
            }),
    {
        self.line = self.line.wrapping_add_signed(n);
    }

    /// One byte back, to the end of the previous line from the start of a
    /// line; nothing at the start of the text.
    pub fn prev(&mut self, content: &Content)
        requires
            old(self).col == 0 && old(self).line > 0 ==> old(self).line - 1 < content@.len(),
        ensures
            old(self).col > 0 ==> final(self).line == old(self).line && final(self).col == old(self).col - 1,
            old(self).col == 0 && old(self).line > 0 ==> final(self).line == old(self).line - 1
                && final(self).col == content@[old(self).line - 1].len(),
            old(self).col == 0 && old(self).line == 0 ==> final(self).line == 0 && final(self).col == 0,
            final(self).goal == HorizontalGoal::Column(final(self).col),
    {
        if self.col > 0 {
            self.col = self.col - 1;
        } else if self.line > 0 {
            self.line = self.line - 1;
            self.col = content.index(self.line).len();
        }
        self.goal = HorizontalGoal::Column(self.col);
    }

    /// Back over the spaces at and before the cursor and then the run of
    /// positions before it whose characters are, or are not, part of a name,
    /// as the one before the spaces is; to the end of the previous line from the
    /// start of a line. The cursor lies within its line, and the spaces do not
    /// reach the start of the line.
    pub fn prev_word(&mut self, content: &Content)
        requires
            old(self).line < content@.len(),
            old(self).col <= content@[old(self).line as int].len(),
            old(self).col > 0 ==> skip_spaces_backward(content@[old(self).line as int], old(self).col as int) > 0,
            old(self).col == 0 && old(self).line > 0 ==> old(self).line - 1 < content@.len(),
        ensures
            old(self).col > 0 ==> final(self).line == old(self).line
                && final(self).col == prev_word_col(content@[old(self).line as int], old(self).col as int),
            old(self).col == 0 && old(self).line > 0 ==> final(self).line == old(self).line - 1
                && final(self).col == content@[old(self).line - 1].len(),
            old(self).col == 0 && old(self).line == 0 ==> final(self).line == 0 && final(self).col == 0,
            final(self).goal == HorizontalGoal::Column(final(self).col),
    {
        if self.col > 0 {
            let line = content.index(self.line);
            let ghost l = line@;
            let ghost start = self.col as int;
            let line_len = line.len();
            proof {
                lemma_skip_backward_bounds(l, start);
            }
            while self.col < line_len && line[self.col] == 32u8
                invariant
                    0 < self.col <= start <= line_len,
                    line_len == l.len(),
                    line@ == l,
                    self.line == old(self).line,
                    skip_spaces_backward(l, self.col as int) == skip_spaces_backward(l, start),
                    skip_spaces_backward(l, start) > 0,
                decreases self.col,
            {
                proof {
                    lemma_skip_backward_bounds(l, self.col - 1);
                }
                self.col = self.col - 1;
            }
            let base_state = is_variable_at(line.as_slice(), self.col - 1);
            let ghost c1 = self.col as int;
            while self.col > 0 && is_variable_at(line.as_slice(), self.col - 1) == base_state
                invariant
                    self.col <= c1 <= line_len,
                    line_len == l.len(),
                    line@ == l,
                    self.line == old(self).line,
                    c1 == skip_spaces_backward(l, start),
                    c1 > 0,
                    base_state == variable_at(l, c1 - 1),
                    run_backward(l, self.col as int, base_state) == run_backward(l, c1, base_state),
                decreases self.col,
            {
                self.col = self.col - 1;
            }
        } else if self.line > 0 {
            self.line = self.line - 1;
            self.col = content.index(self.line).len();
        }
        self.goal = HorizontalGoal::Column(self.col);
    }

    /// `i` lines down, stopping at the last line, landing on the goal
    /// column; the goal is kept.
    pub fn down(&mut self, i: usize, content: &Content)
        requires
            old(self).line + i <= usize::MAX,
            content@.len() > 0,
        ensures
            final(self).line == (if old(self).line + i < content@.len() { old(self).line + i } else { content@.len() - 1 }),
            final(self).col == goal_col(old(self).goal, content@[final(self).line as int].len() as int),
            final(self).goal == old(self).goal,
    {
        self.line = self.line + i;
        if self.line >= content.len() {
            self.line = content.len() - 1;
        }
        let line_len = content.index(self.line).len();
        self.col = match self.goal {
            HorizontalGoal::Column(c) => if c < line_len { c } else { line_len },
            HorizontalGoal::EndOfLine => line_len,
        };
    }

    /// `i` lines up, stopping at the first line, landing on the goal column;
    /// the goal is kept.
    pub fn up(&mut self, i: usize, content: &Content)
        requires
            (if old(self).line >= i { old(self).line - i } else { 0 }) < content@.len(),
        ensures
            final(self).line == (if old(self).line >= i { old(self).line - i } else { 0 }),
            final(self).col == goal_col(old(self).goal, content@[final(self).line as int].len() as int),
            final(self).goal == old(self).goal,
    {
        self.line = self.line.saturating_sub(i);
        let line_len = content.index(self.line).len();
        self.col = match self.goal {
            HorizontalGoal::Column(c) => if c < line_len { c } else { line_len },
            HorizontalGoal::EndOfLine => line_len,
        };
    }

    /// To the start of the line.
    pub fn home(&mut self)
        ensures
            *final(self) == (Cursor { line: old(self).line, col: 0, goal: HorizontalGoal::Column(0) }),
    {
        self.col = 0;
        self.goal = HorizontalGoal::Column(0);
    }

    /// To the end of the line, aiming for line ends from then on.
    pub fn end(&mut self, content: &Content)
        requires
            old(self).line < content@.len(),
        ensures
            *final(self) == (Cursor {
                line: old(self).line,
                col: content@[old(self).line as int].len() as usize,
                goal: HorizontalGoal::EndOfLine,
            }),
    {
        self.col = content.index(self.line).len();
        self.goal = HorizontalGoal::EndOfLine;
    }

    /// To the start of the text.
    pub fn ctrl_home(&mut self)
        ensures
            *final(self) == (Cursor { line: 0, col: 0, goal: HorizontalGoal::Column(0) }),
    {
        self.col = 0;
        self.line = 0;
        self.goal = HorizontalGoal::Column(0);
    }

    /// To the start of the last line.
    pub fn ctrl_end(&mut self, content: &Content)
        requires
            content@.len() > 0,
        ensures
            *final(self) == (Cursor {
                line: (content@.len() - 1) as usize,
                col: 0,
                goal: HorizontalGoal::Column(0),
            }),
    {
        self.col = 0;
        self.line = content.len() - 1;
        self.goal = HorizontalGoal::Column(0);
    }
}

/// The position nearest to a click lies in the text: on one of its lines,
/// at most at that line's end.
pub proof fn clamped_position_is_in_the_text(x: int, y: int, c: Seq<Seq<u8>>)
    requires
        c.len() > 0,
        x >= 0,
        y >= 0,
    ensures
        0 <= clamp(x, y, c).0 < c.len(),
        0 <= clamp(x, y, c).1 <= c[clamp(x, y, c).0].len(),
{
}

} // verus!
