//! Carets: a cursor with an optional selection, and the set of them that a
//! buffer edits with.
use crate::content::Content;
use crate::cursor::{clamp, Cursor, HorizontalGoal};
use crate::little_string::LittleString;
use crate::mostly_one_vec::MostlyOneVec;
use crate::selection::Selection;
use crate::scrollbar::{scrolled_to, CustomScrollbar, Rect};
use crate::text::{decimal, push_decimal, string_push};
use vstd::prelude::*;

verus! {

broadcast use vstd::seq_lib::group_to_multiset_ensures;

/// A (line, column) pair strictly before another, line first.
pub open spec fn lc_lt(a: (int, int), b: (int, int)) -> bool {
    a.0 < b.0 || (a.0 == b.0 && a.1 < b.1)
}

/// A (line, column) pair at or before another.
pub open spec fn lc_le(a: (int, int), b: (int, int)) -> bool {
    !lc_lt(b, a)
}

/// `a < b` on (line, column) pairs.
pub fn lc_less(a: (usize, usize), b: (usize, usize)) -> (r: bool)
    ensures
        r == lc_lt((a.0 as int, a.1 as int), (b.0 as int, b.1 as int)),
{
    a.0 < b.0 || (a.0 == b.0 && a.1 < b.1)
}

/// A cursor and the selection anchored with it.
#[derive(Debug, Clone, Copy)]
pub struct Position {
    pub cursor: Cursor,
    pub selection: Selection,
}

impl Position {
    pub open spec fn cursor_lc(&self) -> (int, int) {
        (self.cursor.line as int, self.cursor.col as int)
    }

    pub open spec fn selection_lc(&self) -> (int, int) {
        (self.selection.line as int, self.selection.col as int)
    }

    /// The start of the selected range: the cursor where nothing is selected.
    pub open spec fn min_lc(&self) -> (int, int) {
        if self.selection.none || lc_lt(self.cursor_lc(), self.selection_lc()) {
            self.cursor_lc()
        } else {
            self.selection_lc()
        }
    }

    /// The end of the selected range: where nothing is selected, the cursor,
    /// one further on when `add_one` holds.
    pub open spec fn max_lc(&self, add_one: bool) -> (int, int) {
        if self.selection.none {
            (self.cursor.line as int, self.cursor.col + if add_one { 1int } else { 0int })
        } else if lc_lt(self.selection_lc(), self.cursor_lc()) {
            self.cursor_lc()
        } else {
            self.selection_lc()
        }
    }

    /// Whether the end point `set_max` and `set_min` would move is the cursor.
    pub open spec fn max_is_cursor(&self) -> bool {
        self.selection.none || lc_lt(self.selection_lc(), self.cursor_lc())
    }

    pub open spec fn min_is_cursor(&self) -> bool {
        self.selection.none || lc_lt(self.cursor_lc(), self.selection_lc())
    }

    pub fn new(cursor: Cursor, selection: Selection) -> (r: Position)
        ensures
            r == (Position { cursor, selection }),
    {
        Position { cursor, selection }
    }

    pub fn get_min(&self) -> (r: (usize, usize))
        ensures
            (r.0 as int, r.1 as int) == self.min_lc(),
    {
        let selection = (self.selection.line, self.selection.col);
        let cursor = (self.cursor.line, self.cursor.col);
        if self.selection.none || lc_less(cursor, selection) {
            cursor
        } else {
            selection
        }
    }

    /// The end of the selected range; without a selection, the cursor moved
    /// one column on when `add_one` holds.
    pub fn get_max(&self, add_one: bool) -> (r: (usize, usize))
        requires
            add_one && self.selection.none ==> self.cursor.col < usize::MAX,
        ensures
            (r.0 as int, r.1 as int) == self.max_lc(add_one),
    {
        let selection = (self.selection.line, self.selection.col);
        let cursor = (self.cursor.line, self.cursor.col);
        if self.selection.none {
            return (cursor.0, cursor.1 + if add_one { 1 } else { 0 });
        }
        if lc_less(selection, cursor) {
            cursor
        } else {
            selection
        }
    }

    /// Moves the end of the range that is the maximum (the cursor, where
    /// nothing is selected) to `a`.
    pub fn set_max(&mut self, a: (usize, usize))
        ensures
            old(self).max_is_cursor() ==> *final(self) == (Position {
                cursor: Cursor { line: a.0, col: a.1, ..old(self).cursor },
                ..*old(self)
            }),
            !old(self).max_is_cursor() ==> *final(self) == (Position {
                selection: Selection { line: a.0, col: a.1, ..old(self).selection },
                ..*old(self)
            }),
    {
        let selection = (self.selection.line, self.selection.col);
        let cursor = (self.cursor.line, self.cursor.col);
        if self.selection.none || lc_less(selection, cursor) {
            self.cursor.line = a.0;
            self.cursor.col = a.1;
        } else {
            self.selection.line = a.0;
            self.selection.col = a.1;
        }
    }

    /// Moves the end of the range that is the minimum (the cursor, where
    /// nothing is selected) to `a`.
    pub fn set_min(&mut self, a: (usize, usize))
        ensures
            old(self).min_is_cursor() ==> *final(self) == (Position {
                cursor: Cursor { line: a.0, col: a.1, ..old(self).cursor },
                ..*old(self)
            }),
            !old(self).min_is_cursor() ==> *final(self) == (Position {
                selection: Selection { line: a.0, col: a.1, ..old(self).selection },
                ..*old(self)
            }),
    {
        let selection = (self.selection.line, self.selection.col);
        let cursor = (self.cursor.line, self.cursor.col);
        if self.selection.none || lc_less(cursor, selection) {
            self.cursor.line = a.0;
            self.cursor.col = a.1;
        } else {
            self.selection.line = a.0;
            self.selection.col = a.1;
        }
    }
}

/// A cursor with its selection, and what the edit in progress at it has
/// added and removed (for the undo history).
pub struct Caret {
    pub position: Position,
    pub started: bool,
    pub added_len: usize,
    pub removed_text: MostlyOneVec<LittleString>,
}

impl Caret {
    /// The caret's cursor and selection.
    pub open spec fn pos(&self) -> Position {
        self.position
    }

    /// A caret at the start of the text, with no edit in progress.
    pub fn new() -> (r: Self)
        ensures
            r.pos() == (Position {
                cursor: Cursor { line: 0, col: 0, goal: HorizontalGoal::Column(0) },
                selection: Selection { line: 0, col: 0, none: true },
            }),
            !r.started,
            r.added_len == 0,
            r.removed_text@.len() == 0,
    {
        Self {
            position: Position::new(Cursor::new(0, 0), Selection::empty()),
            started: false,
            added_len: 0,
            removed_text: MostlyOneVec::Zero,
        }
    }

    /// A caret at `pos`, with no edit in progress.
    pub fn new_from(pos: Position) -> (r: Self)
        ensures
            r == (Caret { position: pos, started: false, added_len: 0, removed_text: MostlyOneVec::Zero }),
    {
        Self { position: pos, started: false, added_len: 0, removed_text: MostlyOneVec::Zero }
    }

    /// Starts recording an edit, unless one is in progress.
    pub fn start_checkpoint(&mut self)
        ensures
            final(self).pos() == old(self).pos(),
            final(self).started,
            old(self).started ==> final(self).added_len == old(self).added_len
                && final(self).removed_text == old(self).removed_text,
            !old(self).started ==> final(self).added_len == 0 && final(self).removed_text@.len() == 0,
    {
        if self.started {
            return;
        }
        self.started = true;
        self.added_len = 0;
        self.removed_text = MostlyOneVec::Zero;
    }

    pub fn is_selection_none(&self) -> (r: bool)
        ensures
            r == self.pos().selection.none,
    {
        self.position.selection.is_none()
    }

    /// Anchors a selection at the cursor.
    pub fn set_selection_to_cursor(&mut self)
        ensures
            final(self).pos() == (Position {
                selection: Selection { line: old(self).pos().cursor.line, col: old(self).pos().cursor.col, none: false },
                ..old(self).pos()
            }),
            final(self).started == old(self).started,
            final(self).added_len == old(self).added_len,
            final(self).removed_text == old(self).removed_text,
    {
        self.position.selection.none = false;
        self.position.selection.line = self.position.cursor.line;
        self.position.selection.col = self.position.cursor.col;
    }

    /// Moves the cursor to the nearest position to line `y`, column `x`,
    /// keeping the selection.
    pub fn set_just_cursor(&mut self, x: usize, y: usize, content: &Content)
        ensures
            final(self).pos().selection == old(self).pos().selection,
            (final(self).pos().cursor.line as int, final(self).pos().cursor.col as int)
                == clamp(x as int, y as int, content@),
            final(self).pos().cursor.goal == HorizontalGoal::Column(final(self).pos().cursor.col),
            final(self).started == old(self).started,
            final(self).added_len == old(self).added_len,
            final(self).removed_text == old(self).removed_text,
    {
        let (line, col) = Cursor::clamp_position(x, y, content);
        self.position.cursor.line = line;
        self.position.cursor.col = col;
        self.position.cursor.goal = HorizontalGoal::Column(col);
    }

    /// Selects the byte before the cursor: the line break before the line
    /// where the cursor is at its start; nothing at the start of the text.
    pub fn selection_make_backwards(&mut self, content: &Content)
        requires
            old(self).pos().cursor.col == 0 && old(self).pos().cursor.line > 0
                ==> old(self).pos().cursor.line - 1 < content@.len(),
        ensures
            final(self).pos().cursor == old(self).pos().cursor,
            old(self).pos().cursor.col == 0 && old(self).pos().cursor.line == 0
                ==> final(self).pos() == old(self).pos(),
            old(self).pos().cursor.col == 0 && old(self).pos().cursor.line > 0
                ==> final(self).pos().selection == (Selection {
                    line: (old(self).pos().cursor.line - 1) as usize,
                    col: content@[old(self).pos().cursor.line - 1].len() as usize,
                    none: false,
                }),
            old(self).pos().cursor.col > 0 ==> final(self).pos().selection == (Selection {
                line: old(self).pos().cursor.line,
                col: (old(self).pos().cursor.col - 1) as usize,
                none: false,
            }),
            final(self).started == old(self).started,
            final(self).added_len == old(self).added_len,
            final(self).removed_text == old(self).removed_text,
    {
        if self.position.cursor.col == 0 {
            if self.position.cursor.line == 0 {
                return;
            }
            self.position.selection.none = false;
            self.position.selection.line = self.position.cursor.line - 1;
            self.position.selection.col = content.index(self.position.selection.line).len();
        } else {
            self.position.selection.none = false;
            self.position.selection.line = self.position.cursor.line;
            self.position.selection.col = self.position.cursor.col - 1;
        }
    }

    /// Selects the byte after the cursor: the line break after the line where
    /// the cursor is at its end. At the end of the text nothing is selected,
    /// though the anchor's line is moved past the last line.
    pub fn selection_make_forwards(&mut self, content: &Content)
        requires
            old(self).pos().cursor.line < content@.len(),
            old(self).pos().cursor.col != content@[old(self).pos().cursor.line as int].len()
                ==> old(self).pos().cursor.col < usize::MAX,
        ensures
            ({
                let p = old(self).pos();
                let len = content@[p.cursor.line as int].len();
                &&& final(self).pos().cursor == p.cursor
                &&& p.cursor.col == len && p.cursor.line + 1 == content@.len()
                    ==> final(self).pos().selection == Selection { line: (p.cursor.line + 1) as usize, ..p.selection }
                &&& p.cursor.col == len && p.cursor.line + 1 < content@.len()
                    ==> final(self).pos().selection == (Selection {
                        line: (p.cursor.line + 1) as usize,
                        col: 0,
                        none: false,
                    })
                &&& p.cursor.col != len ==> final(self).pos().selection == (Selection {
                    line: p.cursor.line,
                    col: (p.cursor.col + 1) as usize,
                    none: false,
                })
            }),
            final(self).started == old(self).started,
            final(self).added_len == old(self).added_len,
            final(self).removed_text == old(self).removed_text,
    {
        let n = content.len();
        let len = content.index(self.position.cursor.line).len();
        if self.position.cursor.col == len {
            self.position.selection.line = self.position.cursor.line + 1;
            if self.position.selection.line == n {
                return;
            }
            self.position.selection.col = 0;
            self.position.selection.none = false;
        } else {
            self.position.selection.none = false;
            self.position.selection.line = self.position.cursor.line;
            self.position.selection.col = self.position.cursor.col + 1;
        }
    }

    pub fn set_position(&mut self, value: Position)
        ensures
            final(self).pos() == value,
            final(self).started == old(self).started,
            final(self).added_len == old(self).added_len,
            final(self).removed_text == old(self).removed_text,
    {
        self.position = value;
    }

    pub fn get_position(&self) -> (r: &Position)
        ensures
            *r == self.pos(),
    {
        &self.position
    }

    /// Drops a selection that is empty (anchored at the cursor).
    pub fn merge_sel_pos(&mut self)
        ensures
            ({
                let p = old(self).pos();
                &&& (!p.selection.none && p.cursor.line == p.selection.line && p.cursor.col == p.selection.col)
                    ==> final(self).pos() == Position { selection: Selection { none: true, ..p.selection }, ..p }
                &&& !(!p.selection.none && p.cursor.line == p.selection.line && p.cursor.col == p.selection.col)
                    ==> final(self).pos() == p
            }),
            final(self).started == old(self).started,
            final(self).added_len == old(self).added_len,
            final(self).removed_text == old(self).removed_text,
    {
        if !self.position.selection.is_none() && self.position.cursor.line == self.position.selection.line
            && self.position.cursor.col == self.position.selection.col {
            self.position.selection.none = true;
        }
    }
}

/// The carets of a buffer.
pub struct Carets {
    pub carets: MostlyOneVec<Caret>,
}

/// The positions of a sequence of carets.
pub open spec fn positions(s: Seq<Caret>) -> Seq<Position> {
    s.map_values(|c: Caret| c.pos())
}

/// The carets are in order of where their ranges start.
pub open spec fn sorted_by_min(s: Seq<Caret>) -> bool {
    forall|i: int, j: int| 0 <= i < j < s.len() ==> lc_le(#[trigger] s[i].pos().min_lc(), #[trigger] s[j].pos().min_lc())
}

/// How the status bar shows a caret, lines and columns counted from one:
/// `line:col ` without a selection, `line:col TO line:col ` (cursor, then
/// anchor) with one.
pub open spec fn caret_status(p: Position) -> Seq<char> {
    let cursor = decimal((p.cursor.line + 1) as nat) + seq![':'] + decimal((p.cursor.col + 1) as nat) + seq![' '];
    if p.selection.none {
        cursor
    } else {
        cursor + seq!['T', 'O', ' '] + decimal((p.selection.line + 1) as nat) + seq![':']
            + decimal((p.selection.col + 1) as nat) + seq![' ']
    }
}

/// The status of the first `n` carets of `cs`, one after another.
pub open spec fn carets_status(cs: Seq<Caret>, n: int) -> Seq<char>
    decreases n,
{
    if n <= 0 {
        Seq::empty()
    } else {
        carets_status(cs, n - 1) + caret_status(cs[n - 1].pos())
    }
}

/// The carets as the status bar shows them: the first three (see
/// [`caret_status`]), then an ellipsis where there are more.
pub open spec fn carets_text(cs: Seq<Caret>) -> Seq<char> {
    carets_status(cs, if cs.len() < 3 { cs.len() as int } else { 3 }) + (if cs.len() > 3 { seq!['…'] } else { Seq::empty() })
}

/// The carets can be shown counted from one: the lines and columns of the first
/// three are below `usize::MAX` (otherwise it would panic).
pub open spec fn status_ok(cs: Seq<Caret>) -> bool {
    forall|i: int| 0 <= i < cs.len() && i < 3 ==> {
        let p = (#[trigger] cs[i]).pos();
        &&& p.cursor.line < usize::MAX
        &&& p.cursor.col < usize::MAX
        &&& !p.selection.none ==> p.selection.line < usize::MAX && p.selection.col < usize::MAX
    }
}

impl Carets {
    /// The carets as the status bar shows them (see [`carets_text`]).
    pub fn to_string(&self) -> (r: String)
        requires
            status_ok(self.carets@),
        ensures
            r@ == carets_text(self.carets@),
    {
        let mut s = crate::text::string_with_capacity(0);
        let len = self.carets.len();
        let n = if len < 3 { len } else { 3 };
        let mut i: usize = 0;
        while i < n
            invariant
                i <= n <= 3,
                n <= len == self.carets@.len(),
                status_ok(self.carets@),
                s@ == carets_status(self.carets@, i as int),
            decreases n - i,
        {
            let p = *self.carets.index(i).get_position();
            let ghost before = s@;
            push_decimal(&mut s, p.cursor.line() );
            string_push(&mut s, ':');
            push_decimal(&mut s, p.cursor.col());
            string_push(&mut s, ' ');
            if !p.selection.none {
                string_push(&mut s, 'T');
                string_push(&mut s, 'O');
                string_push(&mut s, ' ');
                push_decimal(&mut s, p.selection.line());
                string_push(&mut s, ':');
                push_decimal(&mut s, p.selection.col());
                string_push(&mut s, ' ');
            }
            assert(s@ =~= before + caret_status(self.carets@[i as int].pos()));
            i = i + 1;
        }
        if len > 3 {
            string_push(&mut s, '…');
        }
        assert(s@ =~= carets_status(self.carets@, n as int) + (if self.carets@.len() > 3 { seq!['…'] } else { Seq::empty() }));
        s
    }

    /// One caret at the start of the text.
    pub fn new() -> (r: Self)
        ensures
            r.carets@.len() == 1,
            r.carets@[0].pos() == (Position {
                cursor: Cursor { line: 0, col: 0, goal: HorizontalGoal::Column(0) },
                selection: Selection { line: 0, col: 0, none: true },
            }),
    {
        Carets { carets: MostlyOneVec::One(Caret::new()) }
    }

    /// Whether any caret has a selection.
    pub fn any_selected(&self) -> (r: bool)
        ensures
            r == exists|i: int| 0 <= i < self.carets@.len() && !(#[trigger] self.carets@[i]).pos().selection.none,
    {
        let n = self.carets.len();
        let mut i: usize = 0;
        while i < n
            invariant
                i <= n == self.carets@.len(),
                forall|k: int| 0 <= k < i ==> (#[trigger] self.carets@[k]).pos().selection.none,
            decreases n - i,
        {
            if !self.carets.index(i).get_position().selection.none {
                return true;
            }
            i = i + 1;
        }
        false
    }

    /// Keeps only the first caret, without a selection, and moves it to the
    /// nearest position to line `y`, column `x` (there is at least one
    /// caret).
    pub fn set_cursor(&mut self, x: usize, y: usize, content: &Content)
        requires
            old(self).carets@.len() > 0,
        ensures
            final(self).carets@.len() == 1,
            ({
                let c = final(self).carets@[0];
                let o = old(self).carets@[0];
                &&& c.pos().selection == Selection { none: true, ..o.pos().selection }
                &&& (c.pos().cursor.line as int, c.pos().cursor.col as int) == clamp(x as int, y as int, content@)
                &&& c.pos().cursor.goal == HorizontalGoal::Column(c.pos().cursor.col)
                &&& c.started == o.started
                &&& c.added_len == o.added_len
                &&& c.removed_text == o.removed_text
            }),
    {
        self.carets.truncate(1);
        let mut first = self.carets.swap_remove(0);
        let mut pos = first.position;
        pos.selection.none = true;
        pos.cursor.set_only_cursor(x, y, content);
        first.position = pos;
        self.carets.push(first);
    }
}


/// `v` moved by `n`, wrapping around the range of `usize`.
pub open spec fn wrap_add(v: usize, n: isize) -> usize {
    vstd::wrapping::usize_specs::wrapping_add_signed(v, n)
}

/// A caret after the text at and after (`line`, `col`) moved by `ud` lines
/// and, on that line, by `np` columns: each end of its range at or after the
/// point on that line moves by both, each end on a later line by `ud` lines.
pub open spec fn shift_caret(c: Caret, line: int, col: int, ud: isize, np: isize) -> Caret {
    let p = c.position;
    let cursor = if p.cursor.line == line && p.cursor.col >= col {
        Cursor {
            line: wrap_add(p.cursor.line, ud),
            col: wrap_add(p.cursor.col, np),
            goal: HorizontalGoal::Column(wrap_add(p.cursor.col, np)),
        }
    } else if p.cursor.line > line {
        Cursor { line: wrap_add(p.cursor.line, ud), ..p.cursor }
    } else {
        p.cursor
    };
    let selection = if p.selection.none {
        p.selection
    } else if p.selection.line == line && p.selection.col >= col {
        Selection { line: wrap_add(p.selection.line, ud), col: wrap_add(p.selection.col, np), ..p.selection }
    } else if p.selection.line > line {
        Selection { line: wrap_add(p.selection.line, ud), ..p.selection }
    } else {
        p.selection
    };
    Caret { position: Position { cursor, selection }, ..c }
}

/// The carets of a buffer together with the one being edited.
pub struct CursorEditor<'a> {
    pub cursor: usize,
    pub cursors: &'a mut Carets,
}

impl<'a> CursorEditor<'a> {
    /// Moves every caret end at or after (`line`, `col`) as text there was
    /// replaced: by `np` columns on that line and `ud` lines.
    pub fn move_anything_after_ud_np_included(&mut self, line: usize, col: usize, ud: isize, np: isize)
        ensures
            final(self).cursor == old(self).cursor,
            *final(final(self).cursors) == *final(old(self).cursors),
            final(self).cursors.carets@.len() == old(self).cursors.carets@.len(),
            forall|i: int| 0 <= i < old(self).cursors.carets@.len() ==> #[trigger] final(self).cursors.carets@[i]
                == shift_caret(old(self).cursors.carets@[i], line as int, col as int, ud, np),
    {
        let n = self.cursors.carets.len();
        let mut k: usize = 0;
        while k < n
            invariant
                k <= n == old(self).cursors.carets@.len(),
                self.cursor == old(self).cursor,
                *final(self.cursors) == *final(old(self).cursors),
                self.cursors.carets@.len() == n,
                forall|i: int| 0 <= i < k ==> #[trigger] self.cursors.carets@[i]
                    == shift_caret(old(self).cursors.carets@[i], line as int, col as int, ud, np),
                forall|i: int| k <= i < n ==> #[trigger] self.cursors.carets@[i] == old(self).cursors.carets@[i],
            decreases n - k,
        {
            let c = self.cursors.carets.index_mut(k);
            let mut pos = c.position;
            if pos.cursor.line == line && pos.cursor.col >= col {
                pos.cursor.next_or_prev_unchecked(np);
                pos.cursor.up_or_down_unchecked(ud);
            } else if pos.cursor.line > line {
                pos.cursor.up_or_down_unchecked(ud);
            }
            if !pos.selection.is_none() {
                if pos.selection.line == line && pos.selection.col >= col {
                    pos.selection.next_or_prev_unchecked(np);
                    pos.selection.up_or_down_unchecked(ud);
                } else if pos.selection.line > line {
                    pos.selection.up_or_down_unchecked(ud);
                }
            }
            c.position = pos;
            k = k + 1;
        }
    }
}


impl MostlyOneVec<Caret> {
    /// Orders the carets by where their ranges start, keeping each caret.
    pub fn sort(&mut self)
        ensures
            final(self)@.to_multiset() == old(self)@.to_multiset(),
            final(self)@.len() == old(self)@.len(),
            sorted_by_min(final(self)@),
    {
        let mut me = MostlyOneVec::Zero;
        std::mem::swap(self, &mut me);
        match me {
            MostlyOneVec::More(v) => {
                let ghost orig = v@;
                let mut src = v;
                let mut out: Vec<Caret> = Vec::new();
                while src.len() > 0
                    invariant
                        out@.to_multiset().add(src@.to_multiset()) == orig.to_multiset(),
                        out@.len() + src@.len() == orig.len(),
                        sorted_by_min(out@),
                        forall|a: int, b: int| 0 <= a < out@.len() && 0 <= b < src@.len()
                            ==> lc_le(#[trigger] out@[a].pos().min_lc(), #[trigger] src@[b].pos().min_lc()),
                    decreases src@.len(),
                {
                    let n = src.len();
                    let mut best: usize = 0;
                    let mut j: usize = 1;
                    while j < n
                        invariant
                            n == src@.len(),
                            best < j <= n,
                            forall|b: int| 0 <= b < j ==> lc_le(src@[best as int].pos().min_lc(), #[trigger] src@[b].pos().min_lc()),
                        decreases n - j,
                    {
                        if lc_less(src[j].position.get_min(), src[best].position.get_min()) {
                            best = j;
                        }
                        j = j + 1;
                    }
                    let ghost before_src = src@;
                    let ghost before_out = out@;
                    let c = src.remove(best);
                    out.push(c);
                    proof {
                        assert(src@ == before_src.remove(best as int));
                        assert(before_src.remove(best as int).to_multiset() == before_src.to_multiset().remove(before_src[best as int]));
                        assert(out@.to_multiset() == before_out.to_multiset().insert(c));
                        assert(before_src.to_multiset().contains(c)) by {
                            assert(before_src.contains(c)) by {
                                assert(before_src[best as int] == c);
                            }
                        }
                        assert(out@.to_multiset().add(src@.to_multiset()) =~= orig.to_multiset());
                        assert forall|a: int, b: int| 0 <= a < b < out@.len() implies
                            lc_le(#[trigger] out@[a].pos().min_lc(), #[trigger] out@[b].pos().min_lc()) by {
                            if b == out@.len() - 1 {
                                assert(out@[b] == before_src[best as int]);
                            } else {
                                assert(out@[a] == before_out[a] && out@[b] == before_out[b]);
                            }
                        }
                        assert forall|a: int, b: int| 0 <= a < out@.len() && 0 <= b < src@.len() implies
                            lc_le(#[trigger] out@[a].pos().min_lc(), #[trigger] src@[b].pos().min_lc()) by {
                            let ob = if b < best { b } else { b + 1 };
                            assert(src@[b] == before_src[ob]);
                            if a < out@.len() - 1 {
                                assert(out@[a] == before_out[a]);
                            }
                        }
                    }
                }
                proof {
                    assert(src@.to_multiset() =~= vstd::multiset::Multiset::empty());
                    assert(out@.to_multiset().add(vstd::multiset::Multiset::empty()) =~= out@.to_multiset());
                }
                *self = MostlyOneVec::More(out);
            },
            MostlyOneVec::One(c) => {
                *self = MostlyOneVec::One(c);
            },
            MostlyOneVec::Zero => {},
        }
    }
}


/// `p` after `set_max(m)`.
pub open spec fn with_max(p: Position, m: (int, int)) -> Position {
    if p.max_is_cursor() {
        Position { cursor: Cursor { line: m.0 as usize, col: m.1 as usize, ..p.cursor }, ..p }
    } else {
        Position { selection: Selection { line: m.0 as usize, col: m.1 as usize, ..p.selection }, ..p }
    }
}

/// `p` after `set_min(m)`.
pub open spec fn with_min(p: Position, m: (int, int)) -> Position {
    if p.min_is_cursor() {
        Position { cursor: Cursor { line: m.0 as usize, col: m.1 as usize, ..p.cursor }, ..p }
    } else {
        Position { selection: Selection { line: m.0 as usize, col: m.1 as usize, ..p.selection }, ..p }
    }
}

/// One step of the merge pass at index `i`, with `k` carets kept so far:
/// where caret `i` starts before the end of caret `i - 1` (its cursor counted
/// one column wider where nothing is selected), the last kept caret gets the
/// end of caret `i` and the start of caret `i - 1`; otherwise the position of
/// caret `i` is kept as the next one.
pub open spec fn merge_step(a: Seq<Caret>, k: int, i: int) -> (Seq<Caret>, int) {
    if lc_lt(a[i].pos().min_lc(), a[i - 1].pos().max_lc(true)) {
        let q = with_min(with_max(a[k - 1].pos(), a[i].pos().max_lc(true)), a[i - 1].pos().min_lc());
        (a.update(k - 1, Caret { position: q, ..a[k - 1] }), k)
    } else {
        (a.update(k, Caret { position: a[i].pos(), ..a[k] }), k + 1)
    }
}

/// The merge pass from index `i` on.
pub open spec fn merge_pass(a: Seq<Caret>, k: int, i: int) -> (Seq<Caret>, int)
    decreases a.len() - i,
{
    if i < 1 || i >= a.len() || k < 1 || k > i {
        (a, k)
    } else {
        let (b, k2) = merge_step(a, k, i);
        proof {
            assert(b.len() == a.len());
        }
        merge_pass(b, k2, i + 1)
    }
}

/// The carets of `a`, in order, with each that overlaps the one before it
/// merged into the last one kept.
pub open spec fn merged(a: Seq<Caret>) -> Seq<Caret> {
    let (b, k) = merge_pass(a, 1, 1);
    if k < b.len() { b.take(k) } else { b }
}

/// Every caret without a selection has its cursor before the last column,
/// so that it can be measured one column wide.
pub open spec fn cursors_fit(a: Seq<Caret>) -> bool {
    forall|i: int| 0 <= i < a.len() ==> ((#[trigger] a[i]).pos().selection.none ==> a[i].pos().cursor.col < usize::MAX)
}

/// No caret selects an empty range: each either has no selection or its
/// anchor lies apart from its cursor.
pub open spec fn no_empty_selection(a: Seq<Caret>) -> bool {
    forall|i: int| 0 <= i < a.len() ==> ((#[trigger] a[i]).pos().selection.none
        || a[i].pos().cursor_lc() != a[i].pos().selection_lc())
}

/// A step of the merge pass leaves the carets from `i` on as they were,
/// and the count of kept carets within what it has seen.
proof fn lemma_merge_step_keeps(a: Seq<Caret>, k: int, i: int)
    requires
        1 <= k <= i < a.len(),
    ensures
        1 <= merge_step(a, k, i).1 <= i + 1,
        merge_step(a, k, i).0.len() == a.len(),
        merge_step(a, k, i).0[i].pos() == a[i].pos(),
        forall|j: int| i < j < a.len() ==> #[trigger] merge_step(a, k, i).0[j] == a[j],
{
}

impl Carets {
    /// Orders the carets by where they start, then merges each caret whose
    /// range starts before the end of the one before it into the last one
    /// kept, and keeps only the carets so obtained (see [`merged`]). A caret
    /// without selection is measured one column wide, so its cursor must lie
    /// before the last column (otherwise it would overflow). The carets come
    /// out sorted, none overlapping the next; where none selected an empty
    /// range, each also ends, measured so, no later than the next starts.
    pub fn merge(&mut self)
        requires
            cursors_fit(old(self).carets@),
        ensures
            exists|s: Seq<Caret>| #![trigger merged(s)]
                s.to_multiset() == old(self).carets@.to_multiset() && s.len() == old(self).carets@.len()
                && sorted_by_min(s) && final(self).carets@ == merged(s),
            sorted_by_min(final(self).carets@),
            non_overlapping(final(self).carets@),
            no_empty_selection(old(self).carets@) ==> separated(final(self).carets@),
            old(self).carets@.len() >= 1 ==> 1 <= final(self).carets@.len() <= old(self).carets@.len(),
    {
        let ghost before_sort = self.carets@;
        self.carets.sort();
        let ghost s = self.carets@;
        proof {
            assert forall|i: int| 0 <= i < s.len() && (#[trigger] s[i]).pos().selection.none
                implies s[i].pos().cursor.col < usize::MAX by {
                assert(s.to_multiset().count(s[i]) > 0);
                assert(before_sort.to_multiset().count(s[i]) > 0);
                assert(before_sort.contains(s[i]));
            }
            if no_empty_selection(before_sort) {
                assert forall|i: int| 0 <= i < s.len() implies ((#[trigger] s[i]).pos().selection.none
                    || s[i].pos().cursor_lc() != s[i].pos().selection_lc()) by {
                    assert(s.to_multiset().count(s[i]) > 0);
                    assert(before_sort.to_multiset().count(s[i]) > 0);
                    assert(before_sort.contains(s[i]));
                }
            }
        }
        let n = self.carets.len();
        let mut k: usize = 1;
        let mut i: usize = 1;
        while i < n
            invariant
                n == s.len(),
                1 <= k <= i,
                n >= 1 ==> i <= n,
                self.carets@.len() == n,
                cursors_fit(s),
                forall|j: int| i - 1 <= j < n ==> (#[trigger] self.carets@[j]).pos() == s[j].pos(),
                merge_pass(self.carets@, k as int, i as int) == merge_pass(s, 1, 1),
            decreases n - i,
        {
            let ghost a = self.carets@;
            let ghost k0 = k as int;
            proof {
                lemma_merge_step_keeps(a, k as int, i as int);
                assert(a[i - 1].pos() == s[i - 1].pos());
                assert(a[i as int].pos() == s[i as int].pos());
            }
            let prev = self.carets.index(i - 1).position;
            let cur = self.carets.index(i).position;
            if lc_less(cur.get_min(), prev.get_max(true)) {
                let max = cur.get_max(true);
                let min = prev.get_min();
                let dst = self.carets.index_mut(k - 1);
                dst.position.set_max(max);
                dst.position.set_min(min);
            } else {
                let dst = self.carets.index_mut(k);
                dst.position = cur;
                k = k + 1;
            }
            proof {
                assert(self.carets@ =~= merge_step(a, k0, i as int).0);
                assert(k == merge_step(a, k0, i as int).1);
            }
            i = i + 1;
        }
        self.carets.truncate(k);
        proof {
            assert(merged(s) == self.carets@);
            merge_leaves_carets_apart(s);
            lemma_merged_len(s);
            if no_empty_selection(before_sort) {
                merge_keeps_carets_separated(s);
            }
        }
    }
}


/// Each caret ends (a caret without selection counted one column wide) no
/// later than the next one starts.
pub open spec fn separated(a: Seq<Caret>) -> bool {
    forall|i: int| 1 <= i < a.len() ==> lc_le(#[trigger] a[i - 1].pos().max_lc(true), a[i].pos().min_lc())
}

proof fn lemma_merge_pass_separated(a: Seq<Caret>, i: int)
    requires
        separated(a),
        1 <= i,
    ensures
        merge_pass(a, i, i) == (a, if i < a.len() { a.len() as int } else { i }),
    decreases a.len() - i,
{
    if i < a.len() {
        let (b, k2) = merge_step(a, i, i);
        assert(!lc_lt(a[i].pos().min_lc(), a[i - 1].pos().max_lc(true)));
        assert(b =~= a);
        lemma_merge_pass_separated(a, i + 1);
    }
}

/// Carets that are apart, each ending (a caret without selection counted
/// one column wide) no later than the next one starts, come out of the merge
/// pass as they went in.
pub proof fn merge_keeps_separated(a: Seq<Caret>)
    requires
        separated(a),
    ensures
        merged(a) == a,
{
    lemma_merge_pass_separated(a, 1);
}

/// `x` ends (its cursor alone, where nothing is selected) no later than `y`
/// starts.
pub open spec fn apart(x: Caret, y: Caret) -> bool {
    lc_le(x.pos().max_lc(false), y.pos().min_lc())
}

/// Each caret ends no later than the next one starts: no two carets
/// overlap, and they come in the order of where they start.
pub open spec fn non_overlapping(a: Seq<Caret>) -> bool {
    forall|j: int| 1 <= j < a.len() ==> #[trigger] apart(a[j - 1], a[j])
}

/// The start of a range is no later than its end, nor its end than its end
/// counted one column wider.
proof fn lemma_ends_ordered(p: Position)
    ensures
        lc_le(p.min_lc(), p.max_lc(false)),
        lc_le(p.max_lc(false), p.max_lc(true)),
{
}

/// Moving the end of `p` to `m` and then its start to `mn` leaves a range
/// that ends no later than `m` (also measured one column wide, where `mn`
/// lies before `m`) and starts at `mn`, at `m` or where `p` started, and no
/// later than `mn`.
proof fn lemma_merged_ends(p: Position, m: (int, int), mn: (int, int))
    requires
        lc_le(p.min_lc(), m),
        lc_le(mn, m),
        0 <= m.0 <= usize::MAX,
        0 <= m.1 <= usize::MAX,
        0 <= mn.0 <= usize::MAX,
        0 <= mn.1 <= usize::MAX,
    ensures
        ({
            let q = with_min(with_max(p, m), mn);
            &&& lc_le(q.max_lc(false), m)
            &&& lc_lt(mn, m) ==> lc_le(q.max_lc(true), m)
            &&& lc_le(q.min_lc(), mn)
            &&& q.min_lc() == mn || q.min_lc() == m || q.min_lc() == p.min_lc()
        }),
{
}

/// A caret that selects no empty range starts before its end measured one
/// column wide.
proof fn lemma_wide_end(p: Position)
    requires
        p.selection.none || p.cursor_lc() != p.selection_lc(),
    ensures
        lc_lt(p.min_lc(), p.max_lc(true)),
{
}

/// `x` ends no later than `y` starts, its end measured one column wide
/// where `wide` holds and nothing is selected.
pub open spec fn ends_before(x: Caret, y: Caret, wide: bool) -> bool {
    lc_le(x.pos().max_lc(wide), y.pos().min_lc())
}

/// The merge pass, run on carets sorted by where they start, with the kept
/// ones each ending before the next starts, the last kept one ending no
/// later than the caret before `i` (counted one column wider) and starting
/// no later than any caret from `i - 1` on, keeps every kept caret ending
/// before the next starts. Ends are measured one column wide where `wide`
/// holds, which needs carets that select no empty range.
proof fn lemma_merge_pass_apart(a: Seq<Caret>, b: Seq<Caret>, k: int, i: int, wide: bool)
    requires
        1 <= k <= i <= a.len(),
        b.len() == a.len(),
        sorted_by_min(a),
        cursors_fit(a),
        wide ==> no_empty_selection(a),
        forall|j: int| i <= j < a.len() ==> (#[trigger] b[j]).pos() == a[j].pos(),
        forall|j: int| 1 <= j < k ==> #[trigger] ends_before(b[j - 1], b[j], wide),
        lc_le(b[k - 1].pos().max_lc(wide), b[i - 1].pos().max_lc(true)),
        forall|j: int| i - 1 <= j < a.len() ==> lc_le(b[k - 1].pos().min_lc(), #[trigger] b[j].pos().min_lc()),
        forall|j: int| i <= j < a.len() ==> lc_le(b[i - 1].pos().min_lc(), #[trigger] b[j].pos().min_lc()),
    ensures
        ({
            let (c, kk) = merge_pass(b, k, i);
            &&& 1 <= kk <= c.len()
            &&& kk <= k + a.len() - i
            &&& forall|j: int| 1 <= j < kk ==> #[trigger] ends_before(c[j - 1], c[j], wide)
        }),
    decreases a.len() - i,
{
    if i < a.len() {
        let (b2, k2) = merge_step(b, k, i);
        let ai = b[i].pos();
        assert(ai == a[i].pos());
        assert(a[i].pos().selection.none ==> a[i].pos().cursor.col < usize::MAX);
        lemma_ends_ordered(ai);
        lemma_ends_ordered(b[i - 1].pos());
        lemma_ends_ordered(b[k - 1].pos());
        if lc_lt(ai.min_lc(), b[i - 1].pos().max_lc(true)) {
            let p = b[k - 1].pos();
            let m = ai.max_lc(true);
            let mn = b[i - 1].pos().min_lc();
            assert(lc_le(p.min_lc(), ai.min_lc()));
            assert(lc_le(mn, ai.min_lc()));
            if wide {
                assert(a[i].pos().selection.none || a[i].pos().cursor_lc() != a[i].pos().selection_lc());
                lemma_wide_end(ai);
            }
            lemma_merged_ends(p, m, mn);
            let q = with_min(with_max(p, m), mn);
            assert(b2 == b.update(k - 1, Caret { position: q, ..b[k - 1] }));
            assert forall|j: int| 1 <= j < k implies #[trigger] ends_before(b2[j - 1], b2[j], wide) by {
                assert(ends_before(b[j - 1], b[j], wide));
                if j == k - 1 {
                    assert(b2[j - 1] == b[j - 1]);
                }
            }
            lemma_merge_pass_apart(a, b2, k2, i + 1, wide);
        } else {
            assert(b2 == b.update(k, Caret { position: ai, ..b[k] }));
            assert forall|j: int| 1 <= j < k + 1 implies #[trigger] ends_before(b2[j - 1], b2[j], wide) by {
                if j == k {
                    assert(b2[j - 1] == b[k - 1]);
                } else {
                    assert(ends_before(b[j - 1], b[j], wide));
                }
            }
            lemma_merge_pass_apart(a, b2, k2, i + 1, wide);
        }
    }
}

/// Carets apart from the next one come in the order of where they start.
proof fn lemma_apart_sorted(a: Seq<Caret>)
    requires
        non_overlapping(a),
    ensures
        sorted_by_min(a),
    decreases a.len(),
{
    if a.len() > 1 {
        let d = a.drop_last();
        assert forall|j: int| 1 <= j < d.len() implies #[trigger] apart(d[j - 1], d[j]) by {
            assert(apart(a[j - 1], a[j]));
        }
        lemma_apart_sorted(d);
        let n = a.len() - 1;
        assert(apart(a[n - 1], a[n]));
        lemma_ends_ordered(a[n - 1].pos());
        assert forall|i: int, j: int| 0 <= i < j < a.len() implies lc_le(#[trigger] a[i].pos().min_lc(),
            #[trigger] a[j].pos().min_lc()) by {
            if j < n {
                assert(d[i] == a[i] && d[j] == a[j]);
            } else if i < n - 1 {
                assert(d[i] == a[i] && d[n - 1] == a[n - 1]);
            }
        }
    }
}

/// Merging carets sorted by where they start leaves them apart: each ends
/// (its cursor alone, where nothing is selected) no later than the next one
/// starts, so they also stay in the order of where they start.
pub proof fn merge_leaves_carets_apart(s: Seq<Caret>)
    requires
        sorted_by_min(s),
        cursors_fit(s),
    ensures
        non_overlapping(merged(s)),
        sorted_by_min(merged(s)),
{
    if s.len() > 0 {
        lemma_ends_ordered(s[0].pos());
        lemma_merge_pass_apart(s, s, 1, 1, false);
        let (b, k) = merge_pass(s, 1, 1);
        let r = merged(s);
        assert forall|j: int| 1 <= j < r.len() implies #[trigger] apart(r[j - 1], r[j]) by {
            assert(r[j - 1] == b[j - 1] && r[j] == b[j]);
            assert(ends_before(b[j - 1], b[j], false));
        }
    }
    lemma_apart_sorted(merged(s));
}

/// Merging carets sorted by where they start, none of which selects an
/// empty range, leaves each ending, a caret without selection measured one
/// column wide, no later than the next one starts.
pub proof fn merge_keeps_carets_separated(s: Seq<Caret>)
    requires
        sorted_by_min(s),
        cursors_fit(s),
        no_empty_selection(s),
    ensures
        separated(merged(s)),
{
    if s.len() > 0 {
        lemma_merge_pass_apart(s, s, 1, 1, true);
        let (b, k) = merge_pass(s, 1, 1);
        let r = merged(s);
        assert forall|j: int| 1 <= j < r.len() implies lc_le(#[trigger] r[j - 1].pos().max_lc(true), r[j].pos().min_lc()) by {
            assert(r[j - 1] == b[j - 1] && r[j] == b[j]);
            assert(ends_before(b[j - 1], b[j], true));
        }
    }
}

/// Merging keeps at least one of one or more carets, and never adds any.
proof fn lemma_merged_len(s: Seq<Caret>)
    requires
        sorted_by_min(s),
        cursors_fit(s),
    ensures
        s.len() >= 1 ==> 1 <= merged(s).len() <= s.len(),
        s.len() == 0 ==> merged(s).len() == 0,
{
    if s.len() > 0 {
        lemma_ends_ordered(s[0].pos());
        lemma_merge_pass_apart(s, s, 1, 1, false);
    }
}

/// The carets `b` after a caret is added at the position nearest to line
/// `y`, column `x` of the text `c`, from `a` (see [`Carets::add_cursor`]).
pub open spec fn cursor_added(a: Seq<Caret>, b: Seq<Caret>, x: int, y: int, c: Seq<Seq<u8>>) -> bool {
    let p = clamp(x, y, c);
    let found = exists|i: int| 0 <= i < a.len() && #[trigger] a[i].pos().cursor.line == p.1 && a[i].pos().cursor.col == p.0;
    &&& !found ==> b =~= a.push(Caret {
        position: Position {
            cursor: Cursor { line: p.1 as usize, col: p.0 as usize, goal: HorizontalGoal::Column(p.0 as usize) },
            selection: Selection { line: 0, col: 0, none: true },
        },
        started: false,
        added_len: 0,
        removed_text: MostlyOneVec::Zero,
    })
    &&& found && a.len() == 1 ==> b =~= a
    &&& found && a.len() > 1 ==> exists|i: int| 0 <= i < a.len()
        && #[trigger] a[i].pos().cursor.line == p.1
        && a[i].pos().cursor.col == p.0
        && (forall|j: int| 0 <= j < i ==> !(#[trigger] a[j].pos().cursor.line == p.1 && a[j].pos().cursor.col == p.0))
        && b =~= a.update(i, a.last()).drop_last()
}

impl Carets {
    /// Toggles a caret at the nearest position to line `y`, column `x`: one
    /// there is removed (unless it is the only caret), otherwise a new one
    /// without selection is added. The clamped line and column are used the
    /// other way round.
    pub fn add_cursor(&mut self, x: usize, y: usize, content: &Content)
        ensures
            cursor_added(old(self).carets@, final(self).carets@, x as int, y as int, content@),
            ({
                let c = clamp(x as int, y as int, content@);
                let found = exists|i: int| 0 <= i < old(self).carets@.len()
                    && #[trigger] old(self).carets@[i].pos().cursor.line == c.1
                    && old(self).carets@[i].pos().cursor.col == c.0;
                &&& !found ==> final(self).carets@ == old(self).carets@.push(Caret {
                    position: Position {
                        cursor: Cursor { line: c.1 as usize, col: c.0 as usize, goal: HorizontalGoal::Column(c.0 as usize) },
                        selection: Selection { line: 0, col: 0, none: true },
                    },
                    started: false,
                    added_len: 0,
                    removed_text: MostlyOneVec::Zero,
                })
                &&& found && old(self).carets@.len() == 1 ==> final(self).carets@ == old(self).carets@
                &&& found && old(self).carets@.len() > 1 ==> exists|i: int| 0 <= i < old(self).carets@.len()
                    && #[trigger] old(self).carets@[i].pos().cursor.line == c.1
                    && old(self).carets@[i].pos().cursor.col == c.0
                    && (forall|j: int| 0 <= j < i ==> !(#[trigger] old(self).carets@[j].pos().cursor.line == c.1
                        && old(self).carets@[j].pos().cursor.col == c.0))
                    && final(self).carets@ == old(self).carets@.update(i, old(self).carets@.last()).drop_last()
            }),
    {
        let (cx, cy) = Cursor::clamp_position(x, y, content);
        let n = self.carets.len();
        let mut idx: usize = 0;
        while idx < n && !(self.carets.index(idx).position.cursor.line == cy && self.carets.index(idx).position.cursor.col == cx)
            invariant
                idx <= n == self.carets@.len(),
                self.carets@ == old(self).carets@,
                forall|j: int| 0 <= j < idx ==> !(#[trigger] self.carets@[j].pos().cursor.line == cy
                    && self.carets@[j].pos().cursor.col == cx),
            decreases n - idx,
        {
            idx = idx + 1;
        }
        if idx < n {
            assert(old(self).carets@[idx as int].pos().cursor.line == cy);
            if n == 1 {
                return;
            }
            self.carets.swap_remove(idx);
        } else {
            let pos = Position { cursor: Cursor::new(cy, cx), selection: Selection::empty() };
            self.carets.push(Caret::new_from(pos));
        }
    }
}

/// The scroll after following, in order, the anchor of each caret of `cs`
/// that has a selection.
pub open spec fn scrolled_to_selections(sb: CustomScrollbar, cs: Seq<Caret>, r: Rect) -> CustomScrollbar
    decreases cs.len(),
{
    if cs.len() == 0 {
        sb
    } else {
        let s = scrolled_to_selections(sb, cs.drop_last(), r);
        let p = cs.last().pos();
        if p.selection.none { s } else { scrolled_to(s, p.selection.col, p.selection.line, r) }
    }
}

/// The scroll after following, in order, the cursor of each caret of `cs`.
pub open spec fn scrolled_to_cursors(sb: CustomScrollbar, cs: Seq<Caret>, r: Rect) -> CustomScrollbar
    decreases cs.len(),
{
    if cs.len() == 0 {
        sb
    } else {
        let s = scrolled_to_cursors(sb, cs.drop_last(), r);
        let p = cs.last().pos();
        scrolled_to(s, p.cursor.col, p.cursor.line, r)
    }
}

impl Carets {
    /// Scrolls the view to follow the anchor of every selection, then every
    /// cursor, each in the order of the carets.
    pub fn ensure_cursors_visible(&self, scrollbar: &mut CustomScrollbar, last_content_rect: Rect)
        ensures
            *final(scrollbar) == scrolled_to_cursors(
                scrolled_to_selections(*old(scrollbar), self.carets@, last_content_rect),
                self.carets@,
                last_content_rect,
            ),
    {
        let n = self.carets.len();
        let mut i: usize = 0;
        while i < n
            invariant
                i <= n == self.carets@.len(),
                *scrollbar == scrolled_to_selections(*old(scrollbar), self.carets@.take(i as int), last_content_rect),
            decreases n - i,
        {
            let pos = self.carets.index(i).get_position();
            assert(self.carets@.take(i + 1).drop_last() =~= self.carets@.take(i as int));
            if !pos.selection.none {
                scrollbar.scroll_to(pos.selection.col, pos.selection.line, last_content_rect);
            }
            i = i + 1;
        }
        assert(self.carets@.take(n as int) =~= self.carets@);
        let ghost mid = *scrollbar;
        let mut i: usize = 0;
        while i < n
            invariant
                i <= n == self.carets@.len(),
                *scrollbar == scrolled_to_cursors(mid, self.carets@.take(i as int), last_content_rect),
            decreases n - i,
        {
            let pos = self.carets.index(i).get_position();
            assert(self.carets@.take(i + 1).drop_last() =~= self.carets@.take(i as int));
            scrollbar.scroll_to(pos.cursor.col, pos.cursor.line, last_content_rect);
            i = i + 1;
        }
        assert(self.carets@.take(n as int) =~= self.carets@);
    }
}

} // verus!
