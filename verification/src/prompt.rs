//! The line where a path to save to is typed: its text, cursor and
//! selection.
use crate::log::{Log, LogColor};
use crate::scrollbar::Rect;
use crate::terminal_cursor::TerminalCursor;
use crate::text::{string_push, string_with_capacity};
use vstd::prelude::*;
use vstd::string::StrSliceExecFns;

verus! {

/// The path being typed, the cursor in it and the anchor of a selection.
pub struct SaveAsData {
    pub filepath: Vec<char>,
    pub cursor: u16,
    pub selection: Option<u16>,
    pub last_content_rect: Rect,
}

/// The smaller of two columns.
pub open spec fn min_u16(a: u16, b: u16) -> u16 {
    if a < b { a } else { b }
}

/// The larger of two columns.
pub open spec fn max_u16(a: u16, b: u16) -> u16 {
    if a < b { b } else { a }
}

/// `s` without the characters from `a` up to `b`.
pub open spec fn cut_out(s: Seq<char>, a: int, b: int) -> Seq<char> {
    s.take(a) + s.skip(b)
}

/// The line and the cursor after typing `ch` into the line `s` with the
/// cursor at `c` and the anchor `sel`: the selection is replaced.
pub open spec fn after_type(s: Seq<char>, c: u16, sel: Option<u16>, ch: char) -> (Seq<char>, u16) {
    let (t, k) = removed_selection(s, c, sel);
    (t.insert(k as int, ch), (k + 1) as u16)
}

/// The line and the cursor after a backspace in the line `s` with the
/// cursor at `c` and the anchor `sel`: the selection goes, or else the
/// character before the cursor.
pub open spec fn after_backspace(s: Seq<char>, c: u16, sel: Option<u16>) -> (Seq<char>, u16) {
    if sel is Some {
        removed_selection(s, c, sel)
    } else if c > 0 {
        (s.remove(c - 1), (c - 1) as u16)
    } else {
        (s, c)
    }
}

/// The line `s` without the selection from the anchor `sel` to the cursor
/// `c`, and the cursor at its start (no change without a selection).
pub open spec fn removed_selection(s: Seq<char>, c: u16, sel: Option<u16>) -> (Seq<char>, u16) {
    match sel {
        Some(a) => (cut_out(s, min_u16(a, c) as int, max_u16(a, c) as int), min_u16(a, c)),
        None => (s, c),
    }
}

/// A backspace takes back a typed character: typing `ch` and then a
/// backspace leaves the line and the cursor as they were before, where
/// nothing was selected.
pub proof fn backspace_takes_back_typing(s: Seq<char>, c: u16, ch: char)
    requires
        c <= s.len() < u16::MAX,
    ensures
        ({
            let (t, k) = after_type(s, c, None, ch);
            after_backspace(t, k, None) == (s, c)
        }),
{
    let (t, k) = after_type(s, c, None, ch);
    assert(t.remove(c as int) =~= s);
}

impl SaveAsData {
    /// The cursor and the anchor lie within the text, which fits the columns
    /// of a terminal.
    pub open spec fn wf(&self) -> bool {
        &&& self.filepath@.len() <= u16::MAX
        &&& self.cursor <= self.filepath@.len()
        &&& self.selection matches Some(s) ==> s <= self.filepath@.len()
    }

    /// The text with the selection removed and the cursor at its start (no
    /// change without a selection).
    pub open spec fn without_selection(&self) -> (Seq<char>, u16) {
        match self.selection {
            Some(sel) => (cut_out(self.filepath@, min_u16(sel, self.cursor) as int, max_u16(sel, self.cursor) as int),
                min_u16(sel, self.cursor)),
            None => (self.filepath@, self.cursor),
        }
    }

    /// An empty line.
    pub fn new() -> (r: SaveAsData)
        ensures
            r.wf(),
            r.filepath@.len() == 0,
            r.cursor == 0,
            r.selection is None,
            r.last_content_rect == (Rect { x: 0, y: 0, width: 0, height: 0 }),
    {
        SaveAsData { filepath: Vec::new(), cursor: 0, selection: None, last_content_rect: Rect::default() }
    }

    /// Removes the characters from `min` up to `max`.
    fn drain(&mut self, min: u16, max: u16)
        requires
            min <= max <= old(self).filepath@.len(),
        ensures
            final(self).filepath@ == cut_out(old(self).filepath@, min as int, max as int),
            final(self).cursor == old(self).cursor,
            final(self).selection == old(self).selection,
            final(self).last_content_rect == old(self).last_content_rect,
    {
        let ghost s = self.filepath@;
        let mut rest: Vec<char> = Vec::new();
        let n = self.filepath.len();
        let mut i: usize = 0;
        while i < min as usize
            invariant
                i <= min <= max <= n == s.len(),
                self.filepath@ == s,
                rest@ == s.take(i as int),
            decreases min - i,
        {
            rest.push(self.filepath[i]);
            assert(rest@ =~= s.take(i + 1));
            i = i + 1;
        }
        let mut j: usize = max as usize;
        while j < n
            invariant
                min <= max <= j <= n == s.len(),
                self.filepath@ == s,
                rest@ == s.take(min as int) + s.subrange(max as int, j as int),
            decreases n - j,
        {
            rest.push(self.filepath[j]);
            assert(rest@ =~= s.take(min as int) + s.subrange(max as int, j + 1));
            j = j + 1;
        }
        assert(rest@ =~= cut_out(s, min as int, max as int));
        self.filepath = rest;
    }

    /// Removes the selection, leaving the cursor where it started.
    fn remove_selection(&mut self)
        requires
            old(self).wf(),
        ensures
            final(self).wf(),
            final(self).filepath@ == old(self).without_selection().0,
            final(self).cursor == old(self).without_selection().1,
            final(self).selection is None,
            final(self).last_content_rect == old(self).last_content_rect,
    {
        if let Some(sel) = self.selection {
            let min = if sel < self.cursor { sel } else { self.cursor };
            let max = if sel < self.cursor { self.cursor } else { sel };
            self.drain(min, max);
            self.selection = None;
            self.cursor = min;
        }
    }

    /// Types `ch` at the cursor, in place of the selection where there is one
    /// (it would overflow past `u16::MAX` characters).
    pub fn type_char(&mut self, ch: char)
        requires
            old(self).wf(),
            old(self).filepath@.len() < u16::MAX,
        ensures
            final(self).wf(),
            (final(self).filepath@, final(self).cursor) == after_type(old(self).filepath@, old(self).cursor, old(self).selection, ch),
            ({
                let (s, c) = old(self).without_selection();
                &&& final(self).filepath@ == s.insert(c as int, ch)
                &&& final(self).cursor == c + 1
                &&& final(self).selection is None
            }),
            final(self).last_content_rect == old(self).last_content_rect,
    {
        self.remove_selection();
        self.filepath.insert(self.cursor as usize, ch);
        self.cursor = self.cursor + 1;
    }

    /// Deletes the selection, or else the character before the cursor.
    pub fn backspace(&mut self)
        requires
            old(self).wf(),
        ensures
            final(self).wf(),
            (final(self).filepath@, final(self).cursor) == after_backspace(old(self).filepath@, old(self).cursor, old(self).selection),
            final(self).last_content_rect == old(self).last_content_rect,
            final(self).selection is None,
            old(self).selection is Some ==> final(self).filepath@ == old(self).without_selection().0
                && final(self).cursor == old(self).without_selection().1,
            old(self).selection is None && old(self).cursor > 0 ==> final(self).filepath@
                == old(self).filepath@.remove(old(self).cursor - 1) && final(self).cursor == old(self).cursor - 1,
            old(self).selection is None && old(self).cursor == 0 ==> final(self).filepath == old(self).filepath
                && final(self).cursor == 0,
    {
        if self.selection.is_some() {
            self.remove_selection();
        } else if self.cursor != 0 {
            self.cursor = self.cursor - 1;
            self.filepath.remove(self.cursor as usize);
        }
    }

    /// Deletes the selection, or else the character after the cursor.
    pub fn delete(&mut self)
        requires
            old(self).wf(),
        ensures
            final(self).wf(),
            final(self).last_content_rect == old(self).last_content_rect,
            final(self).selection is None,
            old(self).selection is Some ==> final(self).filepath@ == old(self).without_selection().0
                && final(self).cursor == old(self).without_selection().1,
            old(self).selection is None && old(self).cursor < old(self).filepath@.len() ==> final(self).filepath@
                == old(self).filepath@.remove(old(self).cursor as int) && final(self).cursor == old(self).cursor,
            old(self).selection is None && old(self).cursor >= old(self).filepath@.len() ==> final(self).filepath
                == old(self).filepath && final(self).cursor == old(self).cursor,
    {
        if self.selection.is_some() {
            self.remove_selection();
        } else if (self.cursor as usize) < self.filepath.len() {
            self.filepath.remove(self.cursor as usize);
        }
    }

    /// The cursor one character left; with `shift` a selection is anchored
    /// where it was (unless there is one), without it the selection goes.
    pub fn left(&mut self, shift: bool)
        requires
            old(self).wf(),
        ensures
            final(self).wf(),
            final(self).filepath == old(self).filepath,
            final(self).last_content_rect == old(self).last_content_rect,
            final(self).cursor == (if old(self).cursor > 0 { old(self).cursor - 1 } else { 0 }),
            !shift ==> final(self).selection is None,
            shift ==> final(self).selection == (if old(self).selection is None { Some(old(self).cursor) } else { old(self).selection }),
    {
        if shift {
            if self.selection.is_none() {
                self.selection = Some(self.cursor);
            }
        } else {
            self.selection = None;
        }
        self.cursor = self.cursor.saturating_sub(1);
    }

    /// The cursor one character right, stopping at the end; with `shift` a
    /// selection is anchored where it was (unless there is one), without it the
    /// selection goes (it would overflow at `u16::MAX`).
    pub fn right(&mut self, shift: bool)
        requires
            old(self).wf(),
            old(self).cursor < u16::MAX,
        ensures
            final(self).wf(),
            final(self).filepath == old(self).filepath,
            final(self).last_content_rect == old(self).last_content_rect,
            final(self).cursor == (if old(self).cursor < old(self).filepath@.len() { old(self).cursor + 1 } else { old(self).cursor as int }),
            !shift ==> final(self).selection is None,
            shift ==> final(self).selection == (if old(self).selection is None { Some(old(self).cursor) } else { old(self).selection }),
    {
        if shift {
            if self.selection.is_none() {
                self.selection = Some(self.cursor);
            }
        } else {
            self.selection = None;
        }
        self.cursor = self.cursor + 1;
        if self.cursor as usize > self.filepath.len() {
            self.cursor = self.filepath.len() as u16;
        }
    }

    /// A click on column `col`: the cursor goes there (at most to the end)
    /// and the selection goes.
    pub fn click(&mut self, col: u16)
        requires
            old(self).wf(),
        ensures
            final(self).wf(),
            final(self).filepath == old(self).filepath,
            final(self).last_content_rect == old(self).last_content_rect,
            final(self).cursor == (if col <= old(self).filepath@.len() { col as int } else { old(self).filepath@.len() as int }),
            final(self).selection is None,
    {
        self.selection = None;
        self.cursor = col;
        if self.cursor as usize > self.filepath.len() {
            self.cursor = self.filepath.len() as u16;
        }
    }

    /// A drag to column `col`: a selection is anchored at the cursor (unless
    /// there is one) and the cursor goes there (at most to the end).
    pub fn drag(&mut self, col: u16)
        requires
            old(self).wf(),
        ensures
            final(self).wf(),
            final(self).filepath == old(self).filepath,
            final(self).last_content_rect == old(self).last_content_rect,
            final(self).cursor == (if col <= old(self).filepath@.len() { col as int } else { old(self).filepath@.len() as int }),
            final(self).selection == (if old(self).selection is None { Some(old(self).cursor) } else { old(self).selection }),
    {
        if self.selection.is_none() {
            self.selection = Some(self.cursor);
        }
        self.cursor = col;
        if self.cursor as usize > self.filepath.len() {
            self.cursor = self.filepath.len() as u16;
        }
    }

    /// The selected text, where there is a selection.
    pub fn selected(&self) -> (r: Option<Vec<char>>)
        requires
            self.wf(),
        ensures
            self.selection is None ==> r is None,
            self.selection matches Some(sel) ==> r matches Some(t) && t@ == self.filepath@.subrange(
                min_u16(sel, self.cursor) as int, max_u16(sel, self.cursor) as int),
    {
        match self.selection {
            None => None,
            Some(sel) => {
                let min = if sel < self.cursor { sel } else { self.cursor };
                let max = if sel < self.cursor { self.cursor } else { sel };
                let mut t: Vec<char> = Vec::new();
                let mut i: u16 = min;
                while i < max
                    invariant
                        min <= i <= max <= self.filepath@.len(),
                        t@ == self.filepath@.subrange(min as int, i as int),
                    decreases max - i,
                {
                    t.push(self.filepath[i as usize]);
                    assert(t@ =~= self.filepath@.subrange(min as int, i + 1));
                    i = i + 1;
                }
                Some(t)
            },
        }
    }

    /// Cuts the selection: returns its text, which goes from the line, the
    /// cursor at its start; nothing without a selection.
    pub fn cut(&mut self) -> (r: Option<Vec<char>>)
        requires
            old(self).wf(),
        ensures
            final(self).wf(),
            final(self).last_content_rect == old(self).last_content_rect,
            old(self).selection is None ==> r is None && *final(self) == *old(self),
            old(self).selection matches Some(sel) ==> r matches Some(t) && t@ == old(self).filepath@.subrange(
                min_u16(sel, old(self).cursor) as int, max_u16(sel, old(self).cursor) as int)
                && final(self).filepath@ == old(self).without_selection().0
                && final(self).cursor == old(self).without_selection().1
                && final(self).selection is None,
    {
        let t = self.selected();
        if t.is_some() {
            self.remove_selection();
        }
        t
    }

    /// Pastes `clip` at the cursor, in place of the selection where there is
    /// one; text with a line break is refused with a message.
    #[verifier::loop_isolation(false)]
    pub fn paste(&mut self, clip: &str, logs: &mut Vec<Log>) -> (r: Result<(), ()>)
        requires
            old(self).wf(),
            old(self).filepath@.len() + clip@.len() <= u16::MAX,
        ensures
            final(self).wf(),
            final(self).last_content_rect == old(self).last_content_rect,
            r is Err <==> clip@.contains('\n'),
            r is Err ==> *final(self) == *old(self) && final(logs)@ == old(logs)@.push(final(logs)@.last())
                && final(logs)@.last().message@ == "There is enter in your pasting thingy"@
                && final(logs)@.last().color == LogColor::Error,
            r is Ok ==> ({
                let (s, c) = old(self).without_selection();
                &&& final(self).filepath@ == s.take(c as int) + clip@ + s.skip(c as int)
                &&& final(self).cursor == c + clip@.len()
                &&& final(self).selection is None
                &&& final(logs)@ == old(logs)@
            }),
    {
        let n = clip.unicode_len();
        let mut k: usize = 0;
        while k < n
            invariant
                k <= n == clip@.len(),
                forall|j: int| 0 <= j < k ==> clip@[j] != '\n',
                logs@ == old(logs)@,
                *self == *old(self),
            decreases n - k,
        {
            if clip.get_char(k) == '\n' {
                logs.push(Log::new("There is enter in your pasting thingy", LogColor::Error));
                return Err(());
            }
            k = k + 1;
        }
        self.remove_selection();
        let ghost s = self.filepath@;
        let c = self.cursor;
        let mut tail: Vec<char> = Vec::new();
        let m = self.filepath.len();
        let mut i: usize = c as usize;
        while i < m
            invariant
                c <= i <= m == s.len(),
                self.filepath@ == s,
                tail@ == s.subrange(c as int, i as int),
            decreases m - i,
        {
            tail.push(self.filepath[i]);
            assert(tail@ =~= s.subrange(c as int, i + 1));
            i = i + 1;
        }
        self.filepath.truncate(c as usize);
        let mut j: usize = 0;
        while j < n
            invariant
                j <= n == clip@.len(),
                self.filepath@ == s.take(c as int) + clip@.take(j as int),
                self.last_content_rect == old(self).last_content_rect,
                self.selection is None,
                self.cursor == c,
            decreases n - j,
        {
            self.filepath.push(clip.get_char(j));
            assert(clip@.take(j + 1) =~= clip@.take(j as int).push(clip@[j as int]));
            j = j + 1;
        }
        self.filepath.append(&mut tail);
        assert(clip@.take(n as int) =~= clip@);
        assert(self.filepath@ =~= s.take(c as int) + clip@ + s.skip(c as int));
        self.cursor = c + n as u16;
        Ok(())
    }
}

/// Saving to a typed path: the line, and the messages of the commands run
/// while it is open.
pub struct SaveAsMode {
    pub data: SaveAsData,
    pub my_logs_collected: Vec<Log>,
}

impl SaveAsMode {
    /// Opens the prompt over the content area `last_content_rect`: an empty
    /// line with no messages collected, the messages replaced by the prompt
    /// and the empty path, and the terminal cursor at the start of the line
    /// below the content (it would overflow past `u16::MAX` rows).
    pub fn new(logs: &mut Vec<Log>, last_content_rect: Rect, terminal_cursor: &mut TerminalCursor) -> (r: SaveAsMode)
        requires
            last_content_rect.height < u16::MAX,
        ensures
            r.data.wf(),
            r.data.filepath@.len() == 0,
            r.data.cursor == 0,
            r.data.selection is None,
            r.data.last_content_rect == last_content_rect,
            r.my_logs_collected@.len() == 0,
            final(logs)@.len() == 2,
            final(logs)@[0].message@ == "Save to file:"@,
            final(logs)@[0].color == LogColor::Info,
            final(logs)@[1].message@.len() == 0,
            final(logs)@[1].color == LogColor::Info,
            cursor_at(*old(terminal_cursor), *final(terminal_cursor), 0, (last_content_rect.height + 1) as u16),
    {
        let mut m = SaveAsMode { data: SaveAsData::new(), my_logs_collected: Vec::new() };
        let prev = logs.len();
        m.refresh(logs, prev, last_content_rect, terminal_cursor);
        m
    }

    /// The path typed, as a string.
    pub fn path(&self) -> (r: String)
        ensures
            r@ == self.data.filepath@,
    {
        let mut r = string_with_capacity(self.data.filepath.len());
        let mut i: usize = 0;
        while i < self.data.filepath.len()
            invariant
                i <= self.data.filepath@.len(),
                r@ == self.data.filepath@.take(i as int),
            decreases self.data.filepath@.len() - i,
        {
            string_push(&mut r, self.data.filepath[i]);
            assert(r@ =~= self.data.filepath@.take(i + 1));
            i = i + 1;
        }
        assert(self.data.filepath@.take(i as int) =~= self.data.filepath@);
        r
    }

    /// After an event that left the prompt open over the content area
    /// `last_content_rect`: the messages are shown as [`SaveAsMode::show`]
    /// leaves them, and the terminal cursor stands at the cursor in the line
    /// below the content (it would overflow past `u16::MAX` rows), or is
    /// hidden where something is selected.
    pub fn refresh(&mut self, logs: &mut Vec<Log>, prev_count: usize, last_content_rect: Rect,
        terminal_cursor: &mut TerminalCursor)
        requires
            prev_count <= old(logs)@.len(),
            old(self).data.selection is None ==> last_content_rect.height < u16::MAX,
        ensures
            final(self).data == (SaveAsData { last_content_rect, ..old(self).data }),
            shown(old(self).my_logs_collected@, old(logs)@, prev_count, old(self).data.filepath@,
                final(self).my_logs_collected@, final(logs)@),
            old(self).data.selection is None ==> cursor_at(*old(terminal_cursor), *final(terminal_cursor),
                old(self).data.cursor, (last_content_rect.height + 1) as u16),
            old(self).data.selection is Some ==> cursor_hidden_from(*old(terminal_cursor), *final(terminal_cursor)),
    {
        self.data.last_content_rect = last_content_rect;
        let path = self.path();
        match self.show(logs, prev_count, path) {
            Some(c) => terminal_cursor.set_to((c, last_content_rect.height + 1)),
            None => terminal_cursor.hide_cursor(),
        }
    }

    /// After an event that left the mode open: the messages added since
    /// `prev_count` are kept, and the messages become those kept, then the
    /// prompt and the path typed. Returns the column of the terminal cursor,
    /// or `None` where a selection hides it.
    pub fn show(&mut self, logs: &mut Vec<Log>, prev_count: usize, path: String) -> (r: Option<u16>)
        requires
            prev_count <= old(logs)@.len(),
            path@ == old(self).data.filepath@,
        ensures
            final(self).data == old(self).data,
            final(self).my_logs_collected@.len() == old(self).my_logs_collected@.len() + old(logs)@.len() - prev_count,
            forall|i: int| 0 <= i < final(self).my_logs_collected@.len() ==> log_eq(#[trigger] final(self).my_logs_collected@[i],
                if i < old(self).my_logs_collected@.len() { old(self).my_logs_collected@[i] }
                else { old(logs)@[prev_count + i - old(self).my_logs_collected@.len()] }),
            final(logs)@.len() == final(self).my_logs_collected@.len() + 2,
            forall|i: int| 0 <= i < final(self).my_logs_collected@.len() ==> #[trigger] log_eq(final(logs)@[i], final(self).my_logs_collected@[i]),
            final(logs)@[final(logs)@.len() - 2].message@ == "Save to file:"@,
            final(logs)@[final(logs)@.len() - 2].color == LogColor::Info,
            final(logs)@[final(logs)@.len() - 1].message@ == path@,
            final(logs)@[final(logs)@.len() - 1].color == LogColor::Info,
            r == (if old(self).data.selection is Some { None } else { Some(old(self).data.cursor) }),
    {
        let n = logs.len();
        let mut i: usize = prev_count;
        let ghost k0 = self.my_logs_collected@.len();
        while i < n
            invariant
                prev_count <= i <= n == logs@.len(),
                logs@ == old(logs)@,
                self.data == old(self).data,
                self.my_logs_collected@.len() == k0 + i - prev_count,
                k0 == old(self).my_logs_collected@.len(),
                forall|j: int| 0 <= j < self.my_logs_collected@.len() ==> log_eq(#[trigger] self.my_logs_collected@[j],
                    if j < k0 { old(self).my_logs_collected@[j] } else { old(logs)@[prev_count + j - k0] }),
            decreases n - i,
        {
            let l = logs[i].clone_log();
            self.my_logs_collected.push(l);
            i = i + 1;
        }
        logs.clear();
        let m = self.my_logs_collected.len();
        let mut j: usize = 0;
        while j < m
            invariant
                j <= m == self.my_logs_collected@.len(),
                logs@.len() == j,
                forall|k: int| 0 <= k < j ==> #[trigger] log_eq(logs@[k], self.my_logs_collected@[k]),
            decreases m - j,
        {
            logs.push(self.my_logs_collected[j].clone_log());
            j = j + 1;
        }
        logs.push(Log::new("Save to file:", LogColor::Info));
        logs.push(Log { message: path, color: LogColor::Info });
        match self.data.selection {
            Some(_) => None,
            None => Some(self.data.cursor),
        }
    }
}

/// The terminal cursor `t1` is `t0` moved to `(x, y)` and shown.
pub open spec fn cursor_at(t0: TerminalCursor, t1: TerminalCursor, x: u16, y: u16) -> bool {
    &&& t1.x == x
    &&& t1.y == y
    &&& t1.cursor_showing
    &&& t1.render_cursor_showing == (t0.render_cursor_showing || !t0.cursor_showing)
}

/// The terminal cursor `t1` is `t0` hidden.
pub open spec fn cursor_hidden_from(t0: TerminalCursor, t1: TerminalCursor) -> bool {
    &&& t1.x == t0.x
    &&& t1.y == t0.y
    &&& !t1.cursor_showing
    &&& t1.render_cursor_showing == (t0.render_cursor_showing || t0.cursor_showing)
}

/// The messages `l1` and the collection `k1` after showing the prompt with
/// the path `path`: the messages from `prev_count` on in `l0` are added to
/// the collection `k0`, and the messages become the collection, then the
/// prompt, then the path.
pub open spec fn shown(k0: Seq<Log>, l0: Seq<Log>, prev_count: usize, path: Seq<char>, k1: Seq<Log>, l1: Seq<Log>) -> bool {
    &&& k1.len() == k0.len() + l0.len() - prev_count
    &&& forall|i: int| 0 <= i < k1.len() ==> log_eq(#[trigger] k1[i],
        if i < k0.len() { k0[i] } else { l0[prev_count + i - k0.len()] })
    &&& l1.len() == k1.len() + 2
    &&& forall|i: int| 0 <= i < k1.len() ==> #[trigger] log_eq(l1[i], k1[i])
    &&& l1[l1.len() - 2].message@ == "Save to file:"@
    &&& l1[l1.len() - 2].color == LogColor::Info
    &&& l1[l1.len() - 1].message@ == path
    &&& l1[l1.len() - 1].color == LogColor::Info
}

/// Two messages say the same in the same colour.
pub open spec fn log_eq(a: Log, b: Log) -> bool {
    a.message@ == b.message@ && a.color == b.color
}

impl Log {
    /// A copy of the message.
    pub fn clone_log(&self) -> (r: Log)
        ensures
            log_eq(r, *self),
    {
        Log { message: self.message.clone(), color: self.color }
    }
}

} // verus!
