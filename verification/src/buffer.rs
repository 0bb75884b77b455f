//! A file open for editing: its text, carets, scroll and undo history.
use crate::caret::Carets;
use crate::checkpoints::{committed, commit_ok, deadline_in_millis, Checkpoints, DURATION_BIG_TIMER_MS};
use crate::content::Content;
use crate::line_ending::{detected_ending, join, le_bytes, split_lines, LineEnding};
use crate::log::{Log, LogColor};
use crate::scrollbar::CustomScrollbar;
use vstd::prelude::*;

verus! {

/// A file open for editing.
pub struct Buffer {
    pub path: String,
    pub showing_filename: String,
    pub carets: Carets,
    pub content: Content,
    pub scrollbar: CustomScrollbar,
    pub drag_start_pos: (usize, usize),
    pub tab_size: usize,
    pub modified: bool,
    pub line_ending: LineEnding,
    pub checkpoints: Checkpoints,
}

/// What [`Buffer::commit`] makes of the buffer `b0` and the messages `l0`: the
/// edit in progress at each caret is recorded as [`Checkpoints::commit`] does,
/// where the carets meet what that needs (otherwise it would panic); nothing
/// changes otherwise. Only the history, the carets and the messages change.
pub open spec fn commit_rel(b0: Buffer, l0: Seq<Log>, b1: Buffer, l1: Seq<Log>) -> bool {
    &&& commit_ok(b0.carets.carets@, b0.content@) ==> committed(b0.checkpoints, b0.carets.carets@, l0,
        b0.content@, b1.checkpoints, b1.carets.carets@, l1)
    &&& !commit_ok(b0.carets.carets@, b0.content@) ==> b1 == b0 && l1 == l0
    &&& b1.content == b0.content
    &&& b1.scrollbar == b0.scrollbar
    &&& b1.modified == b0.modified
    &&& b1.path == b0.path
    &&& b1.showing_filename == b0.showing_filename
    &&& b1.drag_start_pos == b0.drag_start_pos
    &&& b1.tab_size == b0.tab_size
    &&& b1.line_ending == b0.line_ending
}

impl Buffer {
    /// The history is within its bounds and a tab is at least one column.
    pub open spec fn wf(&self) -> bool {
        &&& self.checkpoints.wf()
        &&& self.tab_size > 0
    }

    /// A buffer on the text `text` read from `path`, shown as
    /// `showing_filename`: one caret at the start, not scrolled, tabs of four
    /// columns, unmodified, with an empty history.
    pub fn new(path: String, showing_filename: String, text: &str) -> (r: Buffer)
        ensures
            r.wf(),
            r.path == path,
            r.showing_filename == showing_filename,
            r.content@ == split_lines(vstd::utf8::encode_utf8(text@)),
            r.line_ending == detected_ending(vstd::utf8::encode_utf8(text@)),
            r.carets.carets@.len() == 1,
            r.carets.carets@[0].pos().cursor.line == 0,
            r.carets.carets@[0].pos().cursor.col == 0,
            r.carets.carets@[0].pos().selection.none,
            r.scrollbar.position == 0,
            r.scrollbar.top_position == 0,
            !r.scrollbar.freeze,
            r.drag_start_pos == (0usize, 0usize),
            r.tab_size == 4,
            !r.modified,
            r.checkpoints.others@.len() == 0,
            r.checkpoints.cursor_lened == 0,
            r.checkpoints.little_timer_deadline is None,
            r.checkpoints.big_timer_deadline is None,
    {
        let (content, line_ending) = Content::from_text(text);
        Buffer {
            path,
            showing_filename,
            carets: Carets::new(),
            content,
            scrollbar: CustomScrollbar::new(),
            drag_start_pos: (0, 0),
            tab_size: 4,
            modified: false,
            line_ending,
            checkpoints: Checkpoints::new(),
        }
    }

    /// Marks the buffer modified and starts the long timer for recording
    /// the edit, unless it runs already.
    pub fn buffer_modified(&mut self)
        ensures
            final(self).modified,
            final(self).checkpoints.big_timer_deadline is Some,
            old(self).checkpoints.big_timer_deadline is Some
                ==> final(self).checkpoints.big_timer_deadline == old(self).checkpoints.big_timer_deadline,
            final(self).checkpoints.little_timer_deadline == old(self).checkpoints.little_timer_deadline,
            final(self).checkpoints.others == old(self).checkpoints.others,
            final(self).checkpoints.cursor_lened == old(self).checkpoints.cursor_lened,
            final(self).content == old(self).content,
            final(self).carets == old(self).carets,
            final(self).scrollbar == old(self).scrollbar,
            final(self).path == old(self).path,
            final(self).showing_filename == old(self).showing_filename,
            final(self).drag_start_pos == old(self).drag_start_pos,
            final(self).tab_size == old(self).tab_size,
            final(self).line_ending == old(self).line_ending,
    {
        self.modified = true;
        if self.checkpoints.big_timer_deadline.is_none() {
            self.checkpoints.big_timer_deadline = Some(deadline_in_millis(DURATION_BIG_TIMER_MS));
        }
    }

    /// Refuses to close a modified buffer, saying so.
    pub fn try_quit(&mut self, logs: &mut Vec<Log>) -> (r: Result<(), ()>)
        ensures
            *final(self) == *old(self),
            r is Ok <==> !old(self).modified,
            old(self).modified ==> final(logs)@ == old(logs)@.push(final(logs)@.last())
                && final(logs)@.last().message@ == "Buffer is modified, try save it first"@
                && final(logs)@.last().color == LogColor::Info,
            !old(self).modified ==> final(logs)@ == old(logs)@,
    {
        if self.modified {
            logs.push(Log::new("Buffer is modified, try save it first", LogColor::Info));
            Err(())
        } else {
            Ok(())
        }
    }

    /// The bytes a save writes: the lines joined with the buffer's line
    /// ending.
    pub fn save_bytes(&self) -> (r: Vec<u8>)
        ensures
            r@ == join(self.content@, le_bytes(self.line_ending)),
    {
        self.content.to_bytes(self.line_ending)
    }

    /// After the file was written: the buffer is no longer modified, and a
    /// message says so.
    pub fn saved(&mut self, logs: &mut Vec<Log>)
        ensures
            *final(self) == (Buffer { modified: false, ..*old(self) }),
            final(logs)@ == old(logs)@.push(final(logs)@.last()),
            final(logs)@.last().message@ == "[I:1] File Saved!"@,
            final(logs)@.last().color == LogColor::Default,
    {
        self.modified = false;
        logs.push(Log::new("[I:1] File Saved!", LogColor::Default));
    }

    /// Records the edit in progress at each caret as a checkpoint (see
    /// [`commit_rel`]).
    pub fn commit(&mut self, logs: &mut Vec<Log>)
        requires
            old(self).wf(),
        ensures
            final(self).wf(),
            commit_rel(*old(self), old(logs)@, *final(self), final(logs)@),
    {
        if Checkpoints::can_commit(&self.carets, &self.content) {
            self.checkpoints.commit(&mut self.carets, logs, &self.content);
        }
    }
}

} // verus!
