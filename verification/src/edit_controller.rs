//! The editing commands of a buffer: typing, deleting, undo and redo,
//! clipboard, scrolling and the mouse.
use crate::buffer::{commit_rel, Buffer};
use crate::cursor::{is_variable_at, variable_at, clamp, goal_col, next_word_col, prev_word_col, run_backward, run_forward, skip_spaces_backward, Cursor, HorizontalGoal};
use crate::caret::{cursor_added, cursors_fit, merged, scrolled_to_cursors, scrolled_to_selections, sorted_by_min, Caret, Carets, CursorEditor, Position};
use crate::checkpoints::{CheckpointEdit, Checkpoints, SingleEdit};
use crate::content::{replace_plain_post, replace_requires, leading_ws, lemma_leading_ws_run, whitespaces_in_the_start_of_the_line, Content};
use crate::edit_operators::{copy_text, edit_step, materialized, ranges_in, same_frame, same_history, spaces, split_at_byte, trimmed};
use crate::content::selected_texts;
use crate::line_ending::{join, le_bytes};
use crate::scrollbar::CustomScrollbar;
use vstd::utf8::encode_utf8;
use crate::selection::Selection;
use crate::history::ls_lines;
use crate::little_string::LittleString;
use crate::log::{Log, LogColor};
use crate::mostly_one_vec::MostlyOneVec;
use crate::scrollbar::Rect;
use vstd::prelude::*;

verus! {

broadcast use vstd::seq_lib::group_to_multiset_ensures;

/// The texts `c` and carets `cs` pass through one edit at each caret `k` in
/// turn: the carets are first prepared by `prep`, then the range of caret
/// `k` is replaced by `news[k]`, well-formed little strings whose bytes are
/// the lines `lines` gives for that step (see [`edit_step`]).
pub open spec fn edit_chain(
    c: Seq<Seq<Seq<u8>>>,
    cs: Seq<Seq<Caret>>,
    news: Seq<Seq<LittleString>>,
    prep: spec_fn(Seq<Seq<u8>>, Seq<Caret>, int) -> Seq<Caret>,
    lines: spec_fn(Seq<Seq<u8>>, Seq<Caret>, int) -> Seq<Seq<u8>>,
) -> bool {
    &&& c.len() == news.len() + 1
    &&& cs.len() == news.len() + 1
    &&& forall|k: int| 0 <= k < news.len() ==> #[trigger] edit_step(c[k], prep(c[k], cs[k], k), k, news[k], c[k + 1], cs[k + 1])
    &&& forall|k: int| 0 <= k < news.len() ==> ls_lines(#[trigger] news[k]) == lines(c[k], prep(c[k], cs[k], k), k)
    &&& forall|k: int, j: int| 0 <= k < news.len() && 0 <= j < news[k].len() ==> (#[trigger] news[k][j]).wf()
}

/// `b1` is `b0` after one edit at each of its carets in turn (see
/// [`edit_chain`]); the history keeps its checkpoints.
pub open spec fn edited_each(
    b0: Buffer,
    b1: Buffer,
    prep: spec_fn(Seq<Seq<u8>>, Seq<Caret>, int) -> Seq<Caret>,
    lines: spec_fn(Seq<Seq<u8>>, Seq<Caret>, int) -> Seq<Seq<u8>>,
) -> bool {
    &&& exists|c: Seq<Seq<Seq<u8>>>, cs: Seq<Seq<Caret>>, news: Seq<Seq<LittleString>>|
        #![trigger edit_chain(c, cs, news, prep, lines)]
        edit_chain(c, cs, news, prep, lines) && news.len() == b0.carets.carets@.len()
        && c[0] == b0.content@ && cs[0] == b0.carets.carets@ && c.last() == b1.content@
        && cs.last() == b1.carets.carets@
    &&& same_history(b0.checkpoints, b1.checkpoints)
    &&& same_frame(b0, b1)
}

/// The carets as they are.
pub open spec fn no_prep() -> spec_fn(Seq<Seq<u8>>, Seq<Caret>, int) -> Seq<Caret> {
    |c: Seq<Seq<u8>>, cs: Seq<Caret>, k: int| cs
}

/// The single byte of a typed character (its code cut to a byte).
pub open spec fn char_lines(ch: char) -> spec_fn(Seq<Seq<u8>>, Seq<Caret>, int) -> Seq<Seq<u8>> {
    |c: Seq<Seq<u8>>, cs: Seq<Caret>, k: int| seq![seq![ch as u8]]
}

/// `b1` is `b0` with the virtual spaces of its carets made real (see
/// [`materialized`]).
pub open spec fn materialized_rel(b0: Buffer, b1: Buffer) -> bool {
    &&& materialized(b0.content@, b0.carets.carets@, b1.content@, b1.carets.carets@)
    &&& same_history(b0.checkpoints, b1.checkpoints)
    &&& same_frame(b0, b1)
}

/// `b1` is `b0` marked modified, with the long timer of the history started
/// where it did not run.
pub open spec fn modified_rel(b0: Buffer, b1: Buffer) -> bool {
    &&& b1 == Buffer {
        modified: true,
        checkpoints: Checkpoints { big_timer_deadline: b1.checkpoints.big_timer_deadline, ..b0.checkpoints },
        ..b0
    }
    &&& b1.checkpoints.big_timer_deadline is Some
    &&& b0.checkpoints.big_timer_deadline is Some ==> b1.checkpoints.big_timer_deadline == b0.checkpoints.big_timer_deadline
}

/// The carets `b` are what [`Carets::merge`] makes of `a`, where no caret
/// of `a` without selection has its cursor at the last column (measuring it
/// one column wide would overflow); otherwise they are `a`.
pub open spec fn merge_result(a: Seq<Caret>, b: Seq<Caret>) -> bool {
    if cursors_fit(a) {
        exists|s: Seq<Caret>| #![trigger merged(s)]
            s.to_multiset() == a.to_multiset() && s.len() == a.len() && sorted_by_min(s) && b == merged(s)
    } else {
        b == a
    }
}

/// `b1` is `b0` with its carets merged (see [`merge_result`]).
pub open spec fn merged_rel(b0: Buffer, b1: Buffer) -> bool {
    &&& merge_result(b0.carets.carets@, b1.carets.carets@)
    &&& b1 == Buffer { carets: b1.carets, ..b0 }
}

/// `b1` is `b0` with its view scrolled to follow its carets (see
/// [`Carets::ensure_cursors_visible`]).
pub open spec fn scrolled_rel(b0: Buffer, b1: Buffer, r: Rect) -> bool {
    b1 == Buffer {
        scrollbar: scrolled_to_cursors(scrolled_to_selections(b0.scrollbar, b0.carets.carets@, r), b0.carets.carets@, r),
        ..b0
    }
}

/// `b1` is `b0` marked modified, with its carets merged, then its view
/// scrolled to them: how every edit ends.
pub open spec fn finished(b0: Buffer, b1: Buffer, r: Rect) -> bool {
    exists|m1: Buffer, m2: Buffer| #![trigger modified_rel(b0, m1), merged_rel(m1, m2)]
        modified_rel(b0, m1) && merged_rel(m1, m2) && scrolled_rel(m2, b1, r)
}

/// `b1` is `b0` after typing `ch` at every caret (see
/// [`Buffer::place_char`]): virtual spaces made real, the byte put in at
/// each caret in turn, then the edit finished.
pub open spec fn char_placed(b0: Buffer, ch: char, r: Rect, b1: Buffer) -> bool {
    exists|m1: Buffer, m2: Buffer| #![trigger materialized_rel(b0, m1), edited_each(m1, m2, no_prep(), char_lines(ch))]
        materialized_rel(b0, m1) && edited_each(m1, m2, no_prep(), char_lines(ch)) && finished(m2, b1, r)
}

impl Buffer {
    /// Merges the carets, where no caret without selection has its cursor at
    /// the last column.
    fn merge_carets(&mut self)
        ensures
            merged_rel(*old(self), *final(self)),
    {
        let n = self.carets.carets.len();
        let mut i: usize = 0;
        while i < n
            invariant
                i <= n == self.carets.carets@.len(),
                forall|k: int| 0 <= k < i ==> ((#[trigger] self.carets.carets@[k]).pos().selection.none
                    ==> self.carets.carets@[k].pos().cursor.col < usize::MAX),
            decreases n - i,
        {
            let p = self.carets.carets.index(i).get_position();
            if p.selection.none && p.cursor.col == usize::MAX {
                return;
            }
            i = i + 1;
        }
        self.carets.merge();
    }

    /// Scrolls the view to follow the carets.
    fn follow_carets(&mut self, last_content_rect: Rect)
        ensures
            scrolled_rel(*old(self), *final(self), last_content_rect),
    {
        self.carets.ensure_cursors_visible(&mut self.scrollbar, last_content_rect);
    }

    /// Marks the buffer modified, merges the carets and scrolls to them.
    fn finish(&mut self, last_content_rect: Rect)
        requires
            old(self).wf(),
        ensures
            final(self).wf(),
            finished(*old(self), *final(self), last_content_rect),
    {
        self.buffer_modified();
        let ghost m1 = *self;
        self.merge_carets();
        let ghost m2 = *self;
        self.follow_carets(last_content_rect);
        assert(modified_rel(*old(self), m1));
        assert(merged_rel(m1, m2));
    }

    /// Types `ch` at every caret, after making its virtual spaces real; the
    /// messages are cleared.
    pub fn place_char(&mut self, ch: char, last_content_rect: Rect, logs: &mut Vec<Log>)
        requires
            old(self).wf(),
        ensures
            final(self).wf(),
            final(logs)@.len() == 0,
            char_placed(*old(self), ch, last_content_rect, *final(self)),
    {
        logs.clear();
        self.op_materialize_virtual_spaces();
        let ghost b1 = *self;
        let n = self.carets.carets.len();
        let ghost prep = no_prep();
        let ghost lines = char_lines(ch);
        let ghost mut ch_: Seq<Seq<Seq<u8>>> = seq![self.content@];
        let ghost mut csh: Seq<Seq<Caret>> = seq![self.carets.carets@];
        let ghost mut nh: Seq<Seq<LittleString>> = Seq::empty();
        let mut i: usize = 0;
        while i < n
            invariant
                i <= n == b1.carets.carets@.len() == self.carets.carets@.len(),
                self.wf(),
                edit_chain(ch_, csh, nh, prep, lines),
                nh.len() == i,
                ch_[0] == b1.content@,
                csh[0] == b1.carets.carets@,
                ch_.last() == self.content@,
                csh.last() == self.carets.carets@,
                same_history(b1.checkpoints, self.checkpoints),
                same_frame(b1, *self),
                prep == no_prep(),
                lines == char_lines(ch),
            decreases n - i,
        {
            let text = MostlyOneVec::One(LittleString::from_char(ch));
            let ghost c0 = self.content@;
            let ghost cs0 = self.carets.carets@;
            self.replace_at(i, &text);
            proof {
                assert(ls_lines(text@) =~= seq![seq![ch as u8]]);
                ch_ = ch_.push(self.content@);
                csh = csh.push(self.carets.carets@);
                nh = nh.push(text@);
                assert(edit_step(ch_[i as int], prep(ch_[i as int], csh[i as int], i as int), i as int, nh[i as int],
                    ch_[i + 1], csh[i + 1]));
            }
            i = i + 1;
        }
        let ghost b2 = *self;
        assert(materialized_rel(*old(self), b1));
        assert(edited_each(b1, b2, no_prep(), char_lines(ch)));
        self.finish(last_content_rect);
    }
}

/// No lines: the range is deleted.
pub open spec fn no_lines() -> spec_fn(Seq<Seq<u8>>, Seq<Caret>, int) -> Seq<Seq<u8>> {
    |c: Seq<Seq<u8>>, cs: Seq<Caret>, k: int| Seq::<Seq<u8>>::empty()
}

/// The white space that starts line `l` of `c` (none where there is no such
/// line).
pub open spec fn indent_of(c: Seq<Seq<u8>>, l: int) -> Seq<u8> {
    if 0 <= l < c.len() { c[l].take(leading_ws(c[l], 0)) } else { Seq::empty() }
}

/// A line break, then the white space that starts the line where the range
/// of caret `k` starts.
pub open spec fn newline_lines() -> spec_fn(Seq<Seq<u8>>, Seq<Caret>, int) -> Seq<Seq<u8>> {
    |c: Seq<Seq<u8>>, cs: Seq<Caret>, k: int| seq![Seq::<u8>::empty(), indent_of(c, cs[k].pos().min_lc().0)]
}

/// `b1` and the messages `l1` are what [`Buffer::place_new_line`] makes of
/// `b0`: virtual spaces dropped (see [`no_virtual_rel`]), the line broken at
/// every caret (see [`newline_lines`]), the edit recorded and finished.
pub open spec fn line_broken(b0: Buffer, r: Rect, b1: Buffer, l1: Seq<Log>) -> bool {
    exists|m1: Buffer, m2: Buffer, m3: Buffer|
        #![trigger no_virtual_rel(b0, m1), edited_each(m1, m2, no_prep(), newline_lines()), finished(m3, b1, r)]
        no_virtual_rel(b0, m1) && edited_each(m1, m2, no_prep(), newline_lines())
        && commit_rel(m2, Seq::empty(), m3, l1) && finished(m3, b1, r)
}

/// `b1` is what [`Buffer::operate_tab`] makes of `b0`: virtual spaces made
/// real, spaces put in up to the next tab stop at each caret in turn (see
/// [`tab_lines`]), then the edit finished.
pub open spec fn tabbed(b0: Buffer, r: Rect, b1: Buffer) -> bool {
    exists|m1: Buffer, m2: Buffer| #![trigger materialized_rel(b0, m1), edited_each(m1, m2, no_prep(), tab_lines(b0.tab_size))]
        materialized_rel(b0, m1) && edited_each(m1, m2, no_prep(), tab_lines(b0.tab_size)) && finished(m2, b1, r)
}

/// Spaces from the column of caret `k` to the next multiple of `tab`.
pub open spec fn tab_lines(tab: usize) -> spec_fn(Seq<Seq<u8>>, Seq<Caret>, int) -> Seq<Seq<u8>> {
    |c: Seq<Seq<u8>>, cs: Seq<Caret>, k: int| seq![spaces(tab - cs[k].pos().cursor.col % tab)]
}

/// Caret `k` after selecting the byte before its cursor, as
/// [`Caret::selection_make_backwards`] does; unchanged where the line before is
/// not in the text `c` (it would panic there).
pub open spec fn backwards(c: Seq<Seq<u8>>, k: Caret) -> Caret {
    let p = k.pos();
    if p.cursor.col == 0 && p.cursor.line == 0 {
        k
    } else if p.cursor.col == 0 {
        if p.cursor.line - 1 < c.len() {
            Caret {
                position: Position {
                    selection: Selection { line: (p.cursor.line - 1) as usize, col: c[p.cursor.line - 1].len() as usize, none: false },
                    ..p
                },
                ..k
            }
        } else {
            k
        }
    } else {
        Caret { position: Position { selection: Selection { line: p.cursor.line, col: (p.cursor.col - 1) as usize, none: false }, ..p }, ..k }
    }
}

/// Caret `k` after selecting the byte after its cursor, as
/// [`Caret::selection_make_forwards`] does; unchanged where its line is not in
/// the text `c` or its column cannot grow (it would panic there).
pub open spec fn forwards(c: Seq<Seq<u8>>, k: Caret) -> Caret {
    let p = k.pos();
    let line = p.cursor.line;
    if line >= c.len() || (p.cursor.col != c[line as int].len() && p.cursor.col == usize::MAX) {
        k
    } else if p.cursor.col == c[line as int].len() {
        if line + 1 == c.len() {
            Caret { position: Position { selection: Selection { line: (line + 1) as usize, ..p.selection }, ..p }, ..k }
        } else {
            Caret { position: Position { selection: Selection { line: (line + 1) as usize, col: 0, none: false }, ..p }, ..k }
        }
    } else {
        Caret { position: Position { selection: Selection { line, col: (p.cursor.col + 1) as usize, none: false }, ..p }, ..k }
    }
}

/// Caret `k` selects the byte before its cursor first.
pub open spec fn backward_prep() -> spec_fn(Seq<Seq<u8>>, Seq<Caret>, int) -> Seq<Caret> {
    |c: Seq<Seq<u8>>, cs: Seq<Caret>, k: int| cs.update(k, backwards(c, cs[k]))
}

/// Caret `k` selects the byte after its cursor first.
pub open spec fn forward_prep() -> spec_fn(Seq<Seq<u8>>, Seq<Caret>, int) -> Seq<Caret> {
    |c: Seq<Seq<u8>>, cs: Seq<Caret>, k: int| cs.update(k, forwards(c, cs[k]))
}

/// `b1` is `b0` with every cursor and anchor past the end of its line moved
/// back to it (see [`trimmed`]).
pub open spec fn no_virtual_rel(b0: Buffer, b1: Buffer) -> bool {
    &&& b1.content == b0.content
    &&& b1.checkpoints == b0.checkpoints
    &&& same_frame(b0, b1)
    &&& b1.carets.carets@.len() == b0.carets.carets@.len()
    &&& forall|i: int| 0 <= i < b0.carets.carets@.len()
        ==> #[trigger] b1.carets.carets@[i] == trimmed(b0.content@, b0.carets.carets@[i])
}

/// `b1` and the messages `l1` are what [`Buffer::operate_backspace`] makes
/// of `b0`: virtual spaces dropped (see [`no_virtual_rel`]); then, where some
/// caret has a selection, every range deleted and the edit recorded;
/// otherwise the byte (or line break) before every cursor deleted, the edit
/// recorded where some cursor was at the start of its line; then the edit
/// finished.
pub open spec fn deleted_backward(b0: Buffer, r: Rect, b1: Buffer, l1: Seq<Log>) -> bool {
    exists|m1: Buffer, m2: Buffer, m3: Buffer|
        #![trigger no_virtual_rel(b0, m1), finished(m3, b1, r), edited_each(m1, m2, no_prep(), no_lines())]
        #![trigger no_virtual_rel(b0, m1), finished(m3, b1, r), edited_each(m1, m2, backward_prep(), no_lines())]
        no_virtual_rel(b0, m1) && finished(m3, b1, r)
        && (some_selected(m1.carets.carets@) ==> edited_each(m1, m2, no_prep(), no_lines())
            && commit_rel(m2, Seq::empty(), m3, l1))
        && (!some_selected(m1.carets.carets@) ==> edited_each(m1, m2, backward_prep(), no_lines())
            && (some_at_line_start(m1.carets.carets@) ==> commit_rel(m2, Seq::empty(), m3, l1))
            && (!some_at_line_start(m1.carets.carets@) ==> m3 == m2 && l1.len() == 0))
}

/// `b1` and the messages `l1` are what [`Buffer::operate_delete`] makes of
/// `b0`: virtual spaces dropped (see [`no_virtual_rel`]); then, where some
/// caret has a selection, every range deleted and the edit recorded;
/// otherwise the byte (or line break) after every cursor deleted, the edit
/// recorded where some cursor was at the end of its line; then the edit
/// finished.
pub open spec fn deleted_forward(b0: Buffer, r: Rect, b1: Buffer, l1: Seq<Log>) -> bool {
    exists|m1: Buffer, m2: Buffer, m3: Buffer|
        #![trigger no_virtual_rel(b0, m1), finished(m3, b1, r), edited_each(m1, m2, no_prep(), no_lines())]
        #![trigger no_virtual_rel(b0, m1), finished(m3, b1, r), edited_each(m1, m2, forward_prep(), no_lines())]
        no_virtual_rel(b0, m1) && finished(m3, b1, r)
        && (some_selected(m1.carets.carets@) ==> edited_each(m1, m2, no_prep(), no_lines())
            && commit_rel(m2, Seq::empty(), m3, l1))
        && (!some_selected(m1.carets.carets@) ==> edited_each(m1, m2, forward_prep(), no_lines())
            && (some_at_line_end(m1.content@, m1.carets.carets@) ==> commit_rel(m2, Seq::empty(), m3, l1))
            && (!some_at_line_end(m1.content@, m1.carets.carets@) ==> m3 == m2 && l1.len() == 0))
}

/// Some caret has a selection.
pub open spec fn some_selected(cs: Seq<Caret>) -> bool {
    exists|i: int| 0 <= i < cs.len() && !(#[trigger] cs[i]).pos().selection.none
}

/// Some cursor is at the start of its line.
pub open spec fn some_at_line_start(cs: Seq<Caret>) -> bool {
    exists|i: int| 0 <= i < cs.len() && (#[trigger] cs[i]).pos().cursor.col == 0
}

/// Some cursor is at the end of its line, which lies in the text `c`.
pub open spec fn some_at_line_end(c: Seq<Seq<u8>>, cs: Seq<Caret>) -> bool {
    exists|i: int| 0 <= i < cs.len() && (#[trigger] cs[i]).pos().cursor.line < c.len()
        && cs[i].pos().cursor.col == c[cs[i].pos().cursor.line as int].len()
}

/// Whether some caret has a selection.
fn any_selected(carets: &Carets) -> (r: bool)
    ensures
        r == some_selected(carets.carets@),
{
    carets.any_selected()
}

/// Whether some cursor is at the start of its line.
fn any_at_line_start(carets: &Carets) -> (r: bool)
    ensures
        r == some_at_line_start(carets.carets@),
{
    let n = carets.carets.len();
    let mut i: usize = 0;
    while i < n
        invariant
            i <= n == carets.carets@.len(),
            forall|k: int| 0 <= k < i ==> (#[trigger] carets.carets@[k]).pos().cursor.col != 0,
        decreases n - i,
    {
        if carets.carets.index(i).get_position().cursor.col == 0 {
            return true;
        }
        i = i + 1;
    }
    false
}

/// Whether some cursor is at the end of its line.
fn any_at_line_end(carets: &Carets, content: &Content) -> (r: bool)
    ensures
        r == some_at_line_end(content@, carets.carets@),
{
    let n = carets.carets.len();
    let mut i: usize = 0;
    while i < n
        invariant
            i <= n == carets.carets@.len(),
            forall|k: int| 0 <= k < i ==> !((#[trigger] carets.carets@[k]).pos().cursor.line < content@.len()
                && carets.carets@[k].pos().cursor.col == content@[carets.carets@[k].pos().cursor.line as int].len()),
        decreases n - i,
    {
        let p = carets.carets.index(i).get_position();
        if p.cursor.line < content.len() && p.cursor.col == content.index(p.cursor.line).len() {
            return true;
        }
        i = i + 1;
    }
    false
}

impl Buffer {
    /// Breaks the line at every caret, keeping the white space that starts
    /// the line, after moving carets past the end of their line back to it;
    /// then records the edit. The messages are cleared first.
    pub fn place_new_line(&mut self, last_content_rect: Rect, logs: &mut Vec<Log>)
        requires
            old(self).wf(),
        ensures
            final(self).wf(),
            line_broken(*old(self), last_content_rect, *final(self), final(logs)@),
    {
        logs.clear();
        self.op_no_virtual_spaces();
        let ghost b1 = *self;
        let n = self.carets.carets.len();
        let ghost prep = no_prep();
        let ghost lines = newline_lines();
        let ghost mut ch_: Seq<Seq<Seq<u8>>> = seq![self.content@];
        let ghost mut csh: Seq<Seq<Caret>> = seq![self.carets.carets@];
        let ghost mut nh: Seq<Seq<LittleString>> = Seq::empty();
        let mut i: usize = 0;
        while i < n
            invariant
                i <= n == b1.carets.carets@.len() == self.carets.carets@.len(),
                self.wf(),
                edit_chain(ch_, csh, nh, prep, lines),
                nh.len() == i,
                ch_[0] == b1.content@,
                csh[0] == b1.carets.carets@,
                ch_.last() == self.content@,
                csh.last() == self.carets.carets@,
                same_history(b1.checkpoints, self.checkpoints),
                same_frame(b1, *self),
                prep == no_prep(),
                lines == newline_lines(),
            decreases n - i,
        {
            let ghost c0 = self.content@;
            let ghost cs0 = self.carets.carets@;
            let min = self.carets.carets.index(i).get_position().get_min();
            let mut text: MostlyOneVec<LittleString> = MostlyOneVec::Zero;
            text.push(LittleString::empty());
            if min.0 < self.content.len() {
                let l = self.content.index(min.0);
                let ws = whitespaces_in_the_start_of_the_line(l.as_slice());
                proof {
                    lemma_leading_ws_run(l@, 0);
                    assert(l@.subrange(0, leading_ws(l@, 0)) =~= ws@);
                }
                text.push(LittleString::from_iter(ws));
            } else {
                text.push(LittleString::empty());
            }
            assert(ls_lines(text@) =~= newline_lines()(c0, cs0, i as int));

            self.replace_at(i, &text);
            proof {
                ch_ = ch_.push(self.content@);
                csh = csh.push(self.carets.carets@);
                nh = nh.push(text@);
                assert(edit_step(ch_[i as int], prep(ch_[i as int], csh[i as int], i as int), i as int, nh[i as int],
                    ch_[i + 1], csh[i + 1]));
            }
            i = i + 1;
        }
        let ghost b2 = *self;
        assert(edited_each(b1, b2, no_prep(), newline_lines()));
        self.commit(logs);
        let ghost b3 = *self;
        assert(no_virtual_rel(*old(self), b1));
        self.finish(last_content_rect);
    }

    /// Deletes the selections, or else the byte before every cursor (the line
    /// break at the start of a line), after moving carets past the end of
    /// their line back to it. The edit is recorded where something was
    /// selected or some cursor was at the start of its line. The messages are
    /// cleared first.
    pub fn operate_backspace(&mut self, last_content_rect: Rect, logs: &mut Vec<Log>)
        requires
            old(self).wf(),
        ensures
            final(self).wf(),
            deleted_backward(*old(self), last_content_rect, *final(self), final(logs)@),
    {
        logs.clear();
        self.op_no_virtual_spaces();
        let ghost b1_ = *self;
        if any_selected(&self.carets) {
            let ghost b1 = *self;
            let n = self.carets.carets.len();
            let ghost prep = no_prep();
            let ghost lines = no_lines();
            let ghost mut ch_: Seq<Seq<Seq<u8>>> = seq![self.content@];
            let ghost mut csh: Seq<Seq<Caret>> = seq![self.carets.carets@];
            let ghost mut nh: Seq<Seq<LittleString>> = Seq::empty();
            let mut i: usize = 0;
            while i < n
                invariant
                    i <= n == b1.carets.carets@.len() == self.carets.carets@.len(),
                    self.wf(),
                    edit_chain(ch_, csh, nh, prep, lines),
                    nh.len() == i,
                    ch_[0] == b1.content@,
                    csh[0] == b1.carets.carets@,
                    ch_.last() == self.content@,
                    csh.last() == self.carets.carets@,
                    same_history(b1.checkpoints, self.checkpoints),
                    same_frame(b1, *self),
                    prep == no_prep(),
                    lines == no_lines(),
                decreases n - i,
            {
                let ghost c0 = self.content@;
                let ghost cs0 = self.carets.carets@;
                let text: MostlyOneVec<LittleString> = MostlyOneVec::Zero;
                assert(ls_lines(text@) =~= Seq::<Seq<u8>>::empty());

                self.replace_at(i, &text);
                proof {
                    ch_ = ch_.push(self.content@);
                    csh = csh.push(self.carets.carets@);
                    nh = nh.push(text@);
                    assert(edit_step(ch_[i as int], prep(ch_[i as int], csh[i as int], i as int), i as int, nh[i as int],
                        ch_[i + 1], csh[i + 1]));
                }
                i = i + 1;
            }
            let ghost b2 = *self;
            assert(edited_each(b1, b2, no_prep(), no_lines()));
            self.commit(logs);
            let ghost b3 = *self;
            self.finish(last_content_rect);
            assert(no_virtual_rel(*old(self), b1_));
        } else {
            let commit = any_at_line_start(&self.carets);
            let ghost b1 = *self;
            let n = self.carets.carets.len();
            let ghost prep = backward_prep();
            let ghost lines = no_lines();
            let ghost mut ch_: Seq<Seq<Seq<u8>>> = seq![self.content@];
            let ghost mut csh: Seq<Seq<Caret>> = seq![self.carets.carets@];
            let ghost mut nh: Seq<Seq<LittleString>> = Seq::empty();
            let mut i: usize = 0;
            while i < n
                invariant
                    i <= n == b1.carets.carets@.len() == self.carets.carets@.len(),
                    self.wf(),
                    edit_chain(ch_, csh, nh, prep, lines),
                    nh.len() == i,
                    ch_[0] == b1.content@,
                    csh[0] == b1.carets.carets@,
                    ch_.last() == self.content@,
                    csh.last() == self.carets.carets@,
                    same_history(b1.checkpoints, self.checkpoints),
                    same_frame(b1, *self),
                    prep == backward_prep(),
                    lines == no_lines(),
                decreases n - i,
            {
                let ghost c0 = self.content@;
                let ghost cs0 = self.carets.carets@;
                let p = *self.carets.carets.index(i).get_position();
                if !(p.cursor.col == 0 && p.cursor.line > 0 && p.cursor.line - 1 >= self.content.len()) {
                    self.carets.carets.index_mut(i).selection_make_backwards(&self.content);
                }
                assert(self.carets.carets@ =~= backward_prep()(c0, cs0, i as int));
                let text: MostlyOneVec<LittleString> = MostlyOneVec::Zero;
                assert(ls_lines(text@) =~= Seq::<Seq<u8>>::empty());

                self.replace_at(i, &text);
                proof {
                    ch_ = ch_.push(self.content@);
                    csh = csh.push(self.carets.carets@);
                    nh = nh.push(text@);
                    assert(edit_step(ch_[i as int], prep(ch_[i as int], csh[i as int], i as int), i as int, nh[i as int],
                        ch_[i + 1], csh[i + 1]));
                }
                i = i + 1;
            }
            let ghost b2 = *self;
            assert(edited_each(b1, b2, backward_prep(), no_lines()));
            if commit {
                self.commit(logs);
            }
            let ghost b3 = *self;
            self.finish(last_content_rect);
            assert(no_virtual_rel(*old(self), b1_));
        }
    }

    /// Deletes the selections, or else the byte after every cursor (the line
    /// break at the end of a line), after moving carets past the end of their
    /// line back to it. The edit is recorded where something was selected or
    /// some cursor was at the end of its line. The messages are cleared
    /// first.
    pub fn operate_delete(&mut self, last_content_rect: Rect, logs: &mut Vec<Log>)
        requires
            old(self).wf(),
        ensures
            final(self).wf(),
            deleted_forward(*old(self), last_content_rect, *final(self), final(logs)@),
    {
        logs.clear();
        self.op_no_virtual_spaces();
        let ghost b1_ = *self;
        if any_selected(&self.carets) {
            let ghost b1 = *self;
            let n = self.carets.carets.len();
            let ghost prep = no_prep();
            let ghost lines = no_lines();
            let ghost mut ch_: Seq<Seq<Seq<u8>>> = seq![self.content@];
            let ghost mut csh: Seq<Seq<Caret>> = seq![self.carets.carets@];
            let ghost mut nh: Seq<Seq<LittleString>> = Seq::empty();
            let mut i: usize = 0;
            while i < n
                invariant
                    i <= n == b1.carets.carets@.len() == self.carets.carets@.len(),
                    self.wf(),
                    edit_chain(ch_, csh, nh, prep, lines),
                    nh.len() == i,
                    ch_[0] == b1.content@,
                    csh[0] == b1.carets.carets@,
                    ch_.last() == self.content@,
                    csh.last() == self.carets.carets@,
                    same_history(b1.checkpoints, self.checkpoints),
                    same_frame(b1, *self),
                    prep == no_prep(),
                    lines == no_lines(),
                decreases n - i,
            {
                let ghost c0 = self.content@;
                let ghost cs0 = self.carets.carets@;
                let text: MostlyOneVec<LittleString> = MostlyOneVec::Zero;
                assert(ls_lines(text@) =~= Seq::<Seq<u8>>::empty());

                self.replace_at(i, &text);
                proof {
                    ch_ = ch_.push(self.content@);
                    csh = csh.push(self.carets.carets@);
                    nh = nh.push(text@);
                    assert(edit_step(ch_[i as int], prep(ch_[i as int], csh[i as int], i as int), i as int, nh[i as int],
                        ch_[i + 1], csh[i + 1]));
                }
                i = i + 1;
            }
            let ghost b2 = *self;
            assert(edited_each(b1, b2, no_prep(), no_lines()));
            self.commit(logs);
            let ghost b3 = *self;
            self.finish(last_content_rect);
            assert(no_virtual_rel(*old(self), b1_));
        } else {
            let commit = any_at_line_end(&self.carets, &self.content);
            let ghost b1 = *self;
            let n = self.carets.carets.len();
            let ghost prep = forward_prep();
            let ghost lines = no_lines();
            let ghost mut ch_: Seq<Seq<Seq<u8>>> = seq![self.content@];
            let ghost mut csh: Seq<Seq<Caret>> = seq![self.carets.carets@];
            let ghost mut nh: Seq<Seq<LittleString>> = Seq::empty();
            let mut i: usize = 0;
            while i < n
                invariant
                    i <= n == b1.carets.carets@.len() == self.carets.carets@.len(),
                    self.wf(),
                    edit_chain(ch_, csh, nh, prep, lines),
                    nh.len() == i,
                    ch_[0] == b1.content@,
                    csh[0] == b1.carets.carets@,
                    ch_.last() == self.content@,
                    csh.last() == self.carets.carets@,
                    same_history(b1.checkpoints, self.checkpoints),
                    same_frame(b1, *self),
                    prep == forward_prep(),
                    lines == no_lines(),
                decreases n - i,
            {
                let ghost c0 = self.content@;
                let ghost cs0 = self.carets.carets@;
                let p = *self.carets.carets.index(i).get_position();
                if p.cursor.line < self.content.len() && (p.cursor.col == self.content.index(p.cursor.line).len()
                    || p.cursor.col < usize::MAX) {
                    self.carets.carets.index_mut(i).selection_make_forwards(&self.content);
                }
                assert(self.carets.carets@ =~= forward_prep()(c0, cs0, i as int));
                let text: MostlyOneVec<LittleString> = MostlyOneVec::Zero;
                assert(ls_lines(text@) =~= Seq::<Seq<u8>>::empty());

                self.replace_at(i, &text);
                proof {
                    ch_ = ch_.push(self.content@);
                    csh = csh.push(self.carets.carets@);
                    nh = nh.push(text@);
                    assert(edit_step(ch_[i as int], prep(ch_[i as int], csh[i as int], i as int), i as int, nh[i as int],
                        ch_[i + 1], csh[i + 1]));
                }
                i = i + 1;
            }
            let ghost b2 = *self;
            assert(edited_each(b1, b2, forward_prep(), no_lines()));
            if commit {
                self.commit(logs);
            }
            let ghost b3 = *self;
            self.finish(last_content_rect);
            assert(no_virtual_rel(*old(self), b1_));
        }
    }

    /// Puts spaces up to the next tab stop at every caret, after making its
    /// virtual spaces real. The messages are cleared first.
    pub fn operate_tab(&mut self, last_content_rect: Rect, logs: &mut Vec<Log>)
        requires
            old(self).wf(),
        ensures
            final(self).wf(),
            final(logs)@.len() == 0,
            tabbed(*old(self), last_content_rect, *final(self)),
    {
        logs.clear();
        self.op_materialize_virtual_spaces();
        let ghost b1 = *self;
        let n = self.carets.carets.len();
        let ghost prep = no_prep();
        let ghost lines = tab_lines(b1.tab_size);
        let ghost mut ch_: Seq<Seq<Seq<u8>>> = seq![self.content@];
        let ghost mut csh: Seq<Seq<Caret>> = seq![self.carets.carets@];
        let ghost mut nh: Seq<Seq<LittleString>> = Seq::empty();
        let mut i: usize = 0;
        while i < n
            invariant
                i <= n == b1.carets.carets@.len() == self.carets.carets@.len(),
                self.wf(),
                edit_chain(ch_, csh, nh, prep, lines),
                nh.len() == i,
                ch_[0] == b1.content@,
                csh[0] == b1.carets.carets@,
                ch_.last() == self.content@,
                csh.last() == self.carets.carets@,
                same_history(b1.checkpoints, self.checkpoints),
                same_frame(b1, *self),
                prep == no_prep(),
                lines == tab_lines(b1.tab_size),
            decreases n - i,
        {
            let ghost c0 = self.content@;
            let ghost cs0 = self.carets.carets@;
            let ce = CursorEditor { cursor: i, cursors: &mut self.carets };
            let t = Self::op_get_tab_little_string(&ce, self.tab_size);
            let text = MostlyOneVec::One(t);
            assert(ls_lines(text@) =~= tab_lines(b1.tab_size)(c0, cs0, i as int));

            self.replace_at(i, &text);
            proof {
                ch_ = ch_.push(self.content@);
                csh = csh.push(self.carets.carets@);
                nh = nh.push(text@);
                assert(edit_step(ch_[i as int], prep(ch_[i as int], csh[i as int], i as int), i as int, nh[i as int],
                    ch_[i + 1], csh[i + 1]));
            }
            i = i + 1;
        }
        let ghost b2 = *self;
        assert(edited_each(b1, b2, no_prep(), tab_lines(b1.tab_size)));
        assert(materialized_rel(*old(self), b1));
        self.finish(last_content_rect);
    }
}

/// What a copy of the carets of `b` gives (see [`Buffer::op_copy`]).
pub open spec fn copy_result(b: Buffer, t: Option<Vec<u8>>) -> bool {
    &&& t is Some <==> ranges_in(b.content@, b.carets.carets@)
    &&& t matches Some(v) ==> v@ == copy_text(selected_texts(b.content@, b.carets.carets@, le_bytes(b.line_ending)),
        le_bytes(b.line_ending))
}

/// `b1`, the messages `l1` and the clipboard text `t` are what
/// [`Buffer::operate_cut`] makes of `b0`: virtual spaces dropped (see
/// [`no_virtual_rel`]), the edit in progress recorded, the selected text
/// taken (see [`copy_result`]), every range deleted, the edit recorded and
/// finished.
pub open spec fn cut_rel(b0: Buffer, r: Rect, b1: Buffer, l1: Seq<Log>, t: Option<Vec<u8>>) -> bool {
    exists|m1: Buffer, m2: Buffer, m3: Buffer, m4: Buffer, l2: Seq<Log>|
        #![trigger no_virtual_rel(b0, m1), commit_rel(m1, Seq::empty(), m2, l2), edited_each(m2, m3, no_prep(), no_lines()), finished(m4, b1, r)]
        no_virtual_rel(b0, m1) && commit_rel(m1, Seq::empty(), m2, l2) && copy_result(m2, t)
        && edited_each(m2, m3, no_prep(), no_lines()) && commit_rel(m3, l2, m4, l1)
        && finished(m4, b1, r)
}

/// `b1` and the messages `l1` are what [`Buffer::operate_paste`] makes of
/// `b0` with the clipboard text `clip`: the edit in progress recorded,
/// virtual spaces made real; then, where there is a text, each caret gets
/// its lines (see [`paste_lines`]), and the edit is recorded and finished.
pub open spec fn pasted(b0: Buffer, r: Rect, clip: Option<Seq<char>>, b1: Buffer, l1: Seq<Log>) -> bool {
    exists|m1: Buffer, lm: Seq<Log>, m2: Buffer|
        #![trigger commit_rel(b0, Seq::empty(), m1, lm), materialized_rel(m1, m2)]
        commit_rel(b0, Seq::empty(), m1, lm) && materialized_rel(m1, m2)
        && (clip is None ==> b1 == m2 && l1 == lm)
        && (clip is Some ==> exists|m3: Buffer, m4: Buffer|
            #![trigger edited_each(m2, m3, no_prep(), paste_lines(clip->0, m2.carets.carets@.len() as int)), finished(m4, b1, r)]
            edited_each(m2, m3, no_prep(), paste_lines(clip->0, m2.carets.carets@.len() as int))
            && commit_rel(m3, lm, m4, l1) && finished(m4, b1, r))
}

/// The lines pasted at caret `k` from the clipboard text `text` with `n`
/// carets: line `k` of it where it has `n` lines, all of it otherwise (see
/// [`Buffer::op_get_each_cursor_clipboard`]).
pub open spec fn paste_lines(text: Seq<char>, n: int) -> spec_fn(Seq<Seq<u8>>, Seq<Caret>, int) -> Seq<Seq<u8>> {
    |c: Seq<Seq<u8>>, cs: Seq<Caret>, k: int| {
        let parts = split_at_byte(encode_utf8(text), 10u8);
        if parts.len() == n { seq![parts[k]] } else { parts }
    }
}

impl MostlyOneVec<LittleString> {
    /// A copy of the lines, each byte for byte the same.
    pub fn clone_text(&self) -> (r: MostlyOneVec<LittleString>)
        ensures
            r@ == self@,
    {
        let n = self.len();
        let mut r: MostlyOneVec<LittleString> = MostlyOneVec::with_capacity(n);
        let mut i: usize = 0;
        while i < n
            invariant
                i <= n == self@.len(),
                r@ == self@.take(i as int),
            decreases n - i,
        {
            r.push(self.index(i).clone());
            assert(r@ =~= self@.take(i + 1));
            i = i + 1;
        }
        assert(self@.take(n as int) =~= self@);
        r
    }
}

impl Buffer {
    /// Scrolls `i` columns left, stopping at the first; the messages are
    /// cleared.
    pub fn operate_scroll_prev(&mut self, i: u16, logs: &mut Vec<Log>)
        ensures
            final(logs)@.len() == 0,
            *final(self) == (Buffer {
                scrollbar: CustomScrollbar {
                    position: if old(self).scrollbar.position >= i { (old(self).scrollbar.position - i) as u16 } else { 0 },
                    ..old(self).scrollbar
                },
                ..*old(self)
            }),
    {
        logs.clear();
        self.scrollbar.prev(i);
    }

    /// Scrolls `i` columns right (it would overflow past `u16::MAX`); the
    /// messages are cleared.
    pub fn operate_scroll_next(&mut self, i: u16, logs: &mut Vec<Log>)
        requires
            old(self).scrollbar.position + i <= u16::MAX,
        ensures
            final(logs)@.len() == 0,
            *final(self) == (Buffer {
                scrollbar: CustomScrollbar { position: (old(self).scrollbar.position + i) as u16, ..old(self).scrollbar },
                ..*old(self)
            }),
    {
        logs.clear();
        self.scrollbar.next(i);
    }

    /// Scrolls `i` lines up, stopping at the first; the messages are
    /// cleared.
    pub fn operate_scroll_prev_line(&mut self, i: usize, logs: &mut Vec<Log>)
        ensures
            final(logs)@.len() == 0,
            *final(self) == (Buffer {
                scrollbar: CustomScrollbar {
                    top_position: if old(self).scrollbar.top_position >= i { (old(self).scrollbar.top_position - i) as usize } else { 0 },
                    ..old(self).scrollbar
                },
                ..*old(self)
            }),
    {
        logs.clear();
        self.scrollbar.prev_line(i);
    }

    /// Scrolls `i` lines down (it would overflow past `usize::MAX`); the
    /// messages are cleared.
    pub fn operate_scroll_next_line(&mut self, i: usize, logs: &mut Vec<Log>)
        requires
            old(self).scrollbar.top_position + i <= usize::MAX,
        ensures
            final(logs)@.len() == 0,
            *final(self) == (Buffer {
                scrollbar: CustomScrollbar { top_position: (old(self).scrollbar.top_position + i) as usize, ..old(self).scrollbar },
                ..*old(self)
            }),
    {
        logs.clear();
        self.scrollbar.next_line(i);
    }

    /// Before a cursor motion: the messages are cleared and the edit in
    /// progress is recorded.
    pub fn operate_arrow_begin(&mut self, logs: &mut Vec<Log>)
        requires
            old(self).wf(),
        ensures
            final(self).wf(),
            commit_rel(*old(self), Seq::empty(), *final(self), final(logs)@),
    {
        logs.clear();
        self.commit(logs);
    }

    /// After a cursor motion: the view follows the carets.
    pub fn operate_arrow_end(&mut self, last_content_rect: Rect)
        ensures
            scrolled_rel(*old(self), *final(self), last_content_rect),
    {
        self.follow_carets(last_content_rect);
    }

    /// Copies: the edit in progress is recorded after carets past the end of
    /// their line moved back to it, then the carets merge and the view
    /// follows them. Returns what goes on the clipboard (see
    /// [`copy_result`]). The messages are cleared first.
    pub fn operate_copy(&mut self, last_content_rect: Rect, logs: &mut Vec<Log>) -> (t: Option<Vec<u8>>)
        requires
            old(self).wf(),
        ensures
            final(self).wf(),
            exists|b1: Buffer, b2: Buffer, b3: Buffer|
                #![trigger no_virtual_rel(*old(self), b1), commit_rel(b1, Seq::empty(), b2, final(logs)@), merged_rel(b2, b3)]
                no_virtual_rel(*old(self), b1) && commit_rel(b1, Seq::empty(), b2, final(logs)@) && copy_result(b2, t)
                && merged_rel(b2, b3) && scrolled_rel(b3, *final(self), last_content_rect),
    {
        logs.clear();
        self.op_no_virtual_spaces();
        let ghost b1 = *self;
        self.commit(logs);
        let ghost b2 = *self;
        let t = self.op_copy();
        self.merge_carets();
        let ghost b3 = *self;
        self.follow_carets(last_content_rect);
        assert(no_virtual_rel(*old(self), b1));
        assert(commit_rel(b1, Seq::empty(), b2, logs@));
        t
    }

    /// Cuts: as a copy, then the selections are deleted and the edit is
    /// recorded. Returns what goes on the clipboard. The messages are cleared
    /// first.
    pub fn operate_cut(&mut self, last_content_rect: Rect, logs: &mut Vec<Log>) -> (t: Option<Vec<u8>>)
        requires
            old(self).wf(),
        ensures
            final(self).wf(),
            cut_rel(*old(self), last_content_rect, *final(self), final(logs)@, t),
    {
        logs.clear();
        self.op_no_virtual_spaces();
        let ghost b0_ = *self;
        self.commit(logs);
        let ghost b1_ = *self;
        let ghost l2 = logs@;
        let t = self.op_copy();
        let ghost b1 = *self;
        let n = self.carets.carets.len();
        let ghost prep = no_prep();
        let ghost lines = no_lines();
        let ghost mut ch_: Seq<Seq<Seq<u8>>> = seq![self.content@];
        let ghost mut csh: Seq<Seq<Caret>> = seq![self.carets.carets@];
        let ghost mut nh: Seq<Seq<LittleString>> = Seq::empty();
        let mut i: usize = 0;
        while i < n
            invariant
                i <= n == b1.carets.carets@.len() == self.carets.carets@.len(),
                self.wf(),
                edit_chain(ch_, csh, nh, prep, lines),
                nh.len() == i,
                ch_[0] == b1.content@,
                csh[0] == b1.carets.carets@,
                ch_.last() == self.content@,
                csh.last() == self.carets.carets@,
                same_history(b1.checkpoints, self.checkpoints),
                same_frame(b1, *self),
                prep == no_prep(),
                lines == no_lines(),
            decreases n - i,
        {
            let ghost c0 = self.content@;
            let ghost cs0 = self.carets.carets@;
            let text: MostlyOneVec<LittleString> = MostlyOneVec::Zero;
            assert(ls_lines(text@) =~= Seq::<Seq<u8>>::empty());

            self.replace_at(i, &text);
            proof {
                ch_ = ch_.push(self.content@);
                csh = csh.push(self.carets.carets@);
                nh = nh.push(text@);
                assert(edit_step(ch_[i as int], prep(ch_[i as int], csh[i as int], i as int), i as int, nh[i as int],
                    ch_[i + 1], csh[i + 1]));
            }
            i = i + 1;
        }
        let ghost b2 = *self;
        assert(edited_each(b1, b2, no_prep(), no_lines()));
        self.commit(logs);
        let ghost b3 = *self;
        self.finish(last_content_rect);
        assert(no_virtual_rel(*old(self), b0_));
        assert(commit_rel(b0_, Seq::empty(), b1_, l2));
        t
    }

    /// Pastes the clipboard text `clipboard` (`None` where it could not be
    /// read): after recording the edit in progress and making virtual spaces
    /// real, each caret gets its lines (see [`paste_lines`]), then the edit is
    /// recorded. The messages are cleared first.
    pub fn operate_paste(&mut self, last_content_rect: Rect, logs: &mut Vec<Log>, clipboard: Option<&str>)
        requires
            old(self).wf(),
        ensures
            final(self).wf(),
            pasted(*old(self), last_content_rect, match clipboard {
                Some(t) => Some(t@),
                None => None,
            }, *final(self), final(logs)@),
    {
        logs.clear();
        self.commit(logs);
        let ghost b0_ = *self;
        let ghost l1 = logs@;
        self.op_materialize_virtual_spaces();
        let ghost b1_ = *self;
        assert(commit_rel(*old(self), Seq::empty(), b0_, l1));
        assert(materialized_rel(b0_, b1_));
        let t = match clipboard {
            None => {
                return;
            },
            Some(t) => t,
        };
        let clip = self.op_get_each_cursor_clipboard(t);
        let ghost b1 = *self;
        let n = self.carets.carets.len();
        let ghost prep = no_prep();
        let ghost lines = paste_lines(t@, n as int);
        let ghost mut ch_: Seq<Seq<Seq<u8>>> = seq![self.content@];
        let ghost mut csh: Seq<Seq<Caret>> = seq![self.carets.carets@];
        let ghost mut nh: Seq<Seq<LittleString>> = Seq::empty();
        let mut i: usize = 0;
        while i < n
            invariant
                i <= n == b1.carets.carets@.len() == self.carets.carets@.len(),
                self.wf(),
                edit_chain(ch_, csh, nh, prep, lines),
                nh.len() == i,
                ch_[0] == b1.content@,
                csh[0] == b1.carets.carets@,
                ch_.last() == self.content@,
                csh.last() == self.carets.carets@,
                same_history(b1.checkpoints, self.checkpoints),
                same_frame(b1, *self),
                prep == no_prep(),
                lines == paste_lines(t@, n as int),
                ({
                    let parts = split_at_byte(encode_utf8(t@), 10u8);
                    &&& parts.len() == n ==> clip@.len() == n && forall|k: int| 0 <= k < n ==> {
                        &&& (#[trigger] clip@[k])@.len() == 1
                        &&& clip@[k]@[0]@ == parts[k]
                        &&& clip@[k]@[0].wf()
                    }
                    &&& parts.len() != n ==> clip@.len() >= n && forall|k: int| 0 <= k < clip@.len() ==> {
                        &&& (#[trigger] clip@[k])@.len() == parts.len()
                        &&& forall|j: int| 0 <= j < parts.len() ==> (#[trigger] clip@[k]@[j])@ == parts[j] && clip@[k]@[j].wf()
                    }
                }),
            decreases n - i,
        {
            let ghost c0 = self.content@;
            let ghost cs0 = self.carets.carets@;
            let text = clip.index(i).clone_text();
            assert(ls_lines(text@) =~= paste_lines(t@, n as int)(c0, cs0, i as int));

            self.replace_at(i, &text);
            proof {
                ch_ = ch_.push(self.content@);
                csh = csh.push(self.carets.carets@);
                nh = nh.push(text@);
                assert(edit_step(ch_[i as int], prep(ch_[i as int], csh[i as int], i as int), i as int, nh[i as int],
                    ch_[i + 1], csh[i + 1]));
            }
            i = i + 1;
        }
        let ghost b2 = *self;
        assert(edited_each(b1, b2, no_prep(), paste_lines(t@, n as int)));
        let ghost lb = logs@;
        self.commit(logs);
        let ghost b3 = *self;
        self.finish(last_content_rect);
        assert(b1 == b1_);
        assert(lb == l1);
        assert(commit_rel(b2, l1, b3, logs@));
        assert(commit_rel(*old(self), Seq::empty(), b0_, l1) && materialized_rel(b0_, b1_));
        let ghost cv: Option<Seq<char>> = Some(t@);
        assert(cv->0 == t@);
        assert(cv is Some ==> exists|m3: Buffer, m4: Buffer|
            #![trigger edited_each(b1_, m3, no_prep(), paste_lines(cv->0, b1_.carets.carets@.len() as int)), finished(m4, *self, last_content_rect)]
            edited_each(b1_, m3, no_prep(), paste_lines(cv->0, b1_.carets.carets@.len() as int))
            && commit_rel(m3, l1, m4, logs@) && finished(m4, *self, last_content_rect));
        assert(pasted(*old(self), last_content_rect, cv, *self, logs@));
    }

    /// Saving: the edit in progress is recorded; returns the bytes to write
    /// (see [`Buffer::save_bytes`]).
    pub fn operate_save(&mut self, logs: &mut Vec<Log>) -> (r: Vec<u8>)
        requires
            old(self).wf(),
        ensures
            final(self).wf(),
            commit_rel(*old(self), old(logs)@, *final(self), final(logs)@),
            r@ == join(final(self).content@, le_bytes(final(self).line_ending)),
    {
        self.commit(logs);
        self.save_bytes()
    }
}

/// Where restoring the edit `e` puts the caret: the cursor at the start of
/// the edit, the anchor at the end of the lines `d` that were put there (the
/// line after as many breaks as `d` has, the column after its last line, or
/// after the start column where it is one line).
pub open spec fn restore_position(e: CheckpointEdit, d: Seq<LittleString>) -> Position {
    let line = (if d.len() == 0 { 0 } else { d.len() - 1 }) + e.start_line;
    let first = if d.len() > 0 { d[0]@.len() as int } else { 0 };
    let col = if d.len() >= 2 { d.last()@.len() as int } else { first + e.start_col };
    Position {
        cursor: Cursor { line: e.start_line, col: e.start_col, goal: HorizontalGoal::Column(e.start_col) },
        selection: Selection { line: line as usize, col: col as usize, none: false },
    }
}

/// [`restore_position`] can be computed: the lines it measures are well formed
/// and nothing overflows (otherwise it would panic).
pub open spec fn restore_fits(e: CheckpointEdit, d: Seq<LittleString>) -> bool {
    &&& d.len() > 0 ==> d[0].wf()
    &&& d.len() >= 2 ==> d.last().wf()
    &&& (if d.len() == 0 { 0 } else { d.len() - 1 }) + e.start_line <= usize::MAX
    &&& (if d.len() > 0 { d[0]@.len() as int } else { 0 }) + e.start_col <= usize::MAX
}

/// Restoring the edit `e` at caret `idx`: the caret selects the lines `sel`
/// that the edit left (see [`restore_position`]), and they are replaced by the
/// lines `put`, without recording, as
/// [`crate::content::Content::replace_text_without_checkpoints`] does. Where
/// the position overflows nothing changes; where the replacement does not fit
/// the text only the caret moves (it would panic in both cases).
pub open spec fn restore_step(c0: Seq<Seq<u8>>, cs0: Seq<Caret>, idx: int, e: CheckpointEdit,
    sel: Seq<LittleString>, put: Seq<LittleString>, c1: Seq<Seq<u8>>, cs1: Seq<Caret>) -> bool {
    if !restore_fits(e, sel) {
        c1 == c0 && cs1 == cs0
    } else {
        let mid = cs0.update(idx, Caret { position: restore_position(e, sel), ..cs0[idx] });
        if replace_requires(c0, restore_position(e, sel), put) {
            replace_plain_post(c0, mid, idx, put, c1, cs1)
        } else {
            c1 == c0 && cs1 =~= mid
        }
    }
}

/// Step `j` of restoring the edits `edits`, last edit first: an undo puts
/// back what each edit removed in place of what it added, a redo the other
/// way round.
pub open spec fn restore_nth(c: Seq<Seq<Seq<u8>>>, cs: Seq<Seq<Caret>>, edits: Seq<SingleEdit>, undo: bool, j: int) -> bool {
    let idx = edits.len() - 1 - j;
    let e = edits[idx].edit;
    let sel = if undo { e.added_data@ } else { e.removed_data@ };
    let put = if undo { e.removed_data@ } else { e.added_data@ };
    restore_step(c[j], cs[j], idx, e, sel, put, c[j + 1], cs[j + 1])
}

/// The texts `c` and carets `cs` pass through every step of restoring
/// `edits`.
pub open spec fn restore_chain(c: Seq<Seq<Seq<u8>>>, cs: Seq<Seq<Caret>>, edits: Seq<SingleEdit>, undo: bool) -> bool {
    &&& c.len() == edits.len() + 1
    &&& cs.len() == edits.len() + 1
    &&& forall|j: int| 0 <= j < edits.len() ==> #[trigger] restore_nth(c, cs, edits, undo, j)
}

/// A caret as [`Caret::new`] makes it.
pub open spec fn fresh_caret(k: Caret) -> bool {
    &&& k.pos() == (Position {
        cursor: Cursor { line: 0, col: 0, goal: HorizontalGoal::Column(0) },
        selection: Selection { line: 0, col: 0, none: true },
    })
    &&& !k.started
    &&& k.added_len == 0
    &&& k.removed_text@.len() == 0
}

/// The carets `b` are `a` cut or grown to `m` by fresh carets, as
/// `MostlyOneVec::resize_with` does (a single caret stays where `m` is zero).
pub open spec fn resized(a: Seq<Caret>, was_one: bool, m: int, b: Seq<Caret>) -> bool {
    &&& b.len() == (if was_one && m == 0 { 1 } else { m })
    &&& forall|i: int| 0 <= i < b.len() && i < a.len() ==> #[trigger] b[i] == a[i]
    &&& forall|i: int| a.len() <= i < b.len() ==> fresh_caret(#[trigger] b[i])
}

/// `b1` is `b0` after undoing (`undo`) or redoing a checkpoint: the history
/// moves back over the last checkpoint it can undo, or on over the next it
/// can redo; the carets become one per edit of that checkpoint, and every
/// edit is restored, last first (see [`restore_chain`]).
pub open spec fn restored(b0: Buffer, b1: Buffer, undo: bool) -> bool {
    let at = restore_at(b0, undo);
    let edits = restore_edits(b0, undo);
    &&& b1.checkpoints == (Checkpoints { cursor_lened: (if undo { at } else { at + 1 }) as usize, ..b0.checkpoints })
    &&& exists|c: Seq<Seq<Seq<u8>>>, cs: Seq<Seq<Caret>>| #![trigger restore_chain(c, cs, restore_edits(b0, undo), undo)]
        restore_chain(c, cs, edits, undo) && c[0] == b0.content@
        && resized(b0.carets.carets@, b0.carets.carets is One, edits.len() as int, cs[0])
        && c.last() == b1.content@ && cs.last() == b1.carets.carets@
    &&& same_frame(b0, b1)
}

/// The checkpoint that an undo (`undo`) or a redo of `b0` restores.
pub open spec fn restore_at(b0: Buffer, undo: bool) -> int {
    if undo { b0.checkpoints.cursor_lened - 1 } else { b0.checkpoints.cursor_lened as int }
}

/// The edits of the checkpoint that an undo (`undo`) or a redo of `b0`
/// restores.
pub open spec fn restore_edits(b0: Buffer, undo: bool) -> Seq<SingleEdit> {
    b0.checkpoints.others@[restore_at(b0, undo)].inner@
}

/// The message when there is nothing to undo or redo.
pub open spec fn no_more(l0: Seq<Log>, l1: Seq<Log>) -> bool {
    &&& l1.len() == l0.len() + 1
    &&& l1.take(l0.len() as int) == l0
    &&& l1.last().message@ == "[I] No more checkpoints available"@
    &&& l1.last().color == LogColor::Info
}

/// `b1` and the messages `l1` are what [`Buffer::operate_undo`] makes of `b0`
/// and `l0`: the edit in progress is recorded (see [`commit_rel`]); then,
/// where the history has a checkpoint to undo, it is undone (see
/// [`restored`]) and the edit finished, the messages cleared; otherwise a
/// message says there is none.
pub open spec fn undone(b0: Buffer, l0: Seq<Log>, r: Rect, b1: Buffer, l1: Seq<Log>) -> bool {
    exists|bc: Buffer, lc: Seq<Log>| #![trigger commit_rel(b0, l0, bc, lc)]
        commit_rel(b0, l0, bc, lc)
        && (bc.checkpoints.cursor_lened == 0 ==> b1 == bc && no_more(lc, l1))
        && (bc.checkpoints.cursor_lened > 0 ==> l1.len() == 0 && exists|b2: Buffer|
            #![trigger restored(bc, b2, true)]
            restored(bc, b2, true) && finished(b2, b1, r))
}

/// `b1` and the messages `l1` are what [`Buffer::operate_redo`] makes of `b0`
/// and `l0`: the edit in progress is recorded (see [`commit_rel`]); then,
/// where the history has a checkpoint to redo, it is redone (see
/// [`restored`]) and the edit finished, the messages cleared; otherwise a
/// message says there is none.
pub open spec fn redone(b0: Buffer, l0: Seq<Log>, r: Rect, b1: Buffer, l1: Seq<Log>) -> bool {
    exists|bc: Buffer, lc: Seq<Log>| #![trigger commit_rel(b0, l0, bc, lc)]
        commit_rel(b0, l0, bc, lc)
        && (bc.checkpoints.cursor_lened == bc.checkpoints.others@.len() ==> b1 == bc && no_more(lc, l1))
        && (bc.checkpoints.cursor_lened < bc.checkpoints.others@.len() ==> l1.len() == 0 && exists|b2: Buffer|
            #![trigger restored(bc, b2, false)]
            restored(bc, b2, false) && finished(b2, b1, r))
}

impl Buffer {
    /// Undoes (`undo`) or redoes the checkpoint next to the history's
    /// position (see [`restored`]).
    fn restore(&mut self, undo: bool)
        requires
            old(self).wf(),
            undo ==> old(self).checkpoints.cursor_lened > 0,
            !undo ==> old(self).checkpoints.cursor_lened < old(self).checkpoints.others@.len(),
        ensures
            final(self).wf(),
            restored(*old(self), *final(self), undo),
    {
        let at = if undo { self.checkpoints.cursor_lened - 1 } else { self.checkpoints.cursor_lened };
        self.checkpoints.cursor_lened = if undo { at } else { at + 1 };
        let m = self.checkpoints.others[at].inner.len();
        let ghost edits = self.checkpoints.others@[at as int].inner@;
        let ghost was_one = self.carets.carets is One;
        let ghost before = self.carets.carets@;
        self.carets.carets.resize_with(m, Caret::new);
        let ghost b1 = *self;
        proof {
            assert forall|i: int| before.len() <= i < self.carets.carets@.len() implies fresh_caret(#[trigger] self.carets.carets@[i]) by {
                assert(call_ensures(Caret::new, (), self.carets.carets@[i]));
            }
            assert(resized(before, was_one, m as int, self.carets.carets@));
        }
        let ghost mut ch_: Seq<Seq<Seq<u8>>> = seq![self.content@];
        let ghost mut csh: Seq<Seq<Caret>> = seq![self.carets.carets@];
        let mut j: usize = 0;
        while j < m
            invariant
                j <= m == edits.len(),
                m <= self.carets.carets@.len(),
                self.carets.carets@.len() == b1.carets.carets@.len(),
                self.checkpoints == b1.checkpoints,
                at < self.checkpoints.others@.len(),
                edits == self.checkpoints.others@[at as int].inner@,
                self.wf(),
                same_frame(b1, *self),
                ch_.len() == j + 1,
                csh.len() == j + 1,
                ch_[0] == b1.content@,
                csh[0] == b1.carets.carets@,
                ch_.last() == self.content@,
                csh.last() == self.carets.carets@,
                forall|jj: int| 0 <= jj < j ==> #[trigger] restore_nth(ch_, csh, edits, undo, jj),
            decreases m - j,
        {
            let ghost c0 = self.content@;
            let ghost cs0 = self.carets.carets@;
            let idx = m - 1 - j;
            let e = &self.checkpoints.others[at].inner.index(idx).edit;
            let sel = if undo { &e.added_data } else { &e.removed_data };
            let put = if undo { &e.removed_data } else { &e.added_data };
            let sl = sel.len();
            let measurable = (sl == 0 || crate::content::ls_wf(sel.index(0))) && (sl < 2 || crate::content::ls_wf(sel.index(sl - 1)));
            let first = if sl > 0 && measurable { sel.index(0).len() } else { 0 };
            let lines_before = if sl == 0 { 0 } else { sl - 1 };
            if measurable && lines_before <= usize::MAX - e.start_line && first <= usize::MAX - e.start_col {
                let line = lines_before + e.start_line;
                let col = if sl >= 2 { sel.index(sl - 1).len() } else { first + e.start_col };
                let pos = Position::new(Cursor::new(e.start_line, e.start_col), Selection::new(line, col));
                assert(pos == restore_position(*e, sel@));
                self.carets.carets.index_mut(idx).set_position(pos);
                let ghost mid = self.carets.carets@;
                assert(mid =~= cs0.update(idx as int, Caret { position: pos, ..cs0[idx as int] }));
                if self.content.can_replace_plain(self.carets.carets.index(idx), put) {
                    let mut ce = CursorEditor { cursor: idx, cursors: &mut self.carets };
                    self.content.replace_text_without_checkpoints(&mut ce, put);
                }
            }
            proof {
                let oc = ch_;
                let ocs = csh;
                ch_ = ch_.push(self.content@);
                csh = csh.push(self.carets.carets@);
                assert(restore_nth(ch_, csh, edits, undo, j as int));
                assert forall|jj: int| 0 <= jj < j + 1 implies #[trigger] restore_nth(ch_, csh, edits, undo, jj) by {
                    if jj < j {
                        assert(restore_nth(oc, ocs, edits, undo, jj));
                        assert(ch_[jj] == oc[jj] && ch_[jj + 1] == oc[jj + 1]);
                        assert(csh[jj] == ocs[jj] && csh[jj + 1] == ocs[jj + 1]);
                    }
                }
            }
            j = j + 1;
        }
        assert(restore_chain(ch_, csh, edits, undo));
        assert(b1.content == old(self).content);
        assert(same_frame(*old(self), b1));
        assert(self.checkpoints == (Checkpoints { cursor_lened: (if undo { at as int } else { at + 1 }) as usize, ..old(self).checkpoints }));
        assert(edits == old(self).checkpoints.others@[at as int].inner@);
        assert(resized(old(self).carets.carets@, old(self).carets.carets is One, edits.len() as int, csh[0]));
        assert(ch_[0] == old(self).content@);
        assert(ch_.last() == self.content@);
        assert(csh.last() == self.carets.carets@);
        assert(same_frame(*old(self), *self));
        assert(restore_chain(ch_, csh, restore_edits(*old(self), undo), undo));
        assert(restored(*old(self), *self, undo));
    }

    /// Undoes the last checkpoint, after recording the edit in progress; says
    /// so where there is none. The messages are cleared where it undoes.
    pub fn operate_undo(&mut self, last_content_rect: Rect, logs: &mut Vec<Log>)
        requires
            old(self).wf(),
        ensures
            final(self).wf(),
            undone(*old(self), old(logs)@, last_content_rect, *final(self), final(logs)@),
    {
        self.commit(logs);
        let ghost b1 = *self;
        let ghost l1 = logs@;
        if self.checkpoints.cursor_lened == 0 {
            logs.push(Log::new("[I] No more checkpoints available", LogColor::Info));
            assert(logs@.take(l1.len() as int) =~= l1);
            return;
        }
        logs.clear();
        self.restore(true);
        let ghost b2 = *self;
        self.finish(last_content_rect);
        assert(restored(b1, b2, true));
    }

    /// Redoes the next checkpoint, after recording the edit in progress; says
    /// so where there is none. The messages are cleared where it redoes.
    pub fn operate_redo(&mut self, last_content_rect: Rect, logs: &mut Vec<Log>)
        requires
            old(self).wf(),
        ensures
            final(self).wf(),
            redone(*old(self), old(logs)@, last_content_rect, *final(self), final(logs)@),
    {
        self.commit(logs);
        let ghost b1 = *self;
        let ghost l1 = logs@;
        if self.checkpoints.cursor_lened == self.checkpoints.others.len() {
            logs.push(Log::new("[I] No more checkpoints available", LogColor::Info));
            assert(logs@.take(l1.len() as int) =~= l1);
            return;
        }
        logs.clear();
        self.restore(false);
        let ghost b2 = *self;
        self.finish(last_content_rect);
        assert(restored(b1, b2, false));
    }
}

/// The text column under the terminal column `col`: its offset in the view `r`
/// (wrapping below its left edge) plus the horizontal scroll.
pub open spec fn click_col(col: u16, r: Rect, sb: CustomScrollbar) -> int {
    vstd::wrapping::u16_specs::wrapping_sub(col, r.x) + sb.position
}

/// The text line under the terminal row `row`, likewise.
pub open spec fn click_line(row: u16, r: Rect, sb: CustomScrollbar) -> int {
    vstd::wrapping::u16_specs::wrapping_sub(row, r.y) + sb.top_position
}

/// The text position under a click can be computed without an overflow
/// (otherwise it would panic).
pub open spec fn click_fits(col: u16, row: u16, r: Rect, sb: CustomScrollbar) -> bool {
    click_col(col, r, sb) <= u16::MAX && click_line(row, r, sb) <= usize::MAX
}

/// A cursor at line `l`, column `c`, aiming for that column.
pub open spec fn cursor_at(l: int, c: int) -> Cursor {
    Cursor { line: l as usize, col: c as usize, goal: HorizontalGoal::Column(c as usize) }
}

/// `b2` is `b1` after a click at line `y`, column `x`: one caret is left,
/// without selection, at the nearest position of the text, and a drag starts
/// there. Nothing changes without a caret (it would panic).
pub open spec fn clicked(b1: Buffer, b2: Buffer, x: usize, y: usize) -> bool {
    if b1.carets.carets@.len() == 0 {
        b2 == b1
    } else {
        let p = clamp(x as int, y as int, b1.content@);
        let o = b1.carets.carets@[0];
        &&& b2 == Buffer { carets: b2.carets, drag_start_pos: (x, y), ..b1 }
        &&& b2.carets.carets@ =~= seq![Caret {
            position: Position { cursor: cursor_at(p.0, p.1), selection: Selection { none: true, ..o.pos().selection } },
            ..o
        }]
    }
}

/// The first caret `k` dragged to line `y`, column `x` of the text `c`: the
/// anchor stays (it is put at the cursor where there was none) and the
/// cursor moves to the nearest position.
pub open spec fn drag_caret(k: Caret, x: usize, y: usize, c: Seq<Seq<u8>>) -> Caret {
    let p = k.pos();
    let sel = if p.selection.none { Selection { line: p.cursor.line, col: p.cursor.col, none: false } } else { p.selection };
    let q = clamp(x as int, y as int, c);
    Caret { position: Position { cursor: cursor_at(q.0, q.1), selection: sel }, ..k }
}

/// The caret on line `l` of a block selection from column `a` to column
/// `x`, without selection where the two columns are the same.
pub open spec fn span_position(l: int, x: usize, a: usize) -> Position {
    Position {
        cursor: cursor_at(l, x as int),
        selection: Selection { line: l as usize, col: a, none: x == a },
    }
}

/// `b2` is `b1` with one caret on each line from where the drag started to
/// line `y`, each selecting from the drag's column to column `x`.
pub open spec fn spanned(b1: Buffer, b2: Buffer, x: usize, y: usize) -> bool {
    let d = b1.drag_start_pos;
    let s = span_first(y, d.1);
    let m = span_count(y, d.1);
    &&& b2 == Buffer { carets: b2.carets, ..b1 }
    &&& exists|r: Seq<Caret>| #![trigger resized(b1.carets.carets@, b1.carets.carets is One, span_count(y, b1.drag_start_pos.1), r)]
        resized(b1.carets.carets@, b1.carets.carets is One, m, r) && b2.carets.carets@.len() == m
        && forall|i: int| 0 <= i < m ==> #[trigger] b2.carets.carets@[i] == (Caret { position: span_position(s + i, x, d.0), ..r[i] })
}

/// The first line between line `y` and line `d`.
pub open spec fn span_first(y: usize, d: usize) -> int {
    if y < d { y as int } else { d as int }
}

/// How many lines there are from line `y` to line `d`, both included.
pub open spec fn span_count(y: usize, d: usize) -> int {
    (if y < d { d - y } else { y - d }) + 1
}

/// `b2` is `b1` after a double click at line `y`, column `x`: the first caret
/// selects the run of positions around the nearest position whose
/// characters are part of a name, from its start (the anchor) to its end (the
/// cursor). Nothing changes where the character there is not part of a name,
/// or where there is no line or no caret (it would panic then).
pub open spec fn word_selected(b1: Buffer, b2: Buffer, x: usize, y: usize) -> bool {
    let c = b1.content@;
    let q = clamp(x as int, y as int, c);
    if c.len() == 0 || b1.carets.carets@.len() == 0 {
        b2 == b1
    } else {
        let l = c[q.0];
        if q.1 < l.len() && !variable_at(l, q.1) {
            b2 == b1
        } else {
            &&& b2 == Buffer { carets: b2.carets, ..b1 }
            &&& b2.carets.carets@ =~= b1.carets.carets@.update(0, Caret {
                position: Position {
                    cursor: cursor_at(q.0, run_forward(l, q.1, true)),
                    selection: Selection { line: q.0 as usize, col: run_backward(l, q.1, true) as usize, none: false },
                },
                ..b1.carets.carets@[0]
            })
        }
    }
}

/// A double click selects the whole word under the pointer. Where the
/// character there is part of a name (or the pointer lies past the end of
/// its line), the first caret selects, on that line, a range around the
/// pointer whose characters are all part of a name, from a start at the
/// start of the line or after a character that is not, to an end at the end
/// of the line or before a character that is not: the anchor at the start,
/// the cursor at the end. The text and the other carets stay. Where the
/// character under the pointer is not part of a name, nothing changes.
pub proof fn double_click_selects_the_word(b1: Buffer, b2: Buffer, x: usize, y: usize)
    requires
        word_selected(b1, b2, x, y),
        b1.content@.len() > 0,
        b1.carets.carets@.len() > 0,
    ensures
        ({
            let c = b1.content@;
            let q = clamp(x as int, y as int, c);
            let l = c[q.0];
            let p = b2.carets.carets@[0].pos();
            &&& q.1 < l.len() && !variable_at(l, q.1) ==> b2 == b1
            &&& q.1 == l.len() || variable_at(l, q.1) ==> {
                &&& b2.content == b1.content
                &&& b2.carets.carets@.len() == b1.carets.carets@.len()
                &&& forall|i: int| 1 <= i < b1.carets.carets@.len() ==> b2.carets.carets@[i] == b1.carets.carets@[i]
                &&& p.cursor.line == q.0
                &&& p.selection.line == q.0
                &&& !p.selection.none
                &&& p.selection.col <= q.1 <= p.cursor.col <= l.len()
                &&& forall|j: int| p.selection.col <= j < p.cursor.col ==> variable_at(l, j)
                &&& p.selection.col == 0 || !variable_at(l, p.selection.col - 1)
                &&& p.cursor.col == l.len() || !variable_at(l, p.cursor.col as int)
            }
        }),
{
    let c = b1.content@;
    let q = clamp(x as int, y as int, c);
    let l = c[q.0];
    crate::content::lemma_line_len_fits(b1.content, q.0);
    crate::cursor::lemma_run_forward_ends(l, q.1, true);
    crate::cursor::lemma_run_backward_ends(l, q.1, true);
}

impl Buffer {
    /// The text column and line under a click.
    fn click_position(&self, col: u16, row: u16, last_content_rect: Rect) -> (r: (usize, usize))
        requires
            click_fits(col, row, last_content_rect, self.scrollbar),
        ensures
            r.0 == click_col(col, last_content_rect, self.scrollbar),
            r.1 == click_line(row, last_content_rect, self.scrollbar),
    {
        let x = (col.wrapping_sub(last_content_rect.x) + self.scrollbar.position) as usize;
        let y = row.wrapping_sub(last_content_rect.y) as usize + self.scrollbar.top_position;
        (x, y)
    }

    /// A click: the edit in progress is recorded, then one caret is left at
    /// the click (see [`clicked`]). The messages are cleared first.
    pub fn operate_single_click(&mut self, col: u16, row: u16, last_content_rect: Rect, logs: &mut Vec<Log>)
        requires
            old(self).wf(),
            click_fits(col, row, last_content_rect, old(self).scrollbar),
        ensures
            final(self).wf(),
            exists|b1: Buffer| #![trigger commit_rel(*old(self), Seq::empty(), b1, final(logs)@)]
                commit_rel(*old(self), Seq::empty(), b1, final(logs)@)
                && clicked(b1, *final(self), click_col(col, last_content_rect, old(self).scrollbar) as usize,
                    click_line(row, last_content_rect, old(self).scrollbar) as usize),
    {
        logs.clear();
        self.commit(logs);
        let ghost b1 = *self;
        let (x, y) = self.click_position(col, row, last_content_rect);
        if self.carets.carets.len() == 0 {
            return;
        }
        self.carets.set_cursor(x, y, &self.content);
        self.drag_start_pos = (x, y);
        assert(clicked(b1, *self, x, y));
    }

    /// A click that adds a caret: the edit in progress is recorded, then a
    /// caret is added at the click, or the one there removed (see
    /// [`cursor_added`]). The messages are cleared first.
    pub fn operate_add_cursor(&mut self, col: u16, row: u16, last_content_rect: Rect, logs: &mut Vec<Log>)
        requires
            old(self).wf(),
            click_fits(col, row, last_content_rect, old(self).scrollbar),
        ensures
            final(self).wf(),
            exists|b1: Buffer| #![trigger commit_rel(*old(self), Seq::empty(), b1, final(logs)@)]
                commit_rel(*old(self), Seq::empty(), b1, final(logs)@)
                && *final(self) == (Buffer { carets: final(self).carets, ..b1 })
                && cursor_added(b1.carets.carets@, final(self).carets.carets@,
                    click_col(col, last_content_rect, old(self).scrollbar),
                    click_line(row, last_content_rect, old(self).scrollbar), b1.content@),
    {
        logs.clear();
        self.commit(logs);
        let ghost b1 = *self;
        let (x, y) = self.click_position(col, row, last_content_rect);
        self.carets.add_cursor(x, y, &self.content);
        assert(*self == (Buffer { carets: self.carets, ..b1 }));
    }

    /// A drag: the edit in progress is recorded, then the first caret selects
    /// from where it was to the pointer (see [`drag_caret`]); nothing more
    /// without a caret (it would panic). The messages are cleared first.
    pub fn operate_mouse_select(&mut self, col: u16, row: u16, last_content_rect: Rect, logs: &mut Vec<Log>)
        requires
            old(self).wf(),
            click_fits(col, row, last_content_rect, old(self).scrollbar),
        ensures
            final(self).wf(),
            exists|b1: Buffer| #![trigger commit_rel(*old(self), Seq::empty(), b1, final(logs)@)]
                commit_rel(*old(self), Seq::empty(), b1, final(logs)@)
                && (b1.carets.carets@.len() == 0 ==> *final(self) == b1)
                && (b1.carets.carets@.len() > 0 ==> *final(self) == (Buffer { carets: final(self).carets, ..b1 })
                    && final(self).carets.carets@ == b1.carets.carets@.update(0, drag_caret(b1.carets.carets@[0],
                        click_col(col, last_content_rect, old(self).scrollbar) as usize,
                        click_line(row, last_content_rect, old(self).scrollbar) as usize, b1.content@))),
    {
        logs.clear();
        self.commit(logs);
        let ghost b1 = *self;
        let (x, y) = self.click_position(col, row, last_content_rect);
        if self.carets.carets.len() == 0 {
            return;
        }
        let caret = self.carets.carets.index_mut(0);
        if caret.is_selection_none() {
            caret.set_selection_to_cursor();
        }
        caret.set_just_cursor(x, y, &self.content);
        assert(*self == (Buffer { carets: self.carets, ..b1 }));
    }

    /// A drag that adds carets: the edit in progress is recorded, then there
    /// is one caret on each line between the drag's start and the pointer
    /// (see [`spanned`]). The messages are cleared first.
    pub fn operate_multicursor_select(&mut self, col: u16, row: u16, last_content_rect: Rect, logs: &mut Vec<Log>)
        requires
            old(self).wf(),
            click_fits(col, row, last_content_rect, old(self).scrollbar),
            ({
                let y = click_line(row, last_content_rect, old(self).scrollbar);
                let d = old(self).drag_start_pos.1;
                (if y < d { d - y } else { y - d }) < usize::MAX
            }),
        ensures
            final(self).wf(),
            exists|b1: Buffer| #![trigger commit_rel(*old(self), Seq::empty(), b1, final(logs)@)]
                commit_rel(*old(self), Seq::empty(), b1, final(logs)@)
                && spanned(b1, *final(self), click_col(col, last_content_rect, old(self).scrollbar) as usize,
                    click_line(row, last_content_rect, old(self).scrollbar) as usize),
    {
        logs.clear();
        self.commit(logs);
        let ghost b1 = *self;
        let (x, y) = self.click_position(col, row, last_content_rect);
        let start_line = if y < self.drag_start_pos.1 { y } else { self.drag_start_pos.1 };
        let end_line = if y < self.drag_start_pos.1 { self.drag_start_pos.1 } else { y };
        let n_lines = 1 + (end_line - start_line);
        let ghost before = self.carets.carets@;
        self.carets.carets.resize_with(n_lines, Caret::new);
        let ghost r = self.carets.carets@;
        proof {
            assert forall|i: int| before.len() <= i < r.len() implies fresh_caret(#[trigger] r[i]) by {
                assert(call_ensures(Caret::new, (), r[i]));
            }
            assert(resized(b1.carets.carets@, b1.carets.carets is One, n_lines as int, r));
        }
        let a = self.drag_start_pos.0;
        let mut idx: usize = 0;
        while idx < n_lines
            invariant
                idx <= n_lines == r.len() == self.carets.carets@.len(),
                n_lines == end_line - start_line + 1,
                a == b1.drag_start_pos.0,
                *self == (Buffer { carets: self.carets, ..b1 }),
                forall|i: int| 0 <= i < idx ==> #[trigger] self.carets.carets@[i]
                    == (Caret { position: span_position(start_line + i, x, a), ..r[i] }),
                forall|i: int| idx <= i < n_lines ==> #[trigger] self.carets.carets@[i] == r[i],
            decreases n_lines - idx,
        {
            let l = start_line + idx;
            let caret = self.carets.carets.index_mut(idx);
            caret.set_position(Position::new(Cursor::new(l, x), Selection::new(l, a)));
            caret.merge_sel_pos();
            idx = idx + 1;
        }
        assert(resized(b1.carets.carets@, b1.carets.carets is One, span_count(y, b1.drag_start_pos.1), r));
        assert(spanned(b1, *self, x, y));
    }

    /// A double click: the edit in progress is recorded, then the first caret
    /// selects the name under the pointer (see [`word_selected`]). The
    /// messages are cleared first.
    pub fn operate_double_click(&mut self, col: u16, row: u16, last_content_rect: Rect, logs: &mut Vec<Log>)
        requires
            old(self).wf(),
            click_fits(col, row, last_content_rect, old(self).scrollbar),
        ensures
            final(self).wf(),
            exists|b1: Buffer| #![trigger commit_rel(*old(self), Seq::empty(), b1, final(logs)@)]
                commit_rel(*old(self), Seq::empty(), b1, final(logs)@)
                && word_selected(b1, *final(self), click_col(col, last_content_rect, old(self).scrollbar) as usize,
                    click_line(row, last_content_rect, old(self).scrollbar) as usize),
    {
        logs.clear();
        self.commit(logs);
        let ghost b1 = *self;
        let (x, y) = self.click_position(col, row, last_content_rect);
        if self.content.len() == 0 || self.carets.carets.len() == 0 {
            return;
        }
        let (line, col0) = Cursor::clamp_position(x, y, &self.content);
        let l = self.content.index(line);
        let len = l.len();
        if col0 < len && !is_variable_at(l.as_slice(), col0) {
            return;
        }
        let mut start_col = col0;
        while start_col != 0 && is_variable_at(l.as_slice(), start_col - 1)
            invariant
                start_col <= col0 <= len == l@.len(),
                run_backward(l@, start_col as int, true) == run_backward(l@, col0 as int, true),
            decreases start_col,
        {
            start_col = start_col - 1;
        }
        let mut end_col = col0;
        while end_col < len && is_variable_at(l.as_slice(), end_col)
            invariant
                col0 <= end_col <= len == l@.len(),
                run_forward(l@, end_col as int, true) == run_forward(l@, col0 as int, true),
            decreases len - end_col,
        {
            end_col = end_col + 1;
        }
        self.carets.carets.index_mut(0).set_position(Position {
            cursor: Cursor::new(line, end_col),
            selection: Selection::new(line, start_col),
        });
        assert(word_selected(b1, *self, x, y));
    }
}

/// The keys that move the carets.
#[derive(Debug, Clone, Copy, PartialEq, Eq, Structural)]
pub enum Arrow {
    L,
    R,
    U,
    D,
    End,
    Home,
    PU,
    PD,
}

/// The cursor `k` can make the motion of `arrow` (by words with `ctrl`, by
/// `page` lines for the page keys) in the text `c` (otherwise it would panic).
pub open spec fn motion_ok(c: Seq<Seq<u8>>, k: Cursor, arrow: Arrow, ctrl: bool, page: usize) -> bool {
    let line = k.line as int;
    match arrow {
        Arrow::L => if ctrl {
            &&& line < c.len()
            &&& k.col <= c[line].len()
            &&& k.col > 0 ==> skip_spaces_backward(c[line], k.col as int) > 0
            &&& k.col == 0 && line > 0 ==> line - 1 < c.len()
        } else {
            k.col == 0 && line > 0 ==> line - 1 < c.len()
        },
        Arrow::R => line < c.len(),
        Arrow::U => (if line >= 1 { line - 1 } else { 0 }) < c.len(),
        Arrow::D => line + 1 <= usize::MAX && c.len() > 0,
        Arrow::End => if ctrl { c.len() > 0 } else { line < c.len() },
        Arrow::Home => true,
        Arrow::PU => (if line >= page { line - page } else { 0 }) < c.len(),
        Arrow::PD => line + page <= usize::MAX && c.len() > 0,
    }
}

/// The cursor `k` after a vertical motion to line `l`, landing on its goal
/// column.
pub open spec fn to_line(c: Seq<Seq<u8>>, k: Cursor, l: int) -> Cursor {
    Cursor { line: l as usize, col: goal_col(k.goal, c[l].len() as int) as usize, goal: k.goal }
}

/// The cursor `k` after the motion of `arrow` in the text `c` (see the
/// motions of [`Cursor`]), where [`motion_ok`] holds.
pub open spec fn moved_cursor(c: Seq<Seq<u8>>, k: Cursor, arrow: Arrow, ctrl: bool, page: usize) -> Cursor {
    let line = k.line as int;
    match arrow {
        Arrow::L => if k.col > 0 {
            cursor_at(line, if ctrl { prev_word_col(c[line], k.col as int) } else { k.col - 1 })
        } else if line > 0 {
            cursor_at(line - 1, c[line - 1].len() as int)
        } else {
            cursor_at(0, 0)
        },
        Arrow::R => if k.col < c[line].len() {
            cursor_at(line, if ctrl { next_word_col(c[line], k.col as int) } else { k.col + 1 })
        } else if line + 1 < c.len() {
            cursor_at(line + 1, 0)
        } else {
            cursor_at(line, k.col as int)
        },
        Arrow::U => to_line(c, k, if line >= 1 { line - 1 } else { 0 }),
        Arrow::D => to_line(c, k, if line + 1 < c.len() { line + 1 } else { c.len() - 1 }),
        Arrow::End => if ctrl {
            cursor_at(c.len() - 1, 0)
        } else {
            Cursor { line: k.line, col: c[line].len() as usize, goal: HorizontalGoal::EndOfLine }
        },
        Arrow::Home => if ctrl { cursor_at(0, 0) } else { cursor_at(line, 0) },
        Arrow::PU => to_line(c, k, if line >= page { line - page } else { 0 }),
        Arrow::PD => to_line(c, k, if line + page < c.len() { line + page } else { c.len() - 1 }),
    }
}

/// Caret `k` after an arrow key in the text `c`: with `shift` a selection is
/// anchored where the cursor was (unless there is one), without it the
/// selection goes; the cursor moves (see [`moved_cursor`]) and a selection
/// that became empty goes. Unchanged where the motion cannot be made.
pub open spec fn arrow_caret(c: Seq<Seq<u8>>, k: Caret, arrow: Arrow, shift: bool, ctrl: bool, page: usize) -> Caret {
    let p = k.pos();
    if !motion_ok(c, p.cursor, arrow, ctrl, page) {
        k
    } else {
        let sel = if shift {
            if p.selection.none { Selection { line: p.cursor.line, col: p.cursor.col, none: false } } else { p.selection }
        } else {
            Selection { none: true, ..p.selection }
        };
        let cur = moved_cursor(c, p.cursor, arrow, ctrl, page);
        let empty = !sel.none && cur.line == sel.line && cur.col == sel.col;
        Caret { position: Position { cursor: cur, selection: Selection { none: sel.none || empty, ..sel } }, ..k }
    }
}

/// Whether stepping back over the spaces from `col` stops after the start
/// of the line.
fn spaces_back_ok(l: &Vec<u8>, col: usize) -> (r: bool)
    ensures
        r == (skip_spaces_backward(l@, col as int) > 0),
{
    let mut c = col;
    while c < l.len() && l[c] == 32u8
        invariant
            c <= col,
            skip_spaces_backward(l@, c as int) == skip_spaces_backward(l@, col as int),
        decreases c,
    {
        if c == 0 {
            return false;
        }
        c = c - 1;
    }
    c > 0
}

impl Buffer {
    /// Moves the cursor `cur` as `arrow` says, where it can.
    fn move_cursor(cur: &mut Cursor, content: &Content, arrow: Arrow, ctrl: bool, page: usize)
        requires
            motion_ok(content@, *old(cur), arrow, ctrl, page),
        ensures
            *final(cur) == moved_cursor(content@, *old(cur), arrow, ctrl, page),
    {
        match arrow {
            Arrow::L => if ctrl { cur.prev_word(content) } else { cur.prev(content) },
            Arrow::R => if ctrl { cur.next_word(content) } else { cur.next(content) },
            Arrow::U => cur.up(1, content),
            Arrow::D => cur.down(1, content),
            Arrow::End => if ctrl { cur.ctrl_end(content) } else { cur.end(content) },
            Arrow::Home => if ctrl { cur.ctrl_home() } else { cur.home() },
            Arrow::PU => cur.up(page, content),
            Arrow::PD => cur.down(page, content),
        }
    }

    /// Whether the cursor `cur` can make the motion of `arrow`.
    fn can_move(cur: &Cursor, content: &Content, arrow: Arrow, ctrl: bool, page: usize) -> (r: bool)
        ensures
            r == motion_ok(content@, *cur, arrow, ctrl, page),
    {
        let n = content.len();
        let line = cur.line;
        match arrow {
            Arrow::L => if ctrl {
                if line >= n || cur.col > content.index(line).len() {
                    return false;
                }
                if cur.col > 0 && !spaces_back_ok(content.index(line), cur.col) {
                    return false;
                }
                !(cur.col == 0 && line > 0 && line - 1 >= n)
            } else {
                !(cur.col == 0 && line > 0 && line - 1 >= n)
            },
            Arrow::R => line < n,
            Arrow::U => (if line >= 1 { line - 1 } else { 0 }) < n,
            Arrow::D => line < usize::MAX && n > 0,
            Arrow::End => if ctrl { n > 0 } else { line < n },
            Arrow::Home => true,
            Arrow::PU => (if line >= page { line - page } else { 0 }) < n,
            Arrow::PD => line <= usize::MAX - page && n > 0,
        }
    }

    /// An arrow key: the edit in progress is recorded, every caret moves (see
    /// [`arrow_caret`]), by words with `ctrl`, extending its selection with
    /// `shift`, a page being the height of the view; then the view follows
    /// the carets. The messages are cleared first.
    pub fn operate_arrow(&mut self, arrow: Arrow, shift: bool, ctrl: bool, last_content_rect: Rect, logs: &mut Vec<Log>)
        requires
            old(self).wf(),
        ensures
            final(self).wf(),
            exists|b1: Buffer, b2: Buffer| #![trigger commit_rel(*old(self), Seq::empty(), b1, final(logs)@), scrolled_rel(b2, *final(self), last_content_rect)]
                commit_rel(*old(self), Seq::empty(), b1, final(logs)@)
                && b2 == (Buffer { carets: b2.carets, ..b1 })
                && b2.carets.carets@.len() == b1.carets.carets@.len()
                && (forall|i: int| 0 <= i < b1.carets.carets@.len() ==> #[trigger] b2.carets.carets@[i]
                    == arrow_caret(b1.content@, b1.carets.carets@[i], arrow, shift, ctrl, last_content_rect.height as usize))
                && scrolled_rel(b2, *final(self), last_content_rect),
    {
        self.operate_arrow_begin(logs);
        let ghost b1 = *self;
        let page = last_content_rect.height as usize;
        let n = self.carets.carets.len();
        let mut i: usize = 0;
        while i < n
            invariant
                i <= n == b1.carets.carets@.len() == self.carets.carets@.len(),
                *self == (Buffer { carets: self.carets, ..b1 }),
                page == last_content_rect.height as usize,
                forall|k: int| 0 <= k < i ==> #[trigger] self.carets.carets@[k]
                    == arrow_caret(b1.content@, b1.carets.carets@[k], arrow, shift, ctrl, page),
                forall|k: int| i <= k < n ==> #[trigger] self.carets.carets@[k] == b1.carets.carets@[k],
            decreases n - i,
        {
            let mut pos = *self.carets.carets.index(i).get_position();
            if Self::can_move(&pos.cursor, &self.content, arrow, ctrl, page) {
                if shift {
                    if pos.selection.is_none() {
                        pos.selection.set_to(&pos.cursor);
                    }
                } else {
                    pos.selection.none = true;
                }
                Self::move_cursor(&mut pos.cursor, &self.content, arrow, ctrl, page);
                let caret = self.carets.carets.index_mut(i);
                caret.set_position(pos);
                caret.merge_sel_pos();
            }
            i = i + 1;
        }
        let ghost b2 = *self;
        self.operate_arrow_end(last_content_rect);
    }
}

/// Nanoseconds within which a second press at the same cell makes a double
/// click.
pub const DOUBLE_CLICK_DURATION_NS: u128 = 300_000_000;

/// Whether a press at column `col`, row `row`, coming `elapsed_ns`
/// nanoseconds after the last press, at column `prev_col`, row `prev_row`,
/// makes a double click.
pub fn is_double_click(prev_col: u16, prev_row: u16, elapsed_ns: u128, col: u16, row: u16) -> (r: bool)
    ensures
        r == (elapsed_ns <= DOUBLE_CLICK_DURATION_NS && col == prev_col && row == prev_row),
{
    !(elapsed_ns > DOUBLE_CLICK_DURATION_NS || col != prev_col || row != prev_row)
}

} // verus!
