//! The steps that the editing commands of a buffer are made of.
use crate::buffer::Buffer;
use crate::caret::{with_max, Caret, CursorEditor, Position};
use crate::checkpoints::Checkpoints;
use crate::content::{all_same, range_in, replace_text_ok, replace_text_post, selected_texts};
use crate::line_ending::{join, le_bytes};
use crate::text::str_bytes;
use vstd::utf8::{encode_utf8, is_char_boundary, valid_utf8};
use crate::cursor::{Cursor, HorizontalGoal};
use crate::little_string::LittleString;
use crate::mostly_one_vec::MostlyOneVec;
use crate::selection::Selection;
use vstd::prelude::*;

verus! {

/// One edit at caret `i` of `cs0` over the text `c0` with the lines `new`,
/// giving `c1` and `cs1`: as [`crate::content::Content::replace_text`] does it
/// where its needs are met (otherwise it would panic), no change otherwise.
pub open spec fn edit_step(c0: Seq<Seq<u8>>, cs0: Seq<Caret>, i: int, new: Seq<LittleString>, c1: Seq<Seq<u8>>, cs1: Seq<Caret>) -> bool {
    if replace_text_ok(c0, cs0[i], new) {
        replace_text_post(c0, cs0, i, new, c1, cs1)
    } else {
        c1 == c0 && cs1 == cs0
    }
}

/// `n` spaces.
pub open spec fn spaces(n: int) -> Seq<u8> {
    Seq::new(n as nat, |j: int| 32u8)
}

/// Caret `i` of `cs0` after its virtual spaces are made real in the text `c0`,
/// giving `c1` and `cs1`. Where the start of its range lies past the end of its
/// line, the caret moves to the end of that line, without selection, and spaces
/// are typed there up to where it started; otherwise, where the end of its
/// range lies past the end of its line, that end moves back to it. Nothing
/// changes where a line of the range is not in the text (it would panic there).
pub open spec fn materialize_step(c0: Seq<Seq<u8>>, cs0: Seq<Caret>, i: int, c1: Seq<Seq<u8>>, cs1: Seq<Caret>) -> bool {
    let p = cs0[i].pos();
    let min = p.min_lc();
    let max = p.max_lc(false);
    if min.0 >= c0.len() {
        c1 == c0 && cs1 == cs0
    } else if c0[min.0].len() < min.1 {
        let len = c0[min.0].len();
        let at_end = Position {
            cursor: Cursor { line: min.0 as usize, col: len as usize, goal: HorizontalGoal::Column(len as usize) },
            selection: Selection { line: 0, col: 0, none: true },
        };
        let mid = cs0.update(i, Caret { position: at_end, ..cs0[i] });
        exists|s: LittleString| #![trigger s@]
            s.wf() && s@ == spaces(min.1 - len) && edit_step(c0, mid, i, seq![s], c1, cs1)
    } else if max.0 >= c0.len() {
        c1 == c0 && cs1 == cs0
    } else if c0[max.0].len() < max.1 {
        c1 == c0 && cs1 =~= cs0.update(i, Caret { position: with_max(p, (max.0, c0[max.0].len() as int)), ..cs0[i] })
    } else {
        c1 == c0 && cs1 == cs0
    }
}

/// The texts `c` and carets `cs` pass through [`materialize_step`] for each
/// caret in turn.
pub open spec fn materialize_chain(c: Seq<Seq<Seq<u8>>>, cs: Seq<Seq<Caret>>) -> bool {
    &&& cs.len() >= 1
    &&& c.len() == cs.len()
    &&& cs.len() == cs[0].len() + 1
    &&& forall|k: int| 0 <= k < cs.len() ==> (#[trigger] cs[k]).len() == cs[0].len()
    &&& forall|k: int| 0 <= k < cs.len() - 1 ==> #[trigger] materialize_step(c[k], cs[k], k, c[k + 1], cs[k + 1])
}

/// The text `c1` and carets `cs1` are what making the virtual spaces of every
/// caret real gives from `c0` and `cs0`.
pub open spec fn materialized(c0: Seq<Seq<u8>>, cs0: Seq<Caret>, c1: Seq<Seq<u8>>, cs1: Seq<Caret>) -> bool {
    exists|c: Seq<Seq<Seq<u8>>>, cs: Seq<Seq<Caret>>| #![trigger materialize_chain(c, cs)]
        materialize_chain(c, cs) && c[0] == c0 && cs[0] == cs0 && c.last() == c1 && cs.last() == cs1
}

/// The fields of a buffer other than its text, carets and history are
/// unchanged.
pub open spec fn same_frame(b0: Buffer, b1: Buffer) -> bool {
    &&& b1.scrollbar == b0.scrollbar
    &&& b1.modified == b0.modified
    &&& b1.path == b0.path
    &&& b1.showing_filename == b0.showing_filename
    &&& b1.drag_start_pos == b0.drag_start_pos
    &&& b1.tab_size == b0.tab_size
    &&& b1.line_ending == b0.line_ending
}

/// The history keeps its checkpoints and its long timer; only the short
/// timer may restart.
pub open spec fn same_history(h0: Checkpoints, h1: Checkpoints) -> bool {
    &&& h1.others == h0.others
    &&& h1.cursor_lened == h0.cursor_lened
    &&& h1.big_timer_deadline == h0.big_timer_deadline
}

impl Buffer {
    /// Replaces the range of caret `i` by the lines `new_text`, recording the
    /// edit, where [`crate::content::Content::replace_text`] can (see
    /// [`edit_step`]).
    pub(crate) fn replace_at(&mut self, i: usize, new_text: &MostlyOneVec<LittleString>)
        requires
            i < old(self).carets.carets@.len(),
        ensures
            edit_step(old(self).content@, old(self).carets.carets@, i as int, new_text@,
                final(self).content@, final(self).carets.carets@),
            same_history(old(self).checkpoints, final(self).checkpoints),
            same_frame(*old(self), *final(self)),
    {
        if self.content.can_replace(self.carets.carets.index(i), new_text) {
            let mut ce = CursorEditor { cursor: i, cursors: &mut self.carets };
            self.content.replace_text(&mut self.checkpoints, &mut ce, new_text);
        }
    }

    /// Makes the virtual spaces of every caret real, caret by caret (see
    /// [`materialize_step`]).
    pub fn op_materialize_virtual_spaces(&mut self)
        ensures
            materialized(old(self).content@, old(self).carets.carets@, final(self).content@, final(self).carets.carets@),
            same_history(old(self).checkpoints, final(self).checkpoints),
            same_frame(*old(self), *final(self)),
    {
        let n = self.carets.carets.len();
        let ghost mut ch: Seq<Seq<Seq<u8>>> = seq![self.content@];
        let ghost mut csh: Seq<Seq<Caret>> = seq![self.carets.carets@];
        let mut i: usize = 0;
        while i < n
            invariant
                i <= n == old(self).carets.carets@.len(),
                self.carets.carets@.len() == n,
                ch.len() == i + 1,
                csh.len() == i + 1,
                ch[0] == old(self).content@,
                csh[0] == old(self).carets.carets@,
                ch.last() == self.content@,
                csh.last() == self.carets.carets@,
                forall|k: int| 0 <= k < csh.len() ==> (#[trigger] csh[k]).len() == n,
                forall|k: int| 0 <= k < i ==> #[trigger] materialize_step(ch[k], csh[k], k, ch[k + 1], csh[k + 1]),
                same_history(old(self).checkpoints, self.checkpoints),
                same_frame(*old(self), *self),
            decreases n - i,
        {
            let ghost c0 = self.content@;
            let ghost cs0 = self.carets.carets@;
            let p = *self.carets.carets.index(i).get_position();
            let min = p.get_min();
            let max = p.get_max(false);
            let line = min.0;
            if line < self.content.len() {
                let line_len = self.content.index(line).len();
                if line_len < min.1 {
                    let diff = min.1 - line_len;
                    self.content.reserve_at_line(line, diff);
                    self.carets.carets.index_mut(i).set_position(Position {
                        cursor: Cursor::new(line, line_len),
                        selection: Selection::empty(),
                    });
                    let ghost mid = self.carets.carets@;
                    let s = LittleString::from_char_repeated(32u8, diff);
                    let ghost sv = s;
                    assert(s@ =~= spaces(diff as int));
                    let text = MostlyOneVec::One(s);
                    assert(text@ =~= seq![sv]);
                    self.replace_at(i, &text);
                    proof {
                        assert(mid =~= cs0.update(i as int, Caret {
                            position: Position {
                                cursor: Cursor { line: line, col: line_len, goal: HorizontalGoal::Column(line_len) },
                                selection: Selection { line: 0, col: 0, none: true },
                            },
                            ..cs0[i as int]
                        }));
                    }
                } else if max.0 < self.content.len() {
                    let max_len = self.content.index(max.0).len();
                    if max_len < max.1 {
                        let mut pos = p;
                        pos.set_max((max.0, max_len));
                        self.carets.carets.index_mut(i).set_position(pos);
                    }
                }
            }
            proof {
                assert(materialize_step(c0, cs0, i as int, self.content@, self.carets.carets@));
                ch = ch.push(self.content@);
                csh = csh.push(self.carets.carets@);
            }
            i = i + 1;
        }
        assert(materialize_chain(ch, csh));
    }
}

/// Caret `k` with its cursor and anchor moved back to the end of their line
/// where they lie past it, then its selection dropped where it became empty.
/// Unchanged where a line it lies on is not in the text `c` (it would panic
/// there).
pub open spec fn trimmed(c: Seq<Seq<u8>>, k: Caret) -> Caret {
    let p = k.pos();
    if (!p.selection.none && p.selection.line >= c.len()) || p.cursor.line >= c.len() {
        k
    } else {
        let sl = c[p.selection.line as int].len();
        let cl = c[p.cursor.line as int].len();
        let sel = if !p.selection.none && sl < p.selection.col { Selection { col: sl as usize, ..p.selection } } else { p.selection };
        let cur = if cl < p.cursor.col { Cursor { col: cl as usize, ..p.cursor } } else { p.cursor };
        let q = Position { cursor: cur, selection: sel };
        let q2 = if !q.selection.none && q.cursor.line == q.selection.line && q.cursor.col == q.selection.col {
            Position { selection: Selection { none: true, ..q.selection }, ..q }
        } else {
            q
        };
        Caret { position: q2, ..k }
    }
}

/// What a copy puts on the clipboard, from the texts `t` of the carets'
/// ranges: that text where all are the same (nothing for no carets),
/// otherwise all of them joined with `sep`.
pub open spec fn copy_text(t: Seq<Seq<u8>>, sep: Seq<u8>) -> Seq<u8> {
    if all_same(t) {
        if t.len() > 0 { t[0] } else { Seq::empty() }
    } else {
        join(t, sep)
    }
}

/// Every caret's range lies within the text `c`.
pub open spec fn ranges_in(c: Seq<Seq<u8>>, cs: Seq<Caret>) -> bool {
    forall|i: int| 0 <= i < cs.len() ==> range_in(c, (#[trigger] cs[i]).pos().min_lc(), cs[i].pos().max_lc(false))
}

/// `b` split at each byte `sep` (which the parts do not keep).
pub open spec fn split_at_byte(b: Seq<u8>, sep: u8) -> Seq<Seq<u8>>
    decreases b.len(),
{
    if b.len() == 0 {
        seq![Seq::empty()]
    } else {
        let r = split_at_byte(b.drop_last(), sep);
        if b.last() == sep {
            r.push(Seq::empty())
        } else {
            r.update(r.len() - 1, r.last().push(b.last()))
        }
    }
}

proof fn lemma_split_at_byte_nonempty(b: Seq<u8>, sep: u8)
    ensures
        split_at_byte(b, sep).len() >= 1,
    decreases b.len(),
{
    if b.len() > 0 {
        lemma_split_at_byte_nonempty(b.drop_last(), sep);
    }
}

/// Splitting valid UTF-8 before an ASCII byte and after it leaves valid
/// UTF-8 on both sides.
proof fn lemma_split_around_ascii(b: Seq<u8>, j: int)
    requires
        valid_utf8(b),
        0 <= j < b.len(),
        b[j] < 128,
    ensures
        valid_utf8(b.subrange(0, j)),
        valid_utf8(b.subrange(j + 1, b.len() as int)),
{
    broadcast use vstd::utf8::is_char_boundary_iff_not_is_continuation_byte;
    assert(!vstd::utf8::is_continuation_byte(b[j]));
    assert(is_char_boundary(b, j));
    vstd::utf8::valid_utf8_split(b, j);
    let rest = b.subrange(j, b.len() as int);
    assert(rest[0] == b[j]);
    reveal_with_fuel(vstd::utf8::valid_utf8, 2);
    reveal_with_fuel(is_char_boundary, 2);
    assert(is_char_boundary(rest, 1));
    vstd::utf8::valid_utf8_split(rest, 1);
    assert(rest.subrange(1, rest.len() as int) =~= b.subrange(j + 1, b.len() as int));
}

impl Buffer {
    /// Moves every cursor and anchor that lies past the end of its line back
    /// to it, and drops selections that became empty (see [`trimmed`]).
    pub fn op_no_virtual_spaces(&mut self)
        ensures
            final(self).content == old(self).content,
            final(self).carets.carets@.len() == old(self).carets.carets@.len(),
            forall|i: int| 0 <= i < old(self).carets.carets@.len()
                ==> #[trigger] final(self).carets.carets@[i] == trimmed(old(self).content@, old(self).carets.carets@[i]),
            final(self).checkpoints == old(self).checkpoints,
            same_frame(*old(self), *final(self)),
    {
        let n = self.carets.carets.len();
        let mut i: usize = 0;
        while i < n
            invariant
                i <= n == old(self).carets.carets@.len() == self.carets.carets@.len(),
                self.content == old(self).content,
                self.checkpoints == old(self).checkpoints,
                same_frame(*old(self), *self),
                forall|k: int| 0 <= k < i ==> #[trigger] self.carets.carets@[k] == trimmed(self.content@, old(self).carets.carets@[k]),
                forall|k: int| i <= k < n ==> #[trigger] self.carets.carets@[k] == old(self).carets.carets@[k],
            decreases n - i,
        {
            let mut pos = *self.carets.carets.index(i).get_position();
            if !pos.selection.none {
                let line = pos.selection.line;
                if line >= self.content.len() {
                    i = i + 1;
                    continue;
                }
                let len = self.content.index(line).len();
                if len < pos.selection.col {
                    pos.selection.col = len;
                }
            }
            let line = pos.cursor.line;
            if line >= self.content.len() {
                i = i + 1;
                continue;
            }
            let len = self.content.index(line).len();
            if len < pos.cursor.col {
                pos.cursor.col = len;
            }
            let caret = self.carets.carets.index_mut(i);
            caret.set_position(pos);
            caret.merge_sel_pos();
            i = i + 1;
        }
    }

    /// Spaces from the column of the caret `ce.cursor` to the next multiple
    /// of `tab_size`.
    pub fn op_get_tab_little_string(ce: &CursorEditor, tab_size: usize) -> (r: LittleString)
        requires
            ce.cursor < old(ce.cursors).carets@.len(),
            tab_size > 0,
        ensures
            r.wf(),
            r@ == spaces(tab_size - old(ce.cursors).carets@[ce.cursor as int].pos().cursor.col % tab_size),
    {
        let col = ce.cursors.carets.index(ce.cursor).get_position().cursor.col;
        let tab_len = tab_size - (col % tab_size);
        let r = LittleString::from_char_repeated(32u8, tab_len);
        assert(r@ =~= spaces(tab_len as int));
        r
    }

    /// What a copy puts on the clipboard (see [`copy_text`]); `None` where a
    /// caret's range is not in the text (it would panic there).
    pub fn op_copy(&self) -> (r: Option<Vec<u8>>)
        ensures
            r is Some <==> ranges_in(self.content@, self.carets.carets@),
            r matches Some(v) ==> v@ == copy_text(selected_texts(self.content@, self.carets.carets@,
                le_bytes(self.line_ending)), le_bytes(self.line_ending)),
    {
        let n = self.carets.carets.len();
        let mut i: usize = 0;
        while i < n
            invariant
                i <= n == self.carets.carets@.len(),
                forall|k: int| 0 <= k < i ==> range_in(self.content@, (#[trigger] self.carets.carets@[k]).pos().min_lc(),
                    self.carets.carets@[k].pos().max_lc(false)),
            decreases n - i,
        {
            let p = self.carets.carets.index(i).get_position();
            let min = p.get_min();
            let max = p.get_max(false);
            let total = self.content.len();
            if !(min.0 <= max.0 && max.0 < total) {
                return None;
            }
            if min.0 == max.0 && !(min.1 <= max.1 && max.1 <= self.content.index(min.0).len()) {
                return None;
            }
            if min.0 < max.0 && !(min.1 <= self.content.index(min.0).len() && max.1 <= self.content.index(max.0).len()) {
                return None;
            }
            i = i + 1;
        }
        Some(self.content.get_copyable_text(&self.carets, self.line_ending))
    }

    /// The lines to paste at each caret from the clipboard text `text`, split
    /// at each "\n": one line each where there are as many lines as carets,
    /// otherwise all the lines at every caret (at one caret where there is
    /// none).
    pub fn op_get_each_cursor_clipboard(&self, text: &str) -> (r: MostlyOneVec<MostlyOneVec<LittleString>>)
        ensures
            ({
                let parts = split_at_byte(encode_utf8(text@), 10u8);
                let n = self.carets.carets@.len();
                &&& parts.len() == n ==> r@.len() == n && forall|i: int| 0 <= i < n ==> {
                    &&& (#[trigger] r@[i])@.len() == 1
                    &&& r@[i]@[0]@ == parts[i]
                    &&& r@[i]@[0].wf()
                }
                &&& parts.len() != n ==> r@.len() == (if n == 0 { 1 } else { n }) && forall|i: int| 0 <= i < r@.len() ==> {
                    &&& (#[trigger] r@[i])@.len() == parts.len()
                    &&& forall|j: int| 0 <= j < parts.len() ==> (#[trigger] r@[i]@[j])@ == parts[j] && r@[i]@[j].wf()
                }
            }),
    {
        let parts = split_text(text);
        let ghost pv = split_at_byte(encode_utf8(text@), 10u8);
        let n = self.carets.carets.len();
        if parts.len() == n {
            let mut r: MostlyOneVec<MostlyOneVec<LittleString>> = MostlyOneVec::with_capacity(n);
            let mut i: usize = 0;
            while i < n
                invariant
                    i <= n == parts@.len() == pv.len(),
                    r@.len() == i,
                    forall|k: int| 0 <= k < n ==> (#[trigger] parts@[k])@ == pv[k] && parts@[k].wf(),
                    forall|k: int| 0 <= k < i ==> {
                        &&& (#[trigger] r@[k])@.len() == 1
                        &&& r@[k]@[0]@ == pv[k]
                        &&& r@[k]@[0].wf()
                    },
                decreases n - i,
            {
                let one = parts.index(i).clone();
                let ghost before = r@;
                r.push(MostlyOneVec::One(one));
                assert(r@[i as int]@ =~= seq![one]);
                assert forall|k: int| 0 <= k < i implies #[trigger] r@[k] == before[k] by {}
                i = i + 1;
            }
            r
        } else {
            let count = if n == 0 { 1 } else { n };
            let mut r: MostlyOneVec<MostlyOneVec<LittleString>> = MostlyOneVec::with_capacity(n);
            let mut i: usize = 0;
            while i < count
                invariant
                    i <= count,
                    count == (if n == 0 { 1 } else { n }),
                    parts@.len() == pv.len(),
                    forall|k: int| 0 <= k < pv.len() ==> (#[trigger] parts@[k])@ == pv[k] && parts@[k].wf(),
                    r@.len() == i,
                    forall|k: int| 0 <= k < i ==> {
                        &&& (#[trigger] r@[k])@.len() == pv.len()
                        &&& forall|j: int| 0 <= j < pv.len() ==> (#[trigger] r@[k]@[j])@ == pv[j] && r@[k]@[j].wf()
                    },
                decreases count - i,
            {
                let copy = clone_lines(&parts);
                let ghost before = r@;
                r.push(copy);
                assert forall|k: int| 0 <= k < i implies #[trigger] r@[k] == before[k] by {}
                i = i + 1;
            }
            r
        }
    }
}

/// A copy of the lines, each byte for byte the same.
fn clone_lines(v: &MostlyOneVec<LittleString>) -> (r: MostlyOneVec<LittleString>)
    ensures
        r@ == v@,
{
    let n = v.len();
    let mut r: MostlyOneVec<LittleString> = MostlyOneVec::with_capacity(n);
    let mut i: usize = 0;
    while i < n
        invariant
            i <= n == v@.len(),
            r@ == v@.take(i as int),
        decreases n - i,
    {
        r.push(v.index(i).clone());
        assert(r@ =~= v@.take(i + 1));
        i = i + 1;
    }
    assert(v@.take(n as int) =~= v@);
    r
}

/// The text split at each "\n", each part as a little string.
fn split_text(text: &str) -> (r: MostlyOneVec<LittleString>)
    ensures
        r@.len() == split_at_byte(encode_utf8(text@), 10u8).len(),
        forall|k: int| 0 <= k < r@.len() ==> (#[trigger] r@[k])@ == split_at_byte(encode_utf8(text@), 10u8)[k]
            && r@[k].wf(),
{
    let b = str_bytes(text);
    let ghost bs = b@;
    proof {
        vstd::utf8::encode_utf8_valid_utf8(text@);
    }
    let n = b.len();
    let mut r: MostlyOneVec<LittleString> = MostlyOneVec::Zero;
    let mut start: usize = 0;
    let mut i: usize = 0;
    assert(bs.subrange(0, n as int) =~= bs);
    assert(bs.take(0) =~= Seq::<u8>::empty());
    assert(bs.subrange(0, 0) =~= Seq::<u8>::empty());
    while i < n
        invariant
            b@ == bs,
            start <= i <= n == bs.len(),
            valid_utf8(bs.subrange(start as int, n as int)),
            forall|k: int| start <= k < i ==> bs[k] != 10u8,
            ({
                let sp = split_at_byte(bs.take(i as int), 10u8);
                &&& sp.len() == r@.len() + 1
                &&& sp.last() == bs.subrange(start as int, i as int)
                &&& forall|k: int| 0 <= k < r@.len() ==> (#[trigger] r@[k])@ == sp[k] && r@[k].wf()
            }),
        decreases n - i,
    {
        let ghost sp = split_at_byte(bs.take(i as int), 10u8);
        assert(bs.take(i + 1).drop_last() =~= bs.take(i as int));
        if b[i] == 10u8 {
            let ghost rest = bs.subrange(start as int, n as int);
            proof {
                assert(rest[i - start] == bs[i as int]);
                lemma_split_around_ascii(rest, i - start);
                assert(rest.subrange(0, i - start) =~= bs.subrange(start as int, i as int));
                assert(rest.subrange(i - start + 1, rest.len() as int) =~= bs.subrange(i + 1, n as int));
            }
            let part = LittleString::from_iter(&b[start..i]);
            assert(b@.subrange(start as int, i as int) =~= bs.subrange(start as int, i as int));
            r.push(part);
            start = i + 1;
            proof {
                let sp2 = split_at_byte(bs.take(i + 1), 10u8);
                assert(sp2 == sp.push(Seq::empty()));
                assert(bs.subrange(start as int, (i + 1) as int) =~= Seq::<u8>::empty());
            }
        } else {
            proof {
                let sp2 = split_at_byte(bs.take(i + 1), 10u8);
                assert(sp2 == sp.update(sp.len() - 1, sp.last().push(bs[i as int])));
                assert(bs.subrange(start as int, (i + 1) as int) =~= bs.subrange(start as int, i as int).push(bs[i as int]));
            }
        }
        i = i + 1;
    }
    proof {
        assert(bs.take(n as int) =~= bs);
        assert(bs.subrange(start as int, n as int) =~= bs.subrange(start as int, n as int));
    }
    let part = LittleString::from_iter(&b[start..n]);
    assert(b@.subrange(start as int, n as int) =~= bs.subrange(start as int, n as int));
    r.push(part);
    r
}

} // verus!
