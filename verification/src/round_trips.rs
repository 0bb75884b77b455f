//! Edits that take each other back: undoing and redoing an edit, and pasting what was cut.
use crate::buffer::{commit_rel, Buffer};
use crate::caret::{cursors_fit, merged, Caret};
use crate::checkpoints::{added_walk, caret_walk, clip, commit_ok, nothing_recorded, records_carets, walk_utf8, N_DRAIN_CHECKPOINTS,
    N_MAX_CHECKPOINTS};
use crate::content::{leading_ws, replace_plain_post, replace_requires, selected_lines, spliced, text_lines, total_len};
use crate::edit_controller::{char_lines, char_placed, edited_each, finished, materialized_rel, merge_result, merged_rel,
    modified_rel, no_more, no_prep, resized, restore_chain, restore_edits, restore_fits, restore_nth, restore_position,
    redone, restored, scrolled_rel, undone, deleted_forward, no_virtual_rel, some_selected, some_at_line_end,
    forward_prep, no_lines, forwards, deleted_backward, backward_prep, backwards, some_at_line_start, cut_rel, pasted,
    copy_result, paste_lines, line_broken, newline_lines, indent_of, tabbed, tab_lines};
use crate::edit_operators::{edit_step, materialize_chain, materialize_step};
use crate::history::{flatten, is_ascii, ls_lines, toks};
use crate::little_string::LittleString;
use crate::log::Log;
use crate::scrollbar::Rect;
use vstd::prelude::*;

verus! {

broadcast use vstd::seq_lib::group_to_multiset_ensures;

/// The only caret of `b` has no edit in progress and stands, with nothing
/// selected, at a column of a line of the text.
pub open spec fn idle_single_caret(b: Buffer) -> bool {
    let k = b.carets.carets@[0];
    &&& b.carets.carets@.len() == 1
    &&& k.pos().selection.none
    &&& k.pos().cursor.line < b.content@.len()
    &&& k.pos().cursor.col <= b.content@[k.pos().cursor.line as int].len()
    &&& k.added_len == 0
    &&& k.removed_text@.len() == 0
}

/// `c` with the byte `b` put in at column `col` of line `l`.
pub open spec fn byte_inserted(c: Seq<Seq<u8>>, l: int, col: int, b: u8) -> Seq<Seq<u8>> {
    c.update(l, c[l].take(col).push(b) + c[l].skip(col))
}

/// `c` with the byte at column `col` of line `l` taken out.
pub open spec fn byte_removed(c: Seq<Seq<u8>>, l: int, col: int) -> Seq<Seq<u8>> {
    c.update(l, c[l].take(col) + c[l].skip(col + 1))
}

/// A single caret is left as it is by merging.
proof fn lemma_merge_single(a: Seq<Caret>, b: Seq<Caret>)
    requires
        a.len() == 1,
        merge_result(a, b),
    ensures
        b == a,
{
    if cursors_fit(a) {
        let s = choose|s: Seq<Caret>| #![trigger merged(s)]
            s.to_multiset() == a.to_multiset() && s.len() == a.len() && crate::caret::sorted_by_min(s) && b == merged(s);
        assert(s.contains(s[0]));
        assert(a.to_multiset().count(s[0]) > 0);
        assert(a.contains(s[0]));
        assert(s =~= a);
    }
}

/// Finishing an edit keeps the text, the history and a single caret.
proof fn lemma_finished_single(b0: Buffer, b1: Buffer, r: Rect)
    requires
        finished(b0, b1, r),
    ensures
        b1.content == b0.content,
        b0.carets.carets@.len() == 1 ==> b1.carets.carets@ == b0.carets.carets@,
        b1.checkpoints.others == b0.checkpoints.others,
        b1.checkpoints.cursor_lened == b0.checkpoints.cursor_lened,
        b1.tab_size == b0.tab_size,
{
    let (m1, m2) = choose|m1: Buffer, m2: Buffer| #![trigger modified_rel(b0, m1), merged_rel(m1, m2)]
        modified_rel(b0, m1) && merged_rel(m1, m2) && scrolled_rel(m2, b1, r);
    if b0.carets.carets@.len() == 1 {
        lemma_merge_single(m1.carets.carets@, m2.carets.carets@);
    }
}

/// Lines whose flattening is empty are one empty line, or none.
proof fn lemma_flatten_empty(lines: Seq<Seq<u8>>)
    requires
        lines.len() > 0,
        flatten(lines).len() == 0,
    ensures
        lines.len() == 1,
        lines[0].len() == 0,
{
    if lines.len() >= 2 {
        assert(flatten(lines) == flatten(lines.drop_last()) + seq![None::<u8>] + toks(lines.last()));
    }
}


/// A caret whose edit in progress, if any, has only put bytes in: what it
/// removed is nothing or one empty line, and it counts added bytes only once
/// an edit has started.
pub open spec fn only_typing(k: Caret) -> bool {
    &&& k.started || k.added_len == 0
    &&& k.removed_text@.len() == 0 || (k.removed_text@.len() == 1 && k.removed_text@[0].wf()
        && k.removed_text@[0]@.len() == 0)
}

/// Typing a character at a single caret with nothing selected, inside its
/// line, whose edit in progress has only put bytes in, puts the byte in at
/// the cursor and moves the cursor past it, counting one more byte added.
#[verifier::rlimit(40)]
proof fn lemma_type_step(b0: Buffer, ch: char, r: Rect, b1: Buffer)
    requires
        ({
            let k = b0.carets.carets@[0];
            let p = k.pos();
            &&& b0.carets.carets@.len() == 1
            &&& p.selection.none
            &&& p.cursor.line < b0.content@.len()
            &&& p.cursor.col <= b0.content@[p.cursor.line as int].len()
            &&& p.cursor.col < usize::MAX
            &&& only_typing(k)
            &&& k.added_len < usize::MAX
        }),
        char_placed(b0, ch, r, b1),
    ensures
        ({
            let k0 = b0.carets.carets@[0];
            let k1 = b1.carets.carets@[0];
            let l = k0.pos().cursor.line;
            let col = k0.pos().cursor.col;
            &&& b1.content@ == byte_inserted(b0.content@, l as int, col as int, ch as u8)
            &&& b1.carets.carets@.len() == 1
            &&& k1.pos().cursor.line == l
            &&& k1.pos().cursor.col == col + 1
            &&& k1.pos().selection.none
            &&& k1.added_len == k0.added_len + 1
            &&& k1.started
            &&& k1.removed_text@.len() == 1
            &&& k1.removed_text@[0].wf()
            &&& k1.removed_text@[0]@.len() == 0
            &&& b1.checkpoints.others == b0.checkpoints.others
            &&& b1.checkpoints.cursor_lened == b0.checkpoints.cursor_lened
            &&& b1.tab_size == b0.tab_size
        }),
{
    let k0 = b0.carets.carets@[0];
    let l = k0.pos().cursor.line as int;
    let col = k0.pos().cursor.col as int;
    let c0 = b0.content@;
    let (m1, m2) = choose|m1: Buffer, m2: Buffer| #![trigger materialized_rel(b0, m1), edited_each(m1, m2, no_prep(), char_lines(ch))]
        materialized_rel(b0, m1) && edited_each(m1, m2, no_prep(), char_lines(ch)) && finished(m2, b1, r);
    // Nothing to make real: the caret lies within its line.
    let (mc, mcs) = choose|c: Seq<Seq<Seq<u8>>>, cs: Seq<Seq<Caret>>| #![trigger materialize_chain(c, cs)]
        materialize_chain(c, cs) && c[0] == c0 && cs[0] == b0.carets.carets@ && c.last() == m1.content@
        && cs.last() == m1.carets.carets@;
    assert(materialize_chain(mc, mcs));
    assert(mcs.len() == 2);
    assert(materialize_step(mc[0], mcs[0], 0, mc[0int + 1], mcs[0int + 1]));
    assert(m1.content@ == c0);
    assert(m1.carets.carets@ == b0.carets.carets@);
    // The one edit.
    let (ec, ecs, news) = choose|c: Seq<Seq<Seq<u8>>>, cs: Seq<Seq<Caret>>, news: Seq<Seq<LittleString>>|
        #![trigger crate::edit_controller::edit_chain(c, cs, news, no_prep(), char_lines(ch))]
        crate::edit_controller::edit_chain(c, cs, news, no_prep(), char_lines(ch)) && news.len() == m1.carets.carets@.len()
        && c[0] == m1.content@ && cs[0] == m1.carets.carets@ && c.last() == m2.content@
        && cs.last() == m2.carets.carets@;
    let new = news[0];
    assert(crate::edit_controller::edit_chain(ec, ecs, news, no_prep(), char_lines(ch)));
    assert(edit_step(ec[0], no_prep()(ec[0], ecs[0], 0), 0, news[0], ec[0int + 1], ecs[0int + 1]));
    assert(ls_lines(news[0]) == char_lines(ch)(ec[0], no_prep()(ec[0], ecs[0], 0), 0));
    assert(ls_lines(new) == seq![seq![ch as u8]]);
    assert(ls_lines(new).len() == new.len());
    assert(new.len() == 1);
    assert(new[0]@ == ls_lines(new)[0]);
    assert(new[0].wf());
    let t = flatten(selected_lines(c0, (l, col), (l, col)));
    assert(crate::content::selected_part(c0, (l, col), (l, col), l) =~= Seq::<u8>::empty());
    assert(selected_lines(c0, (l, col), (l, col)) =~= seq![Seq::<u8>::empty()]);
    assert(toks(Seq::<u8>::empty()) =~= Seq::<Option<u8>>::empty());
    assert(t.len() == 0);
    assert(total_len(new.drop_last()) == 0);
    assert(total_len(new) == 1);
    if k0.removed_text@.len() == 1 {
        assert(is_ascii(k0.removed_text@[0]@));
        assert(ls_lines(k0.removed_text@)[0] =~= Seq::<u8>::empty());
        assert(ls_lines(k0.removed_text@) =~= seq![Seq::<u8>::empty()]);
    }
    assert(crate::content::replace_text_ok(c0, k0, new));
    let k2 = ecs[1][0];
    assert(flatten(crate::content::recorded_before(k0)) =~= Seq::<Option<u8>>::empty());
    lemma_flatten_empty(ls_lines(k2.removed_text@));
    assert(ecs[1].len() == 1);
    assert(m2.carets.carets@ == ecs[1]);
    let b = ch as u8;
    assert(crate::content::text_lines(new) =~= seq![seq![b]]);
    assert(ec[1] == crate::content::spliced(c0, (l, col), (l, col), seq![seq![b]]));
    assert(c0[l].take(col) + seq![b] + c0[l].skip(col) =~= c0[l].take(col).push(b) + c0[l].skip(col));
    assert(ec[1] =~= byte_inserted(c0, l, col, b));
    assert(m2.content@ == byte_inserted(c0, l, col, b));
    lemma_finished_single(m2, b1, r);
}

/// The bytes typed for the characters `chs` (each code cut to a byte).
pub open spec fn typed_bytes(chs: Seq<char>) -> Seq<u8> {
    chs.map_values(|c: char| c as u8)
}

/// `b` is `b0` after the bytes `text` were typed at its single caret: the
/// text has them at the caret's column, the caret stands after them, with
/// nothing selected, counting them as added, and the history and tabs are
/// as they were.
pub open spec fn typed_run(b0: Buffer, b: Buffer, text: Seq<u8>) -> bool {
    let p0 = b0.carets.carets@[0].pos();
    let k = b.carets.carets@[0];
    &&& b.content@ == span_inserted(b0.content@, p0.cursor.line as int, p0.cursor.col as int, text)
    &&& b.carets.carets@.len() == 1
    &&& k.pos().cursor.line == p0.cursor.line
    &&& k.pos().cursor.col == p0.cursor.col + text.len()
    &&& k.pos().selection.none
    &&& k.added_len == text.len()
    &&& only_typing(k)
    &&& text.len() > 0 ==> k.started && k.removed_text@.len() == 1
    &&& b.checkpoints.others == b0.checkpoints.others
    &&& b.checkpoints.cursor_lened == b0.checkpoints.cursor_lened
    &&& b.tab_size == b0.tab_size
}

/// Typing the characters `chs` one after another, the buffers passing
/// through `bs`, at a single caret with no edit in progress.
pub open spec fn typing_chain(bs: Seq<Buffer>, chs: Seq<char>, rs: Seq<Rect>) -> bool {
    &&& bs.len() == chs.len() + 1
    &&& rs.len() == chs.len()
    &&& forall|i: int| 0 <= i < chs.len() ==> #[trigger] char_placed(bs[i], chs[i], rs[i], bs[i + 1])
}

/// After typing the first `n` characters, the buffer holds them as typed.
proof fn lemma_typed_run(bs: Seq<Buffer>, chs: Seq<char>, rs: Seq<Rect>, n: int)
    requires
        idle_single_caret(bs[0]),
        bs[0].carets.carets@[0].pos().cursor.col + chs.len() <= usize::MAX,
        typing_chain(bs, chs, rs),
        0 <= n <= chs.len(),
    ensures
        typed_run(bs[0], bs[n], typed_bytes(chs.take(n))),
    decreases n,
{
    let b0 = bs[0];
    let p0 = b0.carets.carets@[0].pos();
    let l = p0.cursor.line as int;
    let col = p0.cursor.col as int;
    let c0 = b0.content@;
    if n == 0 {
        assert(typed_bytes(chs.take(0)) =~= Seq::<u8>::empty());
        assert(c0[l].take(col) + Seq::<u8>::empty() + c0[l].skip(col) =~= c0[l]);
        assert(span_inserted(c0, l, col, Seq::<u8>::empty()) =~= c0);
    } else {
        lemma_typed_run(bs, chs, rs, n - 1);
        let text = typed_bytes(chs.take(n - 1));
        let b = bs[n - 1];
        assert(char_placed(bs[n - 1], chs[n - 1], rs[n - 1], bs[(n - 1) + 1]));
        assert(text.len() == n - 1);
        assert(b.content@[l] =~= c0[l].take(col) + text + c0[l].skip(col));
        lemma_type_step(b, chs[n - 1], rs[n - 1], bs[n]);
        let byte = chs[n - 1] as u8;
        assert(typed_bytes(chs.take(n)) =~= text.push(byte));
        let line = c0[l].take(col) + text + c0[l].skip(col);
        assert(line.take(col + n - 1) =~= c0[l].take(col) + text);
        assert(line.skip(col + n - 1) =~= c0[l].skip(col));
        assert(line.take(col + n - 1).push(byte) + line.skip(col + n - 1) =~= c0[l].take(col) + text.push(byte)
            + c0[l].skip(col));
        assert(byte_inserted(b.content@, l, col + n - 1, byte) =~= span_inserted(c0, l, col, text.push(byte)));
    }
}

/// Undoing right after typing `n` bytes, up to the cursor of a single caret,
/// with nothing else in progress, takes them out again, and leaves that
/// typing to redo.
proof fn lemma_undo_typed(b1: Buffer, l1: Seq<Log>, r: Rect, b2: Buffer, l2: Seq<Log>, n: int)
    requires
        b1.wf(),
        ({
            let k = b1.carets.carets@[0];
            let l = k.pos().cursor.line as int;
            let col = k.pos().cursor.col as int;
            let text = b1.content@[l].subrange(col - n, col);
            &&& b1.carets.carets@.len() == 1
            &&& l < b1.content@.len()
            &&& 1 <= n <= col <= b1.content@[l].len()
            &&& k.added_len == n
            &&& k.removed_text@.len() == 1
            &&& k.removed_text@[0].wf()
            &&& k.removed_text@[0]@.len() == 0
            &&& text.len() >= crate::little_string::N_MAX_LITTLE ==> vstd::utf8::valid_utf8(text)
        }),
        undone(b1, l1, r, b2, l2),
    ensures
        ({
            let k = b1.carets.carets@[0];
            let l = k.pos().cursor.line as int;
            let col = k.pos().cursor.col as int;
            &&& b2.content@ == span_removed(b1.content@, l, col - n, col)
            &&& b2.wf()
            &&& redoes_typing(b2, l, col - n, b1.content@[l].subrange(col - n, col))
            &&& b2.carets.carets@.len() == 1
            &&& b2.carets.carets@[0].pos().cursor.line == l
            &&& n <= isize::MAX ==> b2.carets.carets@[0].pos().cursor.col == col - n
            &&& b2.carets.carets@[0].pos().selection.none
            &&& b2.checkpoints.cursor_lened == undo_history_position(b1.checkpoints.cursor_lened as int)
        }),
{
    let k = b1.carets.carets@[0];
    let l = k.pos().cursor.line as int;
    let col = k.pos().cursor.col as int;
    let c1 = b1.content@;
    let cs0 = b1.carets.carets@;
    let text = c1[l].subrange(col - n, col);
    let (bc, lc) = choose|bc: Buffer, lc: Seq<Log>| #![trigger commit_rel(b1, l1, bc, lc)]
        commit_rel(b1, l1, bc, lc)
        && (bc.checkpoints.cursor_lened == 0 ==> b2 == bc && no_more(lc, l2))
        && (bc.checkpoints.cursor_lened > 0 ==> l2.len() == 0 && exists|b3: Buffer|
            #![trigger restored(bc, b3, true)]
            restored(bc, b3, true) && finished(b3, b2, r));
    // The typing is recorded.
    let w = caret_walk(c1, k);
    assert(w == added_walk(c1, l, col, n));
    assert(clip(c1[l], col - n, col) == text);
    assert(w.2 == seq![text]);
    assert(walk_utf8(w.2));
    assert(commit_ok(cs0, c1));
    assert(!nothing_recorded(cs0[0]));
    assert(!(exists|i: int| 0 <= i < cs0.len() && nothing_recorded(#[trigger] cs0[i])));
    let cp1 = bc.checkpoints;
    assert(records_carets(cp1.others@.last(), cs0, c1));
    assert(cp1.cursor_lened == cp1.others@.len());
    assert(cp1.cursor_lened > 0);
    // It is undone.
    let b3 = choose|b3: Buffer| #![trigger restored(bc, b3, true)] restored(bc, b3, true) && finished(b3, b2, r);
    let edits = restore_edits(bc, true);
    assert(edits == cp1.others@.last().inner@);
    assert(edits.len() == 1);
    let (c, cs) = choose|c: Seq<Seq<Seq<u8>>>, cs: Seq<Seq<Caret>>| #![trigger restore_chain(c, cs, restore_edits(bc, true), true)]
        restore_chain(c, cs, edits, true) && c[0] == bc.content@
        && resized(bc.carets.carets@, bc.carets.carets is One, edits.len() as int, cs[0])
        && c.last() == b3.content@ && cs.last() == b3.carets.carets@;
    assert(restore_nth(c, cs, edits, true, 0));
    let e = edits[0].edit;
    let sel = e.added_data@;
    let put = e.removed_data@;
    assert(ls_lines(sel) == w.2);
    assert(ls_lines(sel).len() == sel.len());
    assert(sel.len() == 1);
    assert(sel[0]@ == ls_lines(sel)[0]);
    assert(e.start_line == l && e.start_col == col - n);
    assert(put == k.removed_text@);
    assert(restore_fits(e, sel));
    let pos = restore_position(e, sel);
    assert(pos.min_lc() == (l, col - n));
    assert(pos.max_lc(false) == (l, col));
    assert(c[0] == c1);
    assert(replace_requires(c[0], pos, put));
    assert(put.len() == 1 && put[0]@.len() == 0);
    assert(text_lines(put)[0] =~= Seq::<u8>::empty());
    assert(text_lines(put) =~= seq![Seq::<u8>::empty()]);
    assert(c[1] == spliced(c1, (l, col - n), (l, col), seq![Seq::<u8>::empty()]));
    assert(c1[l].take(col - n) + Seq::<u8>::empty() + c1[l].skip(col) =~= c1[l].take(col - n) + c1[l].skip(col));
    assert(c[1] =~= span_removed(c1, l, col - n, col));
    // The caret goes back to where the typing started.
    let mid = cs[0].update(0, Caret { position: pos, ..cs[0][0] });
    assert(replace_plain_post(c[0], mid, 0, put, c[1], cs[1]));
    if n <= isize::MAX {
        lemma_back_by((col - n) as usize, col as usize);
        assert(cs[1][0].pos().cursor.col == col - n);
    }
    assert(cs[1].len() == 1);
    assert(cs[1][0].pos().cursor.line == l);
    assert(cs[1][0].pos().selection.none);
    lemma_finished_single(b3, b2, r);
    // What is left for a redo.
    let kc = bc.carets.carets@[0];
    assert(kc.added_len == 0 && kc.removed_text@.len() == 0);
    assert(cs[0][0] == kc);
    assert(cs[1][0].added_len == 0 && cs[1][0].removed_text@.len() == 0);
    assert(cs.last() == cs[1]);
    assert(b3.checkpoints.others == cp1.others);
    assert(redoes_typing(b2, l, col - n, text));
}

/// Where the history stands after an edit recorded from position `k` is
/// undone: back at `k`, or, where recording it made the history drop its
/// oldest checkpoints, as many fewer.
pub open spec fn undo_history_position(k: int) -> int {
    if k + 1 < N_MAX_CHECKPOINTS { k } else { k - N_DRAIN_CHECKPOINTS }
}

/// The only caret of `b` has no edit in progress, and the history of `b` has
/// next to redo a checkpoint that put the bytes `text` in at column `col` of
/// line `l`, where there had been nothing to remove.
pub open spec fn redoes_typing(b: Buffer, l: int, col: int, text: Seq<u8>) -> bool {
    let h = b.checkpoints;
    let k = b.carets.carets@[0];
    let edits = h.others@[h.cursor_lened as int].inner@;
    let e = edits[0].edit;
    &&& b.carets.carets@.len() == 1
    &&& k.added_len == 0
    &&& k.removed_text@.len() == 0
    &&& h.cursor_lened < h.others@.len()
    &&& edits.len() == 1
    &&& e.start_line == l
    &&& e.start_col == col
    &&& e.removed_data@.len() == 1
    &&& e.removed_data@[0].wf()
    &&& e.removed_data@[0]@.len() == 0
    &&& e.added_data@.len() == 1
    &&& e.added_data@[0].wf()
    &&& e.added_data@[0]@ == text
}

/// Redoing a checkpoint that put bytes in, with no edit in progress, puts
/// them in again.
proof fn lemma_redo_typed(b2: Buffer, l2: Seq<Log>, r: Rect, b3: Buffer, l3: Seq<Log>, l: int, col: int, text: Seq<u8>)
    requires
        b2.wf(),
        redoes_typing(b2, l, col, text),
        0 <= l < b2.content@.len(),
        0 <= col <= b2.content@[l].len(),
        col + text.len() <= usize::MAX,
        redone(b2, l2, r, b3, l3),
    ensures
        b3.content@ == span_inserted(b2.content@, l, col, text),
{
    let c2 = b2.content@;
    let (bc, lc) = choose|bc: Buffer, lc: Seq<Log>| #![trigger commit_rel(b2, l2, bc, lc)]
        commit_rel(b2, l2, bc, lc)
        && (bc.checkpoints.cursor_lened == bc.checkpoints.others@.len() ==> b3 == bc && no_more(lc, l3))
        && (bc.checkpoints.cursor_lened < bc.checkpoints.others@.len() ==> l3.len() == 0 && exists|b4: Buffer|
            #![trigger restored(bc, b4, false)]
            restored(bc, b4, false) && finished(b4, b3, r));
    // Nothing is recorded: the history stays as it was.
    assert(nothing_recorded(b2.carets.carets@[0]));
    assert(bc.checkpoints.others == b2.checkpoints.others);
    assert(bc.checkpoints.cursor_lened == b2.checkpoints.cursor_lened);
    let b4 = choose|b4: Buffer| #![trigger restored(bc, b4, false)] restored(bc, b4, false) && finished(b4, b3, r);
    let edits = restore_edits(bc, false);
    let (c, cs) = choose|c: Seq<Seq<Seq<u8>>>, cs: Seq<Seq<Caret>>| #![trigger restore_chain(c, cs, restore_edits(bc, false), false)]
        restore_chain(c, cs, edits, false) && c[0] == bc.content@
        && resized(bc.carets.carets@, bc.carets.carets is One, edits.len() as int, cs[0])
        && c.last() == b4.content@ && cs.last() == b4.carets.carets@;
    assert(restore_nth(c, cs, edits, false, 0));
    let e = edits[0].edit;
    let sel = e.removed_data@;
    let put = e.added_data@;
    assert(restore_fits(e, sel));
    let pos = restore_position(e, sel);
    assert(pos.min_lc() == (l, col));
    assert(pos.max_lc(false) == (l, col));
    assert(c[0] == c2);
    assert(replace_requires(c[0], pos, put));
    assert(text_lines(put)[0] == text);
    assert(text_lines(put) =~= seq![text]);
    assert(c[1] == spliced(c2, (l, col), (l, col), seq![text]));
    assert(c[1] =~= span_inserted(c2, l, col, text));
    lemma_finished_single(b4, b3, r);
}

/// Typing characters one after another at a single caret with no edit in
/// progress, then undoing, gives back the text as it was before the typing,
/// leaves one caret, with nothing selected, where the typing started, and
/// takes the history back to where it stood (fewer by the checkpoints it
/// dropped, where recording the typing filled it).
pub proof fn undo_takes_back_typing(bs: Seq<Buffer>, chs: Seq<char>, rs: Seq<Rect>, l1: Seq<Log>, r1: Rect, b2: Buffer,
    l2: Seq<Log>)
    requires
        bs[0].wf(),
        idle_single_caret(bs[0]),
        chs.len() >= 1,
        bs[0].carets.carets@[0].pos().cursor.col + chs.len() <= usize::MAX,
        typed_bytes(chs).len() >= crate::little_string::N_MAX_LITTLE ==> vstd::utf8::valid_utf8(typed_bytes(chs)),
        typing_chain(bs, chs, rs),
        undone(bs.last(), l1, r1, b2, l2),
    ensures
        b2.content@ == bs[0].content@,
        b2.carets.carets@.len() == 1,
        b2.carets.carets@[0].pos().cursor.line == bs[0].carets.carets@[0].pos().cursor.line,
        chs.len() <= isize::MAX ==> b2.carets.carets@[0].pos().cursor.col == bs[0].carets.carets@[0].pos().cursor.col,
        b2.carets.carets@[0].pos().selection.none,
        b2.checkpoints.cursor_lened == undo_history_position(bs[0].checkpoints.cursor_lened as int),
        bs[0].checkpoints.cursor_lened + 1 < N_MAX_CHECKPOINTS ==> b2.checkpoints.cursor_lened == bs[0].checkpoints.cursor_lened,
{
    let b0 = bs[0];
    let p0 = b0.carets.carets@[0].pos();
    let l = p0.cursor.line as int;
    let col = p0.cursor.col as int;
    let c0 = b0.content@;
    let n = chs.len() as int;
    let b1 = bs[n];
    lemma_typed_run(bs, chs, rs, n);
    assert(chs.take(n) =~= chs);
    let text = typed_bytes(chs);
    let line = c0[l].take(col) + text + c0[l].skip(col);
    assert(b1.content@[l] == line);
    assert(line.subrange(col, col + n) =~= text);
    lemma_undo_typed(b1, l1, r1, b2, l2, n);
    assert(line.take(col) =~= c0[l].take(col));
    assert(line.skip(col + n) =~= c0[l].skip(col));
    assert(c0[l].take(col) + c0[l].skip(col) =~= c0[l]);
    assert(span_removed(span_inserted(c0, l, col, text), l, col, col + n) =~= c0);
}

/// Typing characters one after another at a single caret with no edit in
/// progress, undoing, then redoing, gives back the text as it was after the
/// typing.
pub proof fn redo_puts_back_typing(bs: Seq<Buffer>, chs: Seq<char>, rs: Seq<Rect>, l1: Seq<Log>, r1: Rect, b2: Buffer,
    l2: Seq<Log>, r2: Rect, b3: Buffer, l3: Seq<Log>)
    requires
        bs[0].wf(),
        idle_single_caret(bs[0]),
        chs.len() >= 1,
        bs[0].carets.carets@[0].pos().cursor.col + chs.len() <= usize::MAX,
        typed_bytes(chs).len() >= crate::little_string::N_MAX_LITTLE ==> vstd::utf8::valid_utf8(typed_bytes(chs)),
        typing_chain(bs, chs, rs),
        undone(bs.last(), l1, r1, b2, l2),
        redone(b2, l2, r2, b3, l3),
    ensures
        b3.content@ == bs.last().content@,
{
    let b0 = bs[0];
    let p0 = b0.carets.carets@[0].pos();
    let l = p0.cursor.line as int;
    let col = p0.cursor.col as int;
    let c0 = b0.content@;
    let n = chs.len() as int;
    let b1 = bs[n];
    lemma_typed_run(bs, chs, rs, n);
    assert(chs.take(n) =~= chs);
    let text = typed_bytes(chs);
    let line = c0[l].take(col) + text + c0[l].skip(col);
    assert(b1.content@[l] == line);
    assert(line.subrange(col, col + n) =~= text);
    lemma_undo_typed(b1, l1, r1, b2, l2, n);
    undo_takes_back_typing(bs, chs, rs, l1, r1, b2, l2);
    lemma_redo_typed(b2, l2, r2, b3, l3, l, col, text);
}

/// Stepping back from `b` to `a`, as a wrapped difference read as an
/// `isize`, is `a - b` where that fits.
proof fn lemma_back_by(a: usize, b: usize)
    requires
        a <= b,
        b - a <= isize::MAX,
    ensures
        (vstd::wrapping::usize_specs::wrapping_sub(a, b) as isize) == a - b,
{
    let m = vstd::wrapping::usize_specs::wrapping_sub(a, b);
    if a == b {
        assert(m == 0);
    } else {
        vstd::layout::unsigned_int_max_values();
        vstd::arithmetic::power2::lemma2_to64();
        assert(m as int == a - b + usize::MAX + 1);
        let w = m as u64;
        let wa = a as u64;
        let wb = b as u64;
        if usize::BITS == 64 {
            assert(usize::MAX == 0xffff_ffff_ffff_ffff);
            assert(isize::MAX == 0x7fff_ffff_ffff_ffff);
            assert(w as int == wa as int - wb as int + 0x1_0000_0000_0000_0000int);
            assert((m as isize) as int == a as int - b as int) by (bit_vector)
                requires
                    usize::BITS == 64,
                    w == m as u64,
                    wa == a as u64,
                    wb == b as u64,
                    wa <= wb,
                    wb - wa <= 0x7fff_ffff_ffff_ffffu64,
                    w as int == wa as int - wb as int + 0x1_0000_0000_0000_0000int,
            ;
        } else {
            assert(usize::BITS == 32);
            assert(usize::MAX == 0xffff_ffff);
            assert(isize::MAX == 0x7fff_ffff);
            assert(w as int == wa as int - wb as int + 0x1_0000_0000int);
            assert((m as isize) as int == a as int - b as int) by (bit_vector)
                requires
                    usize::BITS == 32,
                    w == m as u64,
                    wa == a as u64,
                    wb == b as u64,
                    wa <= wb,
                    wb - wa <= 0x7fff_ffffu64,
                    w as int == wa as int - wb as int + 0x1_0000_0000int,
            ;
        }
    }
}

/// Lines whose flattening is one byte are that byte alone on one line.
proof fn lemma_flatten_one(lines: Seq<Seq<u8>>, b: u8)
    requires
        lines.len() > 0,
        flatten(lines) == seq![Some(b)],
    ensures
        lines.len() == 1,
        lines[0] == seq![b],
{
    if lines.len() >= 2 {
        let f = flatten(lines.drop_last()) + seq![None::<u8>] + toks(lines.last());
        assert(f[flatten(lines.drop_last()).len() as int] == None::<u8>);
        assert(flatten(lines).len() >= 1);
        if flatten(lines.drop_last()).len() == 0 {
            assert(flatten(lines)[0] == None::<u8>);
        }
        assert(false);
    }
    assert(toks(lines[0]).len() == lines[0].len());
    assert(lines[0].len() == 1);
    assert(toks(lines[0])[0] == Some(lines[0][0]));
    assert(lines[0] =~= seq![b]);
}

/// Deleting, at an idle single caret, the ASCII byte after its cursor takes
/// it out and leaves the caret at the same place, counting nothing added and
/// that byte removed.
#[verifier::rlimit(60)]
#[verifier::spinoff_prover]
proof fn lemma_deleted_byte(b0: Buffer, r: Rect, b1: Buffer, l1: Seq<Log>)
    requires
        idle_single_caret(b0),
        ({
            let k = b0.carets.carets@[0];
            let l = k.pos().cursor.line as int;
            let col = k.pos().cursor.col as int;
            &&& col < b0.content@[l].len()
            &&& col < usize::MAX
            &&& b0.content@[l][col] < 128
        }),
        deleted_forward(b0, r, b1, l1),
    ensures
        ({
            let k0 = b0.carets.carets@[0];
            let k1 = b1.carets.carets@[0];
            let l = k0.pos().cursor.line;
            let col = k0.pos().cursor.col;
            let byte = b0.content@[l as int][col as int];
            &&& b1.content@ == byte_removed(b0.content@, l as int, col as int)
            &&& b1.carets.carets@.len() == 1
            &&& k1.pos().cursor.line == l
            &&& k1.pos().cursor.col == col
            &&& k1.added_len == 0
            &&& k1.removed_text@.len() == 1
            &&& k1.removed_text@[0].wf()
            &&& k1.removed_text@[0]@ == seq![byte]
            &&& b1.checkpoints.others == b0.checkpoints.others
            &&& b1.checkpoints.cursor_lened == b0.checkpoints.cursor_lened
        }),
{
    let k0 = b0.carets.carets@[0];
    let l = k0.pos().cursor.line as int;
    let col = k0.pos().cursor.col as int;
    let c0 = b0.content@;
    let byte = c0[l][col];
    let (m1, m2, m3) = choose|m1: Buffer, m2: Buffer, m3: Buffer|
        #![trigger no_virtual_rel(b0, m1), finished(m3, b1, r), edited_each(m1, m2, no_prep(), no_lines())]
        #![trigger no_virtual_rel(b0, m1), finished(m3, b1, r), edited_each(m1, m2, forward_prep(), no_lines())]
        no_virtual_rel(b0, m1) && finished(m3, b1, r)
        && (some_selected(m1.carets.carets@) ==> edited_each(m1, m2, no_prep(), no_lines())
            && commit_rel(m2, Seq::empty(), m3, l1))
        && (!some_selected(m1.carets.carets@) ==> edited_each(m1, m2, forward_prep(), no_lines())
            && (some_at_line_end(m1.content@, m1.carets.carets@) ==> commit_rel(m2, Seq::empty(), m3, l1))
            && (!some_at_line_end(m1.content@, m1.carets.carets@) ==> m3 == m2 && l1.len() == 0));
    // Nothing to trim: the caret lies within its line.
    assert(m1.carets.carets@[0] == crate::edit_operators::trimmed(c0, k0));
    assert(m1.carets.carets@[0] == k0);
    assert(m1.carets.carets@ =~= b0.carets.carets@);
    assert(!some_selected(m1.carets.carets@));
    assert(!some_at_line_end(m1.content@, m1.carets.carets@));
    // The one edit, after selecting the byte.
    let (ec, ecs, news) = choose|c: Seq<Seq<Seq<u8>>>, cs: Seq<Seq<Caret>>, news: Seq<Seq<LittleString>>|
        #![trigger crate::edit_controller::edit_chain(c, cs, news, forward_prep(), no_lines())]
        crate::edit_controller::edit_chain(c, cs, news, forward_prep(), no_lines()) && news.len() == m1.carets.carets@.len()
        && c[0] == m1.content@ && cs[0] == m1.carets.carets@ && c.last() == m2.content@
        && cs.last() == m2.carets.carets@;
    let prepped = forward_prep()(ec[0], ecs[0], 0);
    assert(edit_step(ec[0], prepped, 0, news[0], ec[0int + 1], ecs[0int + 1]));
    assert(ls_lines(news[0]) == no_lines()(ec[0], prepped, 0));
    let new = news[0];
    assert(ls_lines(new).len() == new.len());
    assert(new.len() == 0);
    let kf = forwards(c0, k0);
    assert(prepped == seq![kf]);
    assert(kf.pos().selection == crate::selection::Selection { line: l as usize, col: (col + 1) as usize, none: false });
    assert(kf.pos().cursor == k0.pos().cursor);
    let t = flatten(selected_lines(c0, (l, col), (l, col + 1)));
    assert(crate::content::selected_part(c0, (l, col), (l, col + 1), l) =~= seq![byte]);
    assert(selected_lines(c0, (l, col), (l, col + 1)) =~= seq![seq![byte]]);
    assert(toks(seq![byte]) =~= seq![Some(byte)]);
    assert(t == seq![Some(byte)]);
    assert(crate::content::records_forward(kf.pos()));
    assert(total_len(new) == 0);
    assert(crate::content::record_end(kf).1 =~= seq![Seq::<u8>::empty()]);
    crate::history::lemma_fwd_ascii(crate::content::record_end(kf), t);
    assert(crate::content::replace_text_ok(c0, kf, new));
    let k2 = ecs[1][0];
    assert(flatten(crate::content::recorded_before(kf)) =~= Seq::<Option<u8>>::empty());
    assert(flatten(ls_lines(k2.removed_text@)) =~= seq![Some(byte)]);
    lemma_flatten_one(ls_lines(k2.removed_text@), byte);
    assert(k2.removed_text@[0]@ == ls_lines(k2.removed_text@)[0]);
    assert(ecs[1].len() == 1);
    assert(m2.carets.carets@ == ecs[1]);
    assert(crate::content::text_lines(new) =~= Seq::<Seq<u8>>::empty());
    assert(ec[1] == crate::content::spliced(c0, (l, col), (l, col + 1), Seq::<Seq<u8>>::empty()));
    assert(ec[1] =~= byte_removed(c0, l, col));
    assert(m2.content@ == byte_removed(c0, l, col));
    assert(k2.added_len == 0);
    assert(k2.pos().cursor.line == l);
    lemma_back_by(col as usize, (col + 1) as usize);
    assert(crate::content::replace_np(0usize, 0usize, (l, col), (l, col + 1)) == -1isize);
    assert(k2.pos().cursor.col == col);
    assert(m2.checkpoints.others == b0.checkpoints.others);
    lemma_finished_single(m2, b1, r);
}

/// Undoing right after deleting, with no other edit in progress, the byte
/// `byte` at the cursor of a single caret puts it back.
proof fn lemma_undo_deletion(b1: Buffer, l1: Seq<Log>, r: Rect, b2: Buffer, l2: Seq<Log>, byte: u8)
    requires
        b1.wf(),
        ({
            let k = b1.carets.carets@[0];
            let l = k.pos().cursor.line as int;
            let col = k.pos().cursor.col as int;
            &&& b1.carets.carets@.len() == 1
            &&& l < b1.content@.len()
            &&& col <= b1.content@[l].len()
            &&& col < usize::MAX
            &&& k.added_len == 0
            &&& k.removed_text@.len() == 1
            &&& k.removed_text@[0].wf()
            &&& k.removed_text@[0]@ == seq![byte]
        }),
        undone(b1, l1, r, b2, l2),
    ensures
        b2.content@ == byte_inserted(b1.content@, b1.carets.carets@[0].pos().cursor.line as int,
            b1.carets.carets@[0].pos().cursor.col as int, byte),
{
    let k = b1.carets.carets@[0];
    let l = k.pos().cursor.line as int;
    let col = k.pos().cursor.col as int;
    let c1 = b1.content@;
    let cs0 = b1.carets.carets@;
    let (bc, lc) = choose|bc: Buffer, lc: Seq<Log>| #![trigger commit_rel(b1, l1, bc, lc)]
        commit_rel(b1, l1, bc, lc)
        && (bc.checkpoints.cursor_lened == 0 ==> b2 == bc && no_more(lc, l2))
        && (bc.checkpoints.cursor_lened > 0 ==> l2.len() == 0 && exists|b3: Buffer|
            #![trigger restored(bc, b3, true)]
            restored(bc, b3, true) && finished(b3, b2, r));
    // The deletion is recorded.
    let w = caret_walk(c1, k);
    assert(w == added_walk(c1, l, col, 0));
    assert(clip(c1[l], col, col).len() == 0);
    assert(walk_utf8(w.2));
    assert(commit_ok(cs0, c1));
    assert(!nothing_recorded(cs0[0]));
    assert(!(exists|i: int| 0 <= i < cs0.len() && nothing_recorded(#[trigger] cs0[i])));
    let cp1 = bc.checkpoints;
    assert(records_carets(cp1.others@.last(), cs0, c1));
    assert(cp1.cursor_lened == cp1.others@.len());
    assert(cp1.cursor_lened > 0);
    // It is undone.
    let b3 = choose|b3: Buffer| #![trigger restored(bc, b3, true)] restored(bc, b3, true) && finished(b3, b2, r);
    let edits = restore_edits(bc, true);
    assert(edits == cp1.others@.last().inner@);
    let (c, cs) = choose|c: Seq<Seq<Seq<u8>>>, cs: Seq<Seq<Caret>>| #![trigger restore_chain(c, cs, restore_edits(bc, true), true)]
        restore_chain(c, cs, edits, true) && c[0] == bc.content@
        && resized(bc.carets.carets@, bc.carets.carets is One, edits.len() as int, cs[0])
        && c.last() == b3.content@ && cs.last() == b3.carets.carets@;
    assert(restore_nth(c, cs, edits, true, 0));
    let e = edits[0].edit;
    let sel = e.added_data@;
    let put = e.removed_data@;
    assert(ls_lines(sel) == w.2);
    assert(ls_lines(sel).len() == sel.len());
    assert(sel.len() == 1);
    assert(sel[0]@ == ls_lines(sel)[0]);
    assert(sel[0]@.len() == 0);
    assert(e.start_line == l && e.start_col == col);
    assert(put == k.removed_text@);
    assert(restore_fits(e, sel));
    let pos = restore_position(e, sel);
    assert(pos.min_lc() == (l, col));
    assert(pos.max_lc(false) == (l, col));
    assert(c[0] == c1);
    assert(replace_requires(c[0], pos, put));
    assert(text_lines(put)[0] == seq![byte]);
    assert(text_lines(put) =~= seq![seq![byte]]);
    assert(c[1] == spliced(c1, (l, col), (l, col), seq![seq![byte]]));
    assert(c1[l].take(col) + seq![byte] + c1[l].skip(col) =~= c1[l].take(col).push(byte) + c1[l].skip(col));
    assert(c[1] =~= byte_inserted(c1, l, col, byte));
    lemma_finished_single(b3, b2, r);
}

/// Deleting the ASCII character after the cursor of a single caret with no
/// edit in progress, then undoing, gives back the text as it was before.
pub proof fn undo_takes_back_deletion(b0: Buffer, r0: Rect, b1: Buffer, l1: Seq<Log>, r1: Rect, b2: Buffer,
    l2: Seq<Log>)
    requires
        b0.wf(),
        idle_single_caret(b0),
        b0.carets.carets@[0].pos().cursor.col < b0.content@[b0.carets.carets@[0].pos().cursor.line as int].len(),
        b0.content@[b0.carets.carets@[0].pos().cursor.line as int][b0.carets.carets@[0].pos().cursor.col as int] < 128,
        b0.carets.carets@[0].pos().cursor.col < usize::MAX,
        deleted_forward(b0, r0, b1, l1),
        undone(b1, l1, r1, b2, l2),
    ensures
        b2.content@ == b0.content@,
{
    let k0 = b0.carets.carets@[0];
    let l = k0.pos().cursor.line as int;
    let col = k0.pos().cursor.col as int;
    let c0 = b0.content@;
    let byte = c0[l][col];
    lemma_deleted_byte(b0, r0, b1, l1);
    assert(b1.content@[l].len() == c0[l].len() - 1);
    lemma_undo_deletion(b1, l1, r1, b2, l2, byte);
    let line = c0[l].take(col) + c0[l].skip(col + 1);
    assert(line.take(col) =~= c0[l].take(col));
    assert(line.skip(col) =~= c0[l].skip(col + 1));
    assert(c0[l].take(col).push(byte) + c0[l].skip(col + 1) =~= c0[l]);
    assert(byte_inserted(byte_removed(c0, l, col), l, col, byte) =~= c0);
}

/// Backspace, at an idle single caret inside a line, takes out the ASCII
/// byte before the cursor and leaves the cursor where that byte was,
/// counting nothing added and that byte removed.
#[verifier::rlimit(60)]
#[verifier::spinoff_prover]
proof fn lemma_backspaced_byte(b0: Buffer, r: Rect, b1: Buffer, l1: Seq<Log>)
    requires
        idle_single_caret(b0),
        ({
            let k = b0.carets.carets@[0];
            let l = k.pos().cursor.line as int;
            let col = k.pos().cursor.col as int;
            &&& 0 < col
            &&& b0.content@[l][col - 1] < 128
        }),
        deleted_backward(b0, r, b1, l1),
    ensures
        ({
            let k0 = b0.carets.carets@[0];
            let k1 = b1.carets.carets@[0];
            let l = k0.pos().cursor.line;
            let col = k0.pos().cursor.col - 1;
            let byte = b0.content@[l as int][col];
            &&& b1.content@ == byte_removed(b0.content@, l as int, col)
            &&& b1.carets.carets@.len() == 1
            &&& k1.pos().cursor.line == l
            &&& k1.pos().cursor.col == col
            &&& k1.added_len == 0
            &&& k1.removed_text@.len() == 1
            &&& k1.removed_text@[0].wf()
            &&& k1.removed_text@[0]@ == seq![byte]
            &&& b1.checkpoints.others == b0.checkpoints.others
            &&& b1.checkpoints.cursor_lened == b0.checkpoints.cursor_lened
        }),
{
    let k0 = b0.carets.carets@[0];
    let l = k0.pos().cursor.line as int;
    let col = k0.pos().cursor.col as int;
    let c0 = b0.content@;
    let byte = c0[l][col - 1];
    let (m1, m2, m3) = choose|m1: Buffer, m2: Buffer, m3: Buffer|
        #![trigger no_virtual_rel(b0, m1), finished(m3, b1, r), edited_each(m1, m2, no_prep(), no_lines())]
        #![trigger no_virtual_rel(b0, m1), finished(m3, b1, r), edited_each(m1, m2, backward_prep(), no_lines())]
        no_virtual_rel(b0, m1) && finished(m3, b1, r)
        && (some_selected(m1.carets.carets@) ==> edited_each(m1, m2, no_prep(), no_lines())
            && commit_rel(m2, Seq::empty(), m3, l1))
        && (!some_selected(m1.carets.carets@) ==> edited_each(m1, m2, backward_prep(), no_lines())
            && (some_at_line_start(m1.carets.carets@) ==> commit_rel(m2, Seq::empty(), m3, l1))
            && (!some_at_line_start(m1.carets.carets@) ==> m3 == m2 && l1.len() == 0));
    // Nothing to trim: the caret lies within its line.
    assert(m1.carets.carets@[0] == crate::edit_operators::trimmed(c0, k0));
    assert(m1.carets.carets@[0] == k0);
    assert(m1.carets.carets@ =~= b0.carets.carets@);
    assert(!some_selected(m1.carets.carets@));
    assert(!some_at_line_start(m1.carets.carets@));
    // The one edit, after selecting the byte.
    let (ec, ecs, news) = choose|c: Seq<Seq<Seq<u8>>>, cs: Seq<Seq<Caret>>, news: Seq<Seq<LittleString>>|
        #![trigger crate::edit_controller::edit_chain(c, cs, news, backward_prep(), no_lines())]
        crate::edit_controller::edit_chain(c, cs, news, backward_prep(), no_lines()) && news.len() == m1.carets.carets@.len()
        && c[0] == m1.content@ && cs[0] == m1.carets.carets@ && c.last() == m2.content@
        && cs.last() == m2.carets.carets@;
    let prepped = backward_prep()(ec[0], ecs[0], 0);
    assert(edit_step(ec[0], prepped, 0, news[0], ec[0int + 1], ecs[0int + 1]));
    assert(ls_lines(news[0]) == no_lines()(ec[0], prepped, 0));
    let new = news[0];
    assert(ls_lines(new).len() == new.len());
    assert(new.len() == 0);
    let kb = backwards(c0, k0);
    assert(prepped == seq![kb]);
    assert(kb.pos().selection == crate::selection::Selection { line: l as usize, col: (col - 1) as usize, none: false });
    assert(kb.pos().cursor == k0.pos().cursor);
    let t = flatten(selected_lines(c0, (l, col - 1), (l, col)));
    assert(crate::content::selected_part(c0, (l, col - 1), (l, col), l) =~= seq![byte]);
    assert(selected_lines(c0, (l, col - 1), (l, col)) =~= seq![seq![byte]]);
    assert(toks(seq![byte]) =~= seq![Some(byte)]);
    assert(t == seq![Some(byte)]);
    assert(!crate::content::records_forward(kb.pos()));
    assert(t.take(1) =~= t);
    assert(total_len(new) == 0);
    assert(crate::content::record_start(kb).1 =~= seq![Seq::<u8>::empty()]);
    crate::history::lemma_back_ascii(crate::content::record_start(kb), t);
    assert(crate::content::replace_text_ok(c0, kb, new));
    let k2 = ecs[1][0];
    assert(flatten(crate::content::recorded_before(kb)) =~= Seq::<Option<u8>>::empty());
    assert(flatten(ls_lines(k2.removed_text@)) =~= seq![Some(byte)]);
    lemma_flatten_one(ls_lines(k2.removed_text@), byte);
    assert(k2.removed_text@[0]@ == ls_lines(k2.removed_text@)[0]);
    assert(ecs[1].len() == 1);
    assert(m2.carets.carets@ == ecs[1]);
    assert(crate::content::text_lines(new) =~= Seq::<Seq<u8>>::empty());
    assert(ec[1] == crate::content::spliced(c0, (l, col - 1), (l, col), Seq::<Seq<u8>>::empty()));
    assert(ec[1] =~= byte_removed(c0, l, col - 1));
    assert(m2.content@ == byte_removed(c0, l, col - 1));
    assert(k2.added_len == 0);
    assert(k2.pos().cursor.line == l);
    lemma_back_by((col - 1) as usize, col as usize);
    assert(crate::content::replace_np(0usize, 0usize, (l, col - 1), (l, col)) == -1isize);
    assert(k2.pos().cursor.col == col - 1);
    assert(m2.checkpoints.others == b0.checkpoints.others);
    lemma_finished_single(m2, b1, r);
}

/// Backspace at a single caret with no edit in progress, inside a line
/// after an ASCII character, then undo, gives back the text as it was
/// before.
pub proof fn undo_takes_back_backspace(b0: Buffer, r0: Rect, b1: Buffer, l1: Seq<Log>, r1: Rect, b2: Buffer,
    l2: Seq<Log>)
    requires
        b0.wf(),
        idle_single_caret(b0),
        0 < b0.carets.carets@[0].pos().cursor.col,
        b0.content@[b0.carets.carets@[0].pos().cursor.line as int][b0.carets.carets@[0].pos().cursor.col - 1] < 128,
        deleted_backward(b0, r0, b1, l1),
        undone(b1, l1, r1, b2, l2),
    ensures
        b2.content@ == b0.content@,
{
    let k0 = b0.carets.carets@[0];
    let l = k0.pos().cursor.line as int;
    let col = k0.pos().cursor.col - 1;
    let c0 = b0.content@;
    let byte = c0[l][col];
    lemma_backspaced_byte(b0, r0, b1, l1);
    assert(b1.content@[l].len() == c0[l].len() - 1);
    lemma_undo_deletion(b1, l1, r1, b2, l2, byte);
    let line = c0[l].take(col) + c0[l].skip(col + 1);
    assert(line.take(col) =~= c0[l].take(col));
    assert(line.skip(col) =~= c0[l].skip(col + 1));
    assert(c0[l].take(col).push(byte) + c0[l].skip(col + 1) =~= c0[l]);
    assert(byte_inserted(byte_removed(c0, l, col), l, col, byte) =~= c0);
}

/// The only caret of `b` has no edit in progress and selects part of one
/// line of the text: from column `min_col` to column `max_col`.
pub open spec fn selects_in_line(b: Buffer) -> bool {
    let k = b.carets.carets@[0];
    let p = k.pos();
    &&& b.carets.carets@.len() == 1
    &&& !p.selection.none
    &&& p.cursor.line == p.selection.line
    &&& p.cursor.line < b.content@.len()
    &&& p.cursor.col != p.selection.col
    &&& max_col(p) <= b.content@[p.cursor.line as int].len()
    &&& k.added_len == 0
    &&& k.removed_text@.len() == 0
}

/// The column where a selection within one line starts.
pub open spec fn min_col(p: crate::caret::Position) -> int {
    if p.cursor.col < p.selection.col { p.cursor.col as int } else { p.selection.col as int }
}

/// The column where a selection within one line ends.
pub open spec fn max_col(p: crate::caret::Position) -> int {
    if p.cursor.col < p.selection.col { p.selection.col as int } else { p.cursor.col as int }
}

/// `c` with the bytes from column `a` to column `b` of line `l` taken out.
pub open spec fn span_removed(c: Seq<Seq<u8>>, l: int, a: int, b: int) -> Seq<Seq<u8>> {
    c.update(l, c[l].take(a) + c[l].skip(b))
}

/// `c` with the bytes `t` put in at column `a` of line `l`.
pub open spec fn span_inserted(c: Seq<Seq<u8>>, l: int, a: int, t: Seq<u8>) -> Seq<Seq<u8>> {
    c.update(l, c[l].take(a) + t + c[l].skip(a))
}

/// Lines whose flattening holds no line break are the bytes it holds, on
/// one line.
proof fn lemma_flatten_toks(lines: Seq<Seq<u8>>, s: Seq<u8>)
    requires
        lines.len() > 0,
        flatten(lines) == toks(s),
    ensures
        lines.len() == 1,
        lines[0] == s,
{
    if lines.len() >= 2 {
        let i = flatten(lines.drop_last()).len() as int;
        assert(flatten(lines) == flatten(lines.drop_last()) + seq![None::<u8>] + toks(lines.last()));
        assert(flatten(lines)[i] == None::<u8>);
        assert(toks(s)[i] == Some(s[i]));
        assert(false);
    }
    assert(toks(lines[0]).len() == lines[0].len());
    assert forall|j: int| 0 <= j < s.len() implies lines[0][j] == s[j] by {
        assert(toks(lines[0])[j] == Some(lines[0][j]));
        assert(toks(s)[j] == Some(s[j]));
    }
    assert(lines[0] =~= s);
}

/// Bytes with no line feed are one part when split at line feeds.
proof fn lemma_split_no_lf(b: Seq<u8>)
    requires
        forall|i: int| 0 <= i < b.len() ==> b[i] != 10u8,
    ensures
        crate::edit_operators::split_at_byte(b, 10u8) == seq![b],
    decreases b.len(),
{
    if b.len() > 0 {
        lemma_split_no_lf(b.drop_last());
        assert(b.drop_last().push(b.last()) =~= b);
        assert(seq![b.drop_last()].update(0, b.drop_last().push(b.last())) =~= seq![b]);
    } else {
        assert(b =~= Seq::<u8>::empty());
    }
}

/// Cutting the selection of an idle single caret within one line, made of
/// ASCII bytes, takes those bytes out and hands them over; the caret is left
/// where they started, with nothing selected and no edit in progress.
#[verifier::rlimit(80)]
#[verifier::spinoff_prover]
proof fn lemma_cut_span(b0: Buffer, r: Rect, b1: Buffer, l1: Seq<Log>, t: Option<Vec<u8>>)
    requires
        selects_in_line(b0),
        ({
            let p = b0.carets.carets@[0].pos();
            let line = b0.content@[p.cursor.line as int];
            &&& is_ascii(line.subrange(min_col(p), max_col(p)))
            &&& max_col(p) - min_col(p) <= isize::MAX
        }),
        cut_rel(b0, r, b1, l1, t),
    ensures
        ({
            let p = b0.carets.carets@[0].pos();
            let l = p.cursor.line as int;
            let k1 = b1.carets.carets@[0];
            &&& t matches Some(v) && v@ == b0.content@[l].subrange(min_col(p), max_col(p))
            &&& b1.content@ == span_removed(b0.content@, l, min_col(p), max_col(p))
            &&& b1.carets.carets@.len() == 1
            &&& k1.pos().cursor.line == l
            &&& k1.pos().cursor.col == min_col(p)
            &&& k1.pos().selection.none
            &&& k1.added_len == 0
            &&& k1.removed_text@.len() == 0
        }),
{
    let k0 = b0.carets.carets@[0];
    let p = k0.pos();
    let l = p.cursor.line as int;
    let a = min_col(p);
    let b = max_col(p);
    let c0 = b0.content@;
    let bytes = c0[l].subrange(a, b);
    let (m1, m2, m3, m4, l2) = choose|m1: Buffer, m2: Buffer, m3: Buffer, m4: Buffer, l2: Seq<Log>|
        #![trigger no_virtual_rel(b0, m1), commit_rel(m1, Seq::empty(), m2, l2), edited_each(m2, m3, no_prep(), no_lines()), finished(m4, b1, r)]
        no_virtual_rel(b0, m1) && commit_rel(m1, Seq::empty(), m2, l2) && copy_result(m2, t)
        && edited_each(m2, m3, no_prep(), no_lines()) && commit_rel(m3, l2, m4, l1)
        && finished(m4, b1, r);
    // Nothing to trim, nothing to record.
    assert(m1.carets.carets@[0] == crate::edit_operators::trimmed(c0, k0));
    assert(m1.carets.carets@[0] == k0);
    assert(m1.carets.carets@ =~= b0.carets.carets@);
    assert(nothing_recorded(k0));
    assert(m2.content == b0.content);
    assert(m2.carets.carets@ =~= b0.carets.carets@);
    // What is handed over.
    assert(crate::content::range_in(c0, p.min_lc(), p.max_lc(false)));
    assert(crate::edit_operators::ranges_in(c0, m2.carets.carets@));
    assert(crate::content::selected_part(c0, (l, a), (l, b), l) =~= bytes);
    assert(selected_lines(c0, (l, a), (l, b)) =~= seq![bytes]);
    let texts = crate::content::selected_texts(c0, m2.carets.carets@, crate::line_ending::le_bytes(m2.line_ending));
    assert(texts =~= seq![bytes]);
    assert(crate::content::all_same(texts));
    // The one edit.
    let (ec, ecs, news) = choose|c: Seq<Seq<Seq<u8>>>, cs: Seq<Seq<Caret>>, news: Seq<Seq<LittleString>>|
        #![trigger crate::edit_controller::edit_chain(c, cs, news, no_prep(), no_lines())]
        crate::edit_controller::edit_chain(c, cs, news, no_prep(), no_lines()) && news.len() == m2.carets.carets@.len()
        && c[0] == m2.content@ && cs[0] == m2.carets.carets@ && c.last() == m3.content@
        && cs.last() == m3.carets.carets@;
    assert(edit_step(ec[0], no_prep()(ec[0], ecs[0], 0), 0, news[0], ec[0int + 1], ecs[0int + 1]));
    assert(ls_lines(news[0]) == no_lines()(ec[0], no_prep()(ec[0], ecs[0], 0), 0));
    let new = news[0];
    assert(ls_lines(new).len() == new.len());
    assert(new.len() == 0);
    let tt = flatten(selected_lines(c0, (l, a), (l, b)));
    assert(tt == toks(bytes));
    assert(crate::history::toks_ascii(tt));
    assert(tt.take(tt.len() - 0) =~= tt);
    assert(total_len(new) == 0);
    assert(crate::content::record_start(k0).1 =~= seq![Seq::<u8>::empty()]);
    assert(crate::content::record_end(k0).1 =~= seq![Seq::<u8>::empty()]);
    crate::history::lemma_fwd_ascii(crate::content::record_end(k0), tt);
    crate::history::lemma_back_ascii(crate::content::record_start(k0), tt);
    assert(crate::content::replace_text_ok(c0, k0, new));
    let k2 = ecs[1][0];
    assert(ecs[1].len() == 1);
    assert(m3.carets.carets@ == ecs[1]);
    assert(crate::content::text_lines(new) =~= Seq::<Seq<u8>>::empty());
    assert(ec[1] == crate::content::spliced(c0, (l, a), (l, b), Seq::<Seq<u8>>::empty()));
    assert(ec[1] =~= span_removed(c0, l, a, b));
    assert(k2.added_len == 0);
    lemma_back_by(a as usize, b as usize);
    assert(crate::content::replace_np(0usize, 0usize, (l, a), (l, b)) == a - b);
    assert(k2.pos().cursor.line == l);
    assert(k2.pos().cursor.col == a);
    assert(k2.pos().selection.none);
    // The edit is recorded.
    assert(flatten(crate::content::recorded_before(k0)) =~= Seq::<Option<u8>>::empty());
    assert(flatten(ls_lines(k2.removed_text@)) =~= toks(bytes));
    lemma_flatten_toks(ls_lines(k2.removed_text@), bytes);
    assert(k2.removed_text@[0]@ == ls_lines(k2.removed_text@)[0]);
    assert(!nothing_recorded(k2));
    let c3 = m3.content@;
    assert(caret_walk(c3, k2) == added_walk(c3, l, a, 0));
    assert(clip(c3[l], a, a).len() == 0);
    assert(commit_ok(m3.carets.carets@, c3));
    assert(!(exists|i: int| 0 <= i < m3.carets.carets@.len() && nothing_recorded(#[trigger] m3.carets.carets@[i])));
    lemma_finished_single(m4, b1, r);
}

/// Pasting, at an idle single caret with nothing selected, a text with no
/// line feed puts its bytes in at the cursor.
#[verifier::rlimit(80)]
#[verifier::spinoff_prover]
proof fn lemma_paste_span(b1: Buffer, r: Rect, s: Seq<char>, b2: Buffer, l2: Seq<Log>)
    requires
        ({
            let k = b1.carets.carets@[0];
            let p = k.pos();
            let bytes = vstd::utf8::encode_utf8(s);
            &&& b1.carets.carets@.len() == 1
            &&& p.selection.none
            &&& p.cursor.line < b1.content@.len()
            &&& p.cursor.col <= b1.content@[p.cursor.line as int].len()
            &&& p.cursor.col + bytes.len() <= usize::MAX
            &&& k.added_len == 0
            &&& k.removed_text@.len() == 0
            &&& forall|i: int| 0 <= i < bytes.len() ==> bytes[i] != 10u8
        }),
        exists|l1: Seq<Log>| pasted(b1, r, Some(s), b2, l1),
    ensures
        b2.content@ == span_inserted(b1.content@, b1.carets.carets@[0].pos().cursor.line as int,
            b1.carets.carets@[0].pos().cursor.col as int, vstd::utf8::encode_utf8(s)),
{
    let k0 = b1.carets.carets@[0];
    let p = k0.pos();
    let l = p.cursor.line as int;
    let a = p.cursor.col as int;
    let c0 = b1.content@;
    let bytes = vstd::utf8::encode_utf8(s);
    let l1 = choose|l1: Seq<Log>| pasted(b1, r, Some(s), b2, l1);
    let (m1, lm, m2) = choose|m1: Buffer, lm: Seq<Log>, m2: Buffer|
        #![trigger commit_rel(b1, Seq::empty(), m1, lm), materialized_rel(m1, m2)]
        commit_rel(b1, Seq::empty(), m1, lm) && materialized_rel(m1, m2)
        && (Some(s) is None ==> b2 == m2 && l1 == lm)
        && (Some(s) is Some ==> exists|m3: Buffer, m4: Buffer|
            #![trigger edited_each(m2, m3, no_prep(), paste_lines(Some(s)->0, m2.carets.carets@.len() as int)), finished(m4, b2, r)]
            edited_each(m2, m3, no_prep(), paste_lines(Some(s)->0, m2.carets.carets@.len() as int))
            && commit_rel(m3, lm, m4, l1) && finished(m4, b2, r));
    // Nothing to record, nothing to make real.
    assert(nothing_recorded(k0));
    assert(m1.content == b1.content);
    assert(m1.carets.carets@ =~= b1.carets.carets@);
    let (mc, mcs) = choose|c: Seq<Seq<Seq<u8>>>, cs: Seq<Seq<Caret>>| #![trigger materialize_chain(c, cs)]
        materialize_chain(c, cs) && c[0] == c0 && cs[0] == m1.carets.carets@ && c.last() == m2.content@
        && cs.last() == m2.carets.carets@;
    assert(materialize_chain(mc, mcs));
    assert(mcs.len() == 2);
    assert(materialize_step(mc[0], mcs[0], 0, mc[0int + 1], mcs[0int + 1]));
    assert(m2.content@ == c0);
    assert(m2.carets.carets@ == b1.carets.carets@);
    // The one edit.
    let (m3, m4) = choose|m3: Buffer, m4: Buffer|
        #![trigger edited_each(m2, m3, no_prep(), paste_lines(s, m2.carets.carets@.len() as int)), finished(m4, b2, r)]
        edited_each(m2, m3, no_prep(), paste_lines(s, m2.carets.carets@.len() as int))
        && commit_rel(m3, lm, m4, l1) && finished(m4, b2, r);
    let lines = paste_lines(s, 1);
    let (ec, ecs, news) = choose|c: Seq<Seq<Seq<u8>>>, cs: Seq<Seq<Caret>>, news: Seq<Seq<LittleString>>|
        #![trigger crate::edit_controller::edit_chain(c, cs, news, no_prep(), lines)]
        crate::edit_controller::edit_chain(c, cs, news, no_prep(), lines) && news.len() == m2.carets.carets@.len()
        && c[0] == m2.content@ && cs[0] == m2.carets.carets@ && c.last() == m3.content@
        && cs.last() == m3.carets.carets@;
    assert(edit_step(ec[0], no_prep()(ec[0], ecs[0], 0), 0, news[0], ec[0int + 1], ecs[0int + 1]));
    lemma_split_no_lf(bytes);
    assert(ls_lines(news[0]) == lines(ec[0], no_prep()(ec[0], ecs[0], 0), 0));
    assert(ls_lines(news[0]) == seq![bytes]);
    let new = news[0];
    assert(ls_lines(new).len() == new.len());
    assert(new.len() == 1);
    assert(new[0]@ == ls_lines(new)[0]);
    assert(new[0].wf());
    assert(total_len(new.drop_last()) == 0);
    assert(total_len(new) == bytes.len());
    assert(crate::content::selected_part(c0, (l, a), (l, a), l) =~= Seq::<u8>::empty());
    assert(selected_lines(c0, (l, a), (l, a)) =~= seq![Seq::<u8>::empty()]);
    assert(toks(Seq::<u8>::empty()) =~= Seq::<Option<u8>>::empty());
    assert(crate::content::replace_text_ok(c0, k0, new));
    assert(crate::content::text_lines(new) =~= seq![bytes]);
    assert(ec[1] == crate::content::spliced(c0, (l, a), (l, a), seq![bytes]));
    assert(ec[1] =~= span_inserted(c0, l, a, bytes));
    lemma_finished_single(m4, b2, r);
}

/// Cutting a selection within one line, made of ASCII bytes other than line
/// feeds, then pasting what was cut, gives back the text as it was.
#[verifier::rlimit(40)]
#[verifier::spinoff_prover]
pub proof fn paste_puts_back_cut(b0: Buffer, r0: Rect, b1: Buffer, l1: Seq<Log>, t: Option<Vec<u8>>, s: Seq<char>,
    r1: Rect, b2: Buffer, l2: Seq<Log>)
    requires
        selects_in_line(b0),
        ({
            let p = b0.carets.carets@[0].pos();
            let part = b0.content@[p.cursor.line as int].subrange(min_col(p), max_col(p));
            &&& is_ascii(part)
            &&& forall|i: int| 0 <= i < part.len() ==> part[i] != 10u8
            &&& max_col(p) - min_col(p) <= isize::MAX
        }),
        cut_rel(b0, r0, b1, l1, t),
        t matches Some(v) && vstd::utf8::encode_utf8(s) == v@,
        pasted(b1, r1, Some(s), b2, l2),
    ensures
        b2.content@ == b0.content@,
{
    let p = b0.carets.carets@[0].pos();
    let l = p.cursor.line as int;
    let a = min_col(p);
    let b = max_col(p);
    let c0 = b0.content@;
    let part = c0[l].subrange(a, b);
    lemma_cut_span(b0, r0, b1, l1, t);
    assert(vstd::utf8::encode_utf8(s) == part);
    assert(b1.content@[l] =~= c0[l].take(a) + c0[l].skip(b));
    lemma_paste_span(b1, r1, s, b2, l2);
    let line = c0[l].take(a) + c0[l].skip(b);
    assert(line.take(a) =~= c0[l].take(a));
    assert(line.skip(a) =~= c0[l].skip(b));
    assert(c0[l].take(a) + part + c0[l].skip(b) =~= c0[l]);
    assert(span_inserted(span_removed(c0, l, a, b), l, a, part) =~= c0);
}

/// `c` with line `l` broken at column `col`, the new line starting with
/// `indent`.
pub open spec fn line_split(c: Seq<Seq<u8>>, l: int, col: int, indent: Seq<u8>) -> Seq<Seq<u8>> {
    c.take(l) + seq![c[l].take(col), indent + c[l].skip(col)] + c.skip(l + 1)
}

/// The history of `b` has last a checkpoint, to undo next, that broke line
/// `l` at column `col`, starting the new line with `indent`, where there had
/// been nothing to remove; its only caret has no edit in progress.
pub open spec fn undoes_line_break(b: Buffer, l: int, col: int, indent: Seq<u8>) -> bool {
    let h = b.checkpoints;
    let k = b.carets.carets@[0];
    let edits = h.others@[h.cursor_lened - 1].inner@;
    let e = edits[0].edit;
    &&& b.carets.carets@.len() == 1
    &&& k.added_len == 0
    &&& k.removed_text@.len() == 0
    &&& 0 < h.cursor_lened <= h.others@.len()
    &&& edits.len() == 1
    &&& e.start_line == l
    &&& e.start_col == col
    &&& e.removed_data@.len() == 1
    &&& e.removed_data@[0].wf()
    &&& e.removed_data@[0]@.len() == 0
    &&& e.added_data@.len() == 2
    &&& e.added_data@[0].wf()
    &&& e.added_data@[0]@.len() == 0
    &&& e.added_data@[1].wf()
    &&& e.added_data@[1]@ == indent
}

/// Breaking the line at an idle single caret splits it at the cursor, the
/// new line starting with the white space that starts the line, and records
/// that as the checkpoint to undo next.
#[verifier::rlimit(80)]
#[verifier::spinoff_prover]
proof fn lemma_line_break(b0: Buffer, r: Rect, b1: Buffer, l1: Seq<Log>)
    requires
        b0.wf(),
        idle_single_caret(b0),
        b0.carets.carets@[0].pos().cursor.line + 1 < usize::MAX,
        b0.content@[b0.carets.carets@[0].pos().cursor.line as int].len() <= isize::MAX,
        line_broken(b0, r, b1, l1),
    ensures
        ({
            let p = b0.carets.carets@[0].pos();
            let l = p.cursor.line as int;
            let col = p.cursor.col as int;
            let indent = indent_of(b0.content@, l);
            &&& b1.content@ == line_split(b0.content@, l, col, indent)
            &&& b1.wf()
            &&& undoes_line_break(b1, l, col, indent)
        }),
{
    let k0 = b0.carets.carets@[0];
    let p = k0.pos();
    let l = p.cursor.line as int;
    let col = p.cursor.col as int;
    let c0 = b0.content@;
    let indent = indent_of(c0, l);
    let ind = indent.len() as int;
    crate::content::lemma_leading_ws_run(c0[l], 0);
    assert(c0[l].subrange(0, leading_ws(c0[l], 0)) =~= indent);
    let (m1, m2, m3) = choose|m1: Buffer, m2: Buffer, m3: Buffer|
        #![trigger no_virtual_rel(b0, m1), edited_each(m1, m2, no_prep(), newline_lines()), finished(m3, b1, r)]
        no_virtual_rel(b0, m1) && edited_each(m1, m2, no_prep(), newline_lines())
        && commit_rel(m2, Seq::empty(), m3, l1) && finished(m3, b1, r);
    // Nothing to trim.
    assert(m1.carets.carets@[0] == crate::edit_operators::trimmed(c0, k0));
    assert(m1.carets.carets@[0] == k0);
    assert(m1.carets.carets@ =~= b0.carets.carets@);
    // The one edit.
    let (ec, ecs, news) = choose|c: Seq<Seq<Seq<u8>>>, cs: Seq<Seq<Caret>>, news: Seq<Seq<LittleString>>|
        #![trigger crate::edit_controller::edit_chain(c, cs, news, no_prep(), newline_lines())]
        crate::edit_controller::edit_chain(c, cs, news, no_prep(), newline_lines()) && news.len() == m1.carets.carets@.len()
        && c[0] == m1.content@ && cs[0] == m1.carets.carets@ && c.last() == m2.content@
        && cs.last() == m2.carets.carets@;
    assert(edit_step(ec[0], no_prep()(ec[0], ecs[0], 0), 0, news[0], ec[0int + 1], ecs[0int + 1]));
    assert(ls_lines(news[0]) == newline_lines()(ec[0], no_prep()(ec[0], ecs[0], 0), 0));
    let new = news[0];
    assert(ls_lines(new) == seq![Seq::<u8>::empty(), indent]);
    assert(ls_lines(new).len() == new.len());
    assert(new.len() == 2);
    assert(new[0]@ == ls_lines(new)[0]);
    assert(new[1]@ == ls_lines(new)[1]);
    assert(new[0].wf() && new[1].wf());
    assert(new.drop_last().drop_last() =~= Seq::<LittleString>::empty());
    assert(total_len(new.drop_last().drop_last()) == 0);
    assert(new.drop_last().last() == new[0]);
    assert(total_len(new.drop_last()) == 0);
    assert(total_len(new) == ind);
    let t = flatten(selected_lines(c0, (l, col), (l, col)));
    assert(crate::content::selected_part(c0, (l, col), (l, col), l) =~= Seq::<u8>::empty());
    assert(selected_lines(c0, (l, col), (l, col)) =~= seq![Seq::<u8>::empty()]);
    assert(toks(Seq::<u8>::empty()) =~= Seq::<Option<u8>>::empty());
    assert(t.len() == 0);
    assert(crate::content::replace_text_ok(c0, k0, new));
    let k2 = ecs[1][0];
    assert(ecs[1].len() == 1);
    assert(flatten(crate::content::recorded_before(k0)) =~= Seq::<Option<u8>>::empty());
    lemma_flatten_empty(ls_lines(k2.removed_text@));
    assert(k2.removed_text@[0]@ == ls_lines(k2.removed_text@)[0]);
    assert(crate::content::text_lines(new) =~= seq![Seq::<u8>::empty(), indent]);
    assert(crate::content::replacement(c0[l].take(col), seq![Seq::<u8>::empty(), indent], c0[l].skip(col))
        =~= seq![c0[l].take(col), indent + c0[l].skip(col)]);
    assert(ec[1] =~= line_split(c0, l, col, indent));
    let c1 = ec[1];
    assert(k2.added_len == 1 + ind);
    assert(k2.pos().cursor.line == l + 1);
    if ind <= col {
        lemma_back_by(ind as usize, col as usize);
    }
    assert(k2.pos().cursor.col == ind);
    assert(k2.pos().selection.none);
    // The edit is recorded.
    assert(c1[l + 1] == indent + c0[l].skip(col));
    assert(c1[l] == c0[l].take(col));
    let w = caret_walk(c1, k2);
    assert(clip(c1[l + 1], 0, ind) =~= indent);
    assert(clip(c1[l], col, col).len() == 0);
    assert(added_walk(c1, l, c1[l].len() as int, 0) == (l, col, seq![clip(c1[l], col, col)], 0int));
    assert(w == (l, col, seq![clip(c1[l], col, col)].push(indent), 0int));
    assert(clip(c1[l], col, col) =~= Seq::<u8>::empty());
    assert(seq![clip(c1[l], col, col)].push(indent) =~= seq![Seq::<u8>::empty(), indent]);
    assert(w.2 =~= seq![Seq::<u8>::empty(), indent]);
    assert(walk_utf8(w.2));
    assert(m2.carets.carets@ == ecs[1]);
    assert(commit_ok(m2.carets.carets@, c1));
    assert(!nothing_recorded(k2));
    assert(!(exists|i: int| 0 <= i < m2.carets.carets@.len() && nothing_recorded(#[trigger] m2.carets.carets@[i])));
    let cp = m3.checkpoints;
    assert(records_carets(cp.others@.last(), m2.carets.carets@, c1));
    assert(cp.cursor_lened == cp.others@.len());
    let e = cp.others@.last().inner@[0].edit;
    assert(ls_lines(e.added_data@) == w.2);
    assert(ls_lines(e.added_data@).len() == e.added_data@.len());
    assert(e.added_data@[0]@ == ls_lines(e.added_data@)[0]);
    assert(e.added_data@[1]@ == ls_lines(e.added_data@)[1]);
    assert(e.removed_data == k2.removed_text);
    lemma_finished_single(m3, b1, r);
    assert(undoes_line_break(b1, l, col, indent));
}

/// Undoing a line break recorded as the checkpoint to undo next joins the
/// lines again.
#[verifier::rlimit(60)]
proof fn lemma_undo_line_break(b1: Buffer, l1: Seq<Log>, r: Rect, b2: Buffer, l2: Seq<Log>, c0: Seq<Seq<u8>>, l: int,
    col: int, indent: Seq<u8>)
    requires
        b1.wf(),
        undoes_line_break(b1, l, col, indent),
        0 <= l < c0.len(),
        0 <= col <= c0[l].len(),
        indent.len() <= c0[l].len() <= isize::MAX,
        l + 1 < usize::MAX,
        b1.content@ == line_split(c0, l, col, indent),
        undone(b1, l1, r, b2, l2),
    ensures
        b2.content@ == c0,
{
    let c1 = b1.content@;
    let (bc, lc) = choose|bc: Buffer, lc: Seq<Log>| #![trigger commit_rel(b1, l1, bc, lc)]
        commit_rel(b1, l1, bc, lc)
        && (bc.checkpoints.cursor_lened == 0 ==> b2 == bc && no_more(lc, l2))
        && (bc.checkpoints.cursor_lened > 0 ==> l2.len() == 0 && exists|b3: Buffer|
            #![trigger restored(bc, b3, true)]
            restored(bc, b3, true) && finished(b3, b2, r));
    // Nothing is in progress: the history stays as it was.
    assert(nothing_recorded(b1.carets.carets@[0]));
    assert(bc.checkpoints.others == b1.checkpoints.others);
    assert(bc.checkpoints.cursor_lened == b1.checkpoints.cursor_lened);
    let b3 = choose|b3: Buffer| #![trigger restored(bc, b3, true)] restored(bc, b3, true) && finished(b3, b2, r);
    let edits = restore_edits(bc, true);
    let (c, cs) = choose|c: Seq<Seq<Seq<u8>>>, cs: Seq<Seq<Caret>>| #![trigger restore_chain(c, cs, restore_edits(bc, true), true)]
        restore_chain(c, cs, edits, true) && c[0] == bc.content@
        && resized(bc.carets.carets@, bc.carets.carets is One, edits.len() as int, cs[0])
        && c.last() == b3.content@ && cs.last() == b3.carets.carets@;
    assert(restore_nth(c, cs, edits, true, 0));
    let e = edits[0].edit;
    let sel = e.added_data@;
    let put = e.removed_data@;
    let ind = indent.len() as int;
    assert(sel.last() == sel[1]);
    assert(restore_fits(e, sel));
    let pos = restore_position(e, sel);
    assert(pos.min_lc() == (l, col));
    assert(pos.max_lc(false) == (l + 1, ind));
    assert(c[0] == c1);
    assert(c1[l + 1] == indent + c0[l].skip(col));
    assert(replace_requires(c[0], pos, put));
    assert(put.len() == 1 && put[0]@.len() == 0);
    assert(text_lines(put)[0] =~= Seq::<u8>::empty());
    assert(text_lines(put) =~= seq![Seq::<u8>::empty()]);
    assert(c[1] == spliced(c1, (l, col), (l + 1, ind), seq![Seq::<u8>::empty()]));
    assert(c1[l].take(col) =~= c0[l].take(col));
    assert(c1[l + 1].skip(ind) =~= c0[l].skip(col));
    assert(c1.take(l) =~= c0.take(l));
    assert(c1.skip(l + 2) =~= c0.skip(l + 1));
    assert(c0[l].take(col) + Seq::<u8>::empty() + c0[l].skip(col) =~= c0[l]);
    assert(c[1] =~= c0);
    lemma_finished_single(b3, b2, r);
}

/// Breaking a line at a single caret with no edit in progress, then undoing,
/// gives back the text as it was.
pub proof fn undo_takes_back_line_break(b0: Buffer, r0: Rect, b1: Buffer, l1: Seq<Log>, r1: Rect, b2: Buffer,
    l2: Seq<Log>)
    requires
        b0.wf(),
        idle_single_caret(b0),
        b0.carets.carets@[0].pos().cursor.line + 1 < usize::MAX,
        b0.content@[b0.carets.carets@[0].pos().cursor.line as int].len() <= isize::MAX,
        line_broken(b0, r0, b1, l1),
        undone(b1, l1, r1, b2, l2),
    ensures
        b2.content@ == b0.content@,
{
    let p = b0.carets.carets@[0].pos();
    lemma_line_break(b0, r0, b1, l1);
    crate::content::lemma_leading_ws_run(b0.content@[p.cursor.line as int], 0);
    lemma_undo_line_break(b1, l1, r1, b2, l2, b0.content@, p.cursor.line as int, p.cursor.col as int,
        indent_of(b0.content@, p.cursor.line as int));
}

/// Tab at an idle single caret puts spaces in at the cursor up to the next
/// tab stop and moves the cursor past them, counting them as added.
#[verifier::rlimit(40)]
proof fn lemma_tabbed(b0: Buffer, r: Rect, b1: Buffer)
    requires
        b0.wf(),
        idle_single_caret(b0),
        b0.carets.carets@[0].pos().cursor.col + b0.tab_size < usize::MAX,
        b0.tab_size <= isize::MAX,
        tabbed(b0, r, b1),
    ensures
        ({
            let p = b0.carets.carets@[0].pos();
            let n = b0.tab_size - p.cursor.col % b0.tab_size;
            let k1 = b1.carets.carets@[0];
            &&& b1.content@ == span_inserted(b0.content@, p.cursor.line as int, p.cursor.col as int,
                crate::edit_operators::spaces(n))
            &&& b1.wf()
            &&& b1.carets.carets@.len() == 1
            &&& k1.pos().cursor.line == p.cursor.line
            &&& k1.pos().cursor.col == p.cursor.col + n
            &&& k1.added_len == n
            &&& k1.removed_text@.len() == 1
            &&& k1.removed_text@[0].wf()
            &&& k1.removed_text@[0]@.len() == 0
        }),
{
    let k0 = b0.carets.carets@[0];
    let p = k0.pos();
    let l = p.cursor.line as int;
    let col = p.cursor.col as int;
    let c0 = b0.content@;
    let tab = b0.tab_size;
    let n = tab - p.cursor.col % tab;
    let sp = crate::edit_operators::spaces(n);
    let (m1, m2) = choose|m1: Buffer, m2: Buffer| #![trigger materialized_rel(b0, m1), edited_each(m1, m2, no_prep(), tab_lines(b0.tab_size))]
        materialized_rel(b0, m1) && edited_each(m1, m2, no_prep(), tab_lines(b0.tab_size)) && finished(m2, b1, r);
    // Nothing to make real: the caret lies within its line.
    let (mc, mcs) = choose|c: Seq<Seq<Seq<u8>>>, cs: Seq<Seq<Caret>>| #![trigger materialize_chain(c, cs)]
        materialize_chain(c, cs) && c[0] == c0 && cs[0] == b0.carets.carets@ && c.last() == m1.content@
        && cs.last() == m1.carets.carets@;
    assert(materialize_chain(mc, mcs));
    assert(mcs.len() == 2);
    assert(materialize_step(mc[0], mcs[0], 0, mc[0int + 1], mcs[0int + 1]));
    assert(m1.content@ == c0);
    assert(m1.carets.carets@ == b0.carets.carets@);
    // The one edit.
    let (ec, ecs, news) = choose|c: Seq<Seq<Seq<u8>>>, cs: Seq<Seq<Caret>>, news: Seq<Seq<LittleString>>|
        #![trigger crate::edit_controller::edit_chain(c, cs, news, no_prep(), tab_lines(b0.tab_size))]
        crate::edit_controller::edit_chain(c, cs, news, no_prep(), tab_lines(b0.tab_size))
        && news.len() == m1.carets.carets@.len() && c[0] == m1.content@ && cs[0] == m1.carets.carets@
        && c.last() == m2.content@ && cs.last() == m2.carets.carets@;
    let new = news[0];
    assert(edit_step(ec[0], no_prep()(ec[0], ecs[0], 0), 0, news[0], ec[0int + 1], ecs[0int + 1]));
    assert(ls_lines(news[0]) == tab_lines(tab)(ec[0], no_prep()(ec[0], ecs[0], 0), 0));
    assert(ls_lines(new) == seq![sp]);
    assert(ls_lines(new).len() == new.len());
    assert(new.len() == 1);
    assert(new[0]@ == ls_lines(new)[0]);
    assert(new[0].wf());
    assert(1 <= n <= tab);
    let t = flatten(selected_lines(c0, (l, col), (l, col)));
    assert(crate::content::selected_part(c0, (l, col), (l, col), l) =~= Seq::<u8>::empty());
    assert(selected_lines(c0, (l, col), (l, col)) =~= seq![Seq::<u8>::empty()]);
    assert(toks(Seq::<u8>::empty()) =~= Seq::<Option<u8>>::empty());
    assert(t.len() == 0);
    assert(total_len(new.drop_last()) == 0);
    assert(total_len(new) == n);
    assert(crate::content::replace_text_ok(c0, k0, new));
    let k2 = ecs[1][0];
    assert(flatten(crate::content::recorded_before(k0)) =~= Seq::<Option<u8>>::empty());
    lemma_flatten_empty(ls_lines(k2.removed_text@));
    assert(k2.removed_text@[0]@ == ls_lines(k2.removed_text@)[0]);
    assert(ecs[1].len() == 1);
    assert(m2.carets.carets@ == ecs[1]);
    assert(crate::content::text_lines(new) =~= seq![sp]);
    assert(ec[1] == crate::content::spliced(c0, (l, col), (l, col), seq![sp]));
    assert(ec[1] =~= span_inserted(c0, l, col, sp));
    assert(k2.added_len == n);
    assert(k2.pos().cursor.line == l);
    assert(crate::content::replace_np(1usize, n as usize, (l, col), (l, col)) == n);
    assert(k2.pos().cursor.col == col + n);
    assert(m2.checkpoints.others == b0.checkpoints.others);
    lemma_finished_single(m2, b1, r);
}

/// Tab at a single caret with no edit in progress, then undo, gives back the
/// text as it was.
pub proof fn undo_takes_back_tab(b0: Buffer, r0: Rect, b1: Buffer, r1: Rect, l1: Seq<Log>, b2: Buffer, l2: Seq<Log>)
    requires
        b0.wf(),
        idle_single_caret(b0),
        b0.carets.carets@[0].pos().cursor.col + b0.tab_size < usize::MAX,
        b0.tab_size <= isize::MAX,
        tabbed(b0, r0, b1),
        undone(b1, l1, r1, b2, l2),
    ensures
        b2.content@ == b0.content@,
{
    let p = b0.carets.carets@[0].pos();
    let l = p.cursor.line as int;
    let col = p.cursor.col as int;
    let c0 = b0.content@;
    let n = b0.tab_size - p.cursor.col % b0.tab_size;
    let sp = crate::edit_operators::spaces(n);
    lemma_tabbed(b0, r0, b1);
    let line = c0[l].take(col) + sp + c0[l].skip(col);
    assert(b1.content@[l] == line);
    assert(line.subrange(col, col + n) =~= sp);
    assert(is_ascii(sp));
    crate::history::lemma_ascii_valid(sp);
    lemma_undo_typed(b1, l1, r1, b2, l2, n);
    assert(line.take(col) =~= c0[l].take(col));
    assert(line.skip(col + n) =~= c0[l].skip(col));
    assert(c0[l].take(col) + c0[l].skip(col) =~= c0[l]);
    assert(span_removed(span_inserted(c0, l, col, sp), l, col, col + n) =~= c0);
}

} // verus!
