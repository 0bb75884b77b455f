//! The text of a buffer, as lines of bytes.
use crate::caret::{lc_less, shift_caret, Caret, CursorEditor, Position};
use crate::checkpoints::{deadline_in_millis, Checkpoints, DURATION_SMALL_TIMER_MS};
use crate::line_ending::{detected_ending, first_ending, join, le_bytes, lemma_split_nonempty, split_lines, LineEnding};
use crate::text::{str_bytes, str_from_utf8};
use crate::caret::Carets;
use crate::history::{back_fits, back_recorded, first_state, flatten, fwd_fits, fwd_recorded, last_state, lemma_back_ascii,
    lemma_back_fits_suffix, lemma_fwd_fits_prefix, lemma_flatten_push, ls_lines, record_backward, record_forward, strings_wf, toks,
    toks_ascii};
use crate::cursor::Cursor;
use crate::little_string::{LittleString, N_MAX_LITTLE};
use crate::mostly_one_vec::MostlyOneVec;
use crate::selection::Selection;
use vstd::prelude::*;
use vstd::utf8::*;

verus! {

/// The lines of a file, without their line endings.
pub struct Content {
    lines: Vec<Vec<u8>>,
}

impl View for Content {
    type V = Seq<Seq<u8>>;

    closed spec fn view(&self) -> Seq<Seq<u8>> {
        self.lines@.map_values(|l: Vec<u8>| l@)
    }
}

impl Content {
    /// Content made of the given lines.
    pub fn from_lines(lines: Vec<Vec<u8>>) -> (r: Content)
        ensures
            r@ == lines@.map_values(|l: Vec<u8>| l@),
    {
        Content { lines }
    }

    pub fn len(&self) -> (r: usize)
        ensures
            r == self@.len(),
    {
        self.lines.len()
    }

    /// The line at `index`, which lies in the text.
    pub fn index(&self, index: usize) -> (r: &Vec<u8>)
        requires
            index < self@.len(),
        ensures
            r@ == self@[index as int],
    {
        &self.lines[index]
    }

    pub fn get_lines(&self) -> (r: &Vec<Vec<u8>>)
        ensures
            r@.map_values(|l: Vec<u8>| l@) == self@,
    {
        &self.lines
    }
}


/// The bytes of each line of a text given as little strings.
pub open spec fn text_lines(t: Seq<LittleString>) -> Seq<Seq<u8>> {
    t.map_values(|s: LittleString| s@)
}

/// The lines that stand where a range was replaced by the lines `new`:
/// `head` (what preceded the range on its first line) joined to the first new
/// line, the new lines between, and the last new line joined to `tail` (what
/// followed the range on its last line).
pub open spec fn replacement(head: Seq<u8>, new: Seq<Seq<u8>>, tail: Seq<u8>) -> Seq<Seq<u8>> {
    if new.len() == 0 {
        seq![head + tail]
    } else if new.len() == 1 {
        seq![head + new[0] + tail]
    } else {
        seq![head + new[0]] + new.subrange(1, new.len() - 1) + seq![new.last() + tail]
    }
}

/// `c` with the range from `min` to `max` replaced by the lines `new`. The part
/// kept before the range is cut at the line's end where `min` lies past it.
/// Where the range lies within one line and more than one line is put in, what
/// follows is taken from `min` on (so the range itself is kept after the new
/// text).
pub open spec fn spliced(c: Seq<Seq<u8>>, min: (int, int), max: (int, int), new: Seq<Seq<u8>>) -> Seq<Seq<u8>> {
    let l = c[min.0];
    let head = l.take(if min.1 < l.len() { min.1 } else { l.len() as int });
    let tail = if max.0 == min.0 && new.len() >= 2 { l.skip(min.1) } else { c[max.0].skip(max.1) };
    c.take(min.0) + replacement(head, new, tail) + c.skip(max.0 + 1)
}

/// The caret being edited just before its range is replaced: without a
/// selection its (unused) anchor line follows the cursor; with one, the
/// cursor goes to the end of the range and the selection is dropped.
pub open spec fn collapsed(p: Position) -> Position {
    if p.selection.none {
        Position { selection: Selection { line: p.cursor.line, ..p.selection }, ..p }
    } else {
        let max = p.max_lc(false);
        Position {
            cursor: Cursor { line: max.0 as usize, col: max.1 as usize, goal: crate::cursor::HorizontalGoal::Column(max.1 as usize) },
            selection: Selection { none: true, ..p.selection },
        }
    }
}

/// How many lines the text after a replaced range moves by.
pub open spec fn replace_ud(n: usize, min: (int, int), max: (int, int)) -> isize {
    let sel_n = max.0 - min.0 + 1;
    vstd::wrapping::usize_specs::wrapping_sub(
        if n >= 1 { (n - 1) as usize } else { 0usize },
        (sel_n - 1) as usize,
    ) as isize
}

/// How many columns the text after a replaced range on its last line moves
/// by, given the length of the last new line.
pub open spec fn replace_np(n: usize, last_len: usize, min: (int, int), max: (int, int)) -> isize {
    vstd::wrapping::usize_specs::wrapping_sub(
        (last_len + if n <= 1 { min.1 } else { 0 }) as usize,
        max.1 as usize,
    ) as isize
}

/// What [`Content::replace_text_without_checkpoints`] does to the text `c0`
/// and the carets `cs0` when it edits at caret `i0` with the lines `new`,
/// giving `c1` and `cs1`.
pub open spec fn replace_plain_post(c0: Seq<Seq<u8>>, cs0: Seq<Caret>, i0: int, new: Seq<LittleString>, c1: Seq<Seq<u8>>, cs1: Seq<Caret>) -> bool {
    let p = cs0[i0].pos();
    let min = p.min_lc();
    let max = p.max_lc(false);
    let n = new.len();
    let last_len = if n == 0 { 0usize } else { new[n - 1]@.len() as usize };
    let before = cs0.update(i0, Caret { position: collapsed(p), ..cs0[i0] });
    &&& c1 == spliced(c0, min, max, text_lines(new))
    &&& cs1.len() == before.len()
    &&& forall|i: int| 0 <= i < before.len() ==> #[trigger] cs1[i]
        == shift_caret(before[i], max.0, max.1, replace_ud(n as usize, min, max), replace_np(n as usize, last_len, min, max))
}

/// What `replace_text_without_checkpoints` needs of the caret and the text
/// (otherwise it would panic).
pub open spec fn replace_requires(c: Seq<Seq<u8>>, p: Position, new: Seq<LittleString>) -> bool {
    let min = p.min_lc();
    let max = p.max_lc(false);
    let n = new.len();
    &&& max.0 < c.len()
    &&& min.0 == max.0 && n <= 1 ==> max.1 <= c[min.0].len()
    &&& min.0 == max.0 && n >= 2 ==> min.1 <= c[min.0].len()
    &&& min.0 < max.0 ==> max.1 <= c[max.0].len()
    &&& forall|i: int| 0 <= i < n ==> (#[trigger] new[i]).wf()
    &&& n <= 1 && n > 0 ==> new[n - 1]@.len() + min.1 <= usize::MAX
}

/// Appends `src` to `dst`.
fn extend_bytes(dst: &mut Vec<u8>, src: &[u8])
    ensures
        final(dst)@ == old(dst)@ + src@,
{
    let mut i: usize = 0;
    while i < src.len()
        invariant
            i <= src@.len(),
            dst@ == old(dst)@ + src@.take(i as int),
        decreases src@.len() - i,
    {
        dst.push(src[i]);
        assert(src@.take(i + 1) =~= src@.take(i as int).push(src@[i as int]));
        i = i + 1;
    }
    assert(src@.take(src@.len() as int) =~= src@);
}

/// Appends the bytes of `src` from `from` to `to`.
fn extend_range(dst: &mut Vec<u8>, src: &Vec<u8>, from: usize, to: usize)
    requires
        from <= to <= src@.len(),
    ensures
        final(dst)@ == old(dst)@ + src@.subrange(from as int, to as int),
{
    let s = src.as_slice();
    extend_bytes(dst, &s[from..to]);
}

impl Content {
    /// Replaces the range of the caret `carets.cursor` (just its position
    /// where nothing is selected) by the lines `new_text`, then moves every
    /// caret end at or after the end of the range as the text there moved,
    /// without recording the edit for undo.
    pub fn replace_text_without_checkpoints(&mut self, carets: &mut CursorEditor, new_text: &MostlyOneVec<LittleString>)
        requires
            old(carets).cursor < old(carets).cursors.carets@.len(),
            replace_requires(old(self)@, old(carets).cursors.carets@[old(carets).cursor as int].pos(), new_text@),
        ensures
            replace_plain_post(old(self)@, old(carets).cursors.carets@, old(carets).cursor as int, new_text@,
                final(self)@, final(carets).cursors.carets@),
            final(carets).cursor == old(carets).cursor,
            *final(final(carets).cursors) == *final(old(carets).cursors),
    {
        let idx = carets.cursor;
        let total = self.lines.len();
        let mut pos = carets.cursors.carets.index(idx).position;
        let ghost p = pos;
        if pos.selection.none {
            pos.selection.line = pos.cursor.line;
        }
        carets.cursors.carets.index_mut(idx).position = pos;
        let n = new_text.len();
        let min = pos.get_min();
        let max = pos.get_max(false);
        assert(pos.min_lc() == p.min_lc() && pos.max_lc(false) == p.max_lc(false));
        let sel_n = max.0 - min.0 + 1;
        let last_len = if n == 0 { 0 } else { new_text.index(n - 1).len() };

        let repl = self.replacement_lines(min, max, new_text);
        self.splice_lines(min.0, max.0 + 1, repl);

        if !pos.selection.none {
            let cr = carets.cursors.carets.index_mut(idx);
            cr.position.cursor = Cursor::new(max.0, max.1);
            cr.position.selection.none = true;
        }
        let ud = (if n >= 1 { n - 1 } else { 0 }).wrapping_sub(sel_n - 1) as isize;
        let np = (last_len + if n <= 1 { min.1 } else { 0 }).wrapping_sub(max.1) as isize;
        carets.move_anything_after_ud_np_included(max.0, max.1, ud, np);
    }

    /// The lines that replace the range from `min` to `max`, as
    /// [`spliced`] describes them.
    fn replacement_lines(&self, min: (usize, usize), max: (usize, usize), new_text: &MostlyOneVec<LittleString>) -> (r: Vec<Vec<u8>>)
        requires
            min.0 <= max.0 < self@.len(),
            min.0 == max.0 ==> min.1 <= max.1,
            min.0 == max.0 && new_text@.len() <= 1 ==> max.1 <= self@[min.0 as int].len(),
            min.0 == max.0 && new_text@.len() >= 2 ==> min.1 <= self@[min.0 as int].len(),
            min.0 < max.0 ==> max.1 <= self@[max.0 as int].len(),
            forall|i: int| 0 <= i < new_text@.len() ==> (#[trigger] new_text@[i]).wf(),
        ensures
            ({
                let c = self@;
                let l = c[min.0 as int];
                let head = l.take(if min.1 < l.len() { min.1 as int } else { l.len() as int });
                let tail = if max.0 == min.0 && new_text@.len() >= 2 { l.skip(min.1 as int) } else { c[max.0 as int].skip(max.1 as int) };
                r@.map_values(|l: Vec<u8>| l@) == replacement(head, text_lines(new_text@), tail)
            }),
    {
        let ghost c = self@;
        let ghost new = text_lines(new_text@);
        let n = new_text.len();
        let min_line_len = self.lines[min.0].len();
        let head_end = if min.1 < min_line_len { min.1 } else { min_line_len };
        let mut head: Vec<u8> = Vec::new();
        extend_range(&mut head, &self.lines[min.0], 0, head_end);
        let mut tail: Vec<u8> = Vec::new();
        if min.0 == max.0 && n >= 2 {
            extend_range(&mut tail, &self.lines[min.0], min.1, min_line_len);
        } else {
            let max_line_len = self.lines[max.0].len();
            extend_range(&mut tail, &self.lines[max.0], max.1, max_line_len);
        }
        let ghost head_s = head@;
        let ghost tail_s = tail@;
        proof {
            assert(head_s =~= c[min.0 as int].take(head_end as int));
        }
        let mut r: Vec<Vec<u8>> = Vec::new();
        if n == 0 {
            extend_bytes(&mut head, tail.as_slice());
            r.push(head);
            assert(r@.map_values(|l: Vec<u8>| l@) =~= seq![head_s + tail_s]);
        } else if n == 1 {
            extend_bytes(&mut head, new_text.index(0).as_bytes());
            extend_bytes(&mut head, tail.as_slice());
            r.push(head);
            assert(r@.map_values(|l: Vec<u8>| l@) =~= seq![head_s + new[0] + tail_s]);
        } else {
            extend_bytes(&mut head, new_text.index(0).as_bytes());
            r.push(head);
            assert(r@.map_values(|l: Vec<u8>| l@) =~= seq![head_s + new[0]]);
            let mut k: usize = 1;
            while k < n - 1
                invariant
                    1 <= k <= n - 1,
                    n == new_text@.len(),
                    n >= 2,
                    new == text_lines(new_text@),
                    forall|i: int| 0 <= i < n ==> (#[trigger] new_text@[i]).wf(),
                    r@.map_values(|l: Vec<u8>| l@) == seq![head_s + new[0]] + new.subrange(1, k as int),
                decreases n - k,
            {
                let mut line: Vec<u8> = Vec::new();
                extend_bytes(&mut line, new_text.index(k).as_bytes());
                let ghost before = r@;
                r.push(line);
                proof {
                    assert(r@.map_values(|l: Vec<u8>| l@) =~= before.map_values(|l: Vec<u8>| l@).push(new[k as int]));
                    assert(new.subrange(1, k + 1) =~= new.subrange(1, k as int).push(new[k as int]));
                }
                k = k + 1;
            }
            let mut last: Vec<u8> = Vec::new();
            extend_bytes(&mut last, new_text.index(n - 1).as_bytes());
            extend_bytes(&mut last, tail.as_slice());
            let ghost before = r@;
            r.push(last);
            proof {
                assert(r@.map_values(|l: Vec<u8>| l@) =~= before.map_values(|l: Vec<u8>| l@).push(new.last() + tail_s));
            }
        }
        r
    }

    /// Puts `repl` in place of the lines from `from` up to `to`.
    fn splice_lines(&mut self, from: usize, to: usize, repl: Vec<Vec<u8>>)
        requires
            from < to <= old(self)@.len(),
        ensures
            final(self)@ == old(self)@.take(from as int) + repl@.map_values(|l: Vec<u8>| l@) + old(self)@.skip(to as int),
    {
        let ghost c = self@;
        let ghost repl_s = repl@;
        let mut repl = repl;
        let mut rest = self.lines.split_off(to);
        let ghost rest_s = rest@;
        self.lines.truncate(from);
        self.lines.append(&mut repl);
        self.lines.append(&mut rest);
        proof {
            assert(rest_s.map_values(|l: Vec<u8>| l@) =~= c.skip(to as int));
            assert(self@ =~= c.take(from as int) + repl_s.map_values(|l: Vec<u8>| l@) + c.skip(to as int));
        }
    }
}


/// The part of line `j` that lies in the range from `min` to `max`.
pub open spec fn selected_part(c: Seq<Seq<u8>>, min: (int, int), max: (int, int), j: int) -> Seq<u8> {
    let l = c[j];
    if j == min.0 && j == max.0 {
        l.subrange(min.1, max.1)
    } else if j == min.0 {
        l.skip(min.1)
    } else if j == max.0 {
        l.take(max.1)
    } else {
        l
    }
}

/// The text in the range from `min` to `max`, line by line.
pub open spec fn selected_lines(c: Seq<Seq<u8>>, min: (int, int), max: (int, int)) -> Seq<Seq<u8>> {
    Seq::new((max.0 - min.0 + 1) as nat, |k: int| selected_part(c, min, max, min.0 + k))
}

/// The range from `min` to `max` lies within the text.
pub open spec fn range_in(c: Seq<Seq<u8>>, min: (int, int), max: (int, int)) -> bool {
    &&& 0 <= min.0 <= max.0 < c.len()
    &&& 0 <= min.1 && 0 <= max.1
    &&& min.0 == max.0 ==> min.1 <= max.1 <= c[min.0].len()
    &&& min.0 < max.0 ==> min.1 <= c[min.0].len() && max.1 <= c[max.0].len()
}

/// The total length in bytes of the lines.
pub open spec fn total_len(s: Seq<LittleString>) -> int
    decreases s.len(),
{
    if s.len() == 0 {
        0
    } else {
        total_len(s.drop_last()) + s.last()@.len()
    }
}

/// The caret's position as the edit begins: without a selection, the
/// (unused) anchor line follows the cursor.
pub open spec fn marked(p: Position) -> Position {
    if p.selection.none {
        Position { selection: Selection { line: p.cursor.line, ..p.selection }, ..p }
    } else {
        p
    }
}

/// Whether an edit records its removed text forward (the anchor lies after
/// the cursor) rather than backward.
pub open spec fn records_forward(p: Position) -> bool {
    crate::caret::lc_lt(marked(p).cursor_lc(), marked(p).selection_lc())
}

/// What a caret had recorded as removed before an edit: nothing (one empty
/// line) unless an edit was in progress.
pub open spec fn recorded_before(c: Caret) -> Seq<Seq<u8>> {
    if c.started && c.removed_text@.len() > 0 {
        ls_lines(c.removed_text@)
    } else {
        seq![Seq::<u8>::empty()]
    }
}

/// What a caret had counted as added before an edit.
pub open spec fn added_before(c: Caret) -> int {
    if c.started { c.added_len as int } else { 0 }
}

/// How much of the removed text a backward edit takes off the count of
/// added bytes rather than recording.
pub open spec fn skipped(c: Caret, t: Seq<Option<u8>>) -> int {
    if added_before(c) < t.len() { added_before(c) } else { t.len() as int }
}

/// What an edit at caret `c`, removing the tokens `t` and putting in the
/// lines `new`, counts as added.
pub open spec fn added_after(c: Caret, t: Seq<Option<u8>>, new: Seq<LittleString>) -> int {
    (if records_forward(c.pos()) { added_before(c) } else { added_before(c) - skipped(c, t) })
        + (if new.len() >= 1 { new.len() - 1 } else { 0 }) + total_len(new)
}

/// Appends the tokens of `l` from `from` to `to`.
fn push_toks(r: &mut Vec<Option<u8>>, l: &Vec<u8>, from: usize, to: usize)
    requires
        from <= to <= l@.len(),
    ensures
        final(r)@ == old(r)@ + toks(l@.subrange(from as int, to as int)),
{
    let mut i = from;
    while i < to
        invariant
            from <= i <= to <= l@.len(),
            r@ == old(r)@ + toks(l@.subrange(from as int, i as int)),
        decreases to - i,
    {
        r.push(Some(l[i]));
        assert(toks(l@.subrange(from as int, i + 1)) =~= toks(l@.subrange(from as int, i as int)).push(Some(l@[i as int])));
        i = i + 1;
    }
}

/// Records the tokens `t` as removed: appended in order when `forward`
/// (they are ASCII then); otherwise taken from the back, the first `skip` of
/// them dropped and the rest put in front one at a time (see
/// [`back_recorded`]). Returns what is left of `skip`.
fn record_removed(removed: &mut MostlyOneVec<LittleString>, t: &Vec<Option<u8>>, forward: bool, skip: usize) -> (left: usize)
    requires
        old(removed)@.len() > 0,
        strings_wf(old(removed)@),
        forward ==> toks_ascii(t@) && fwd_fits(last_state(old(removed)@), t@),
        !forward ==> back_fits(first_state(old(removed)@),
            t@.take(t@.len() - (if skip < t@.len() { skip as int } else { t@.len() as int }))),
    ensures
        final(removed)@.len() > 0,
        strings_wf(final(removed)@),
        forward ==> left == skip && flatten(ls_lines(final(removed)@)) == flatten(ls_lines(old(removed)@)) + t@,
        !forward ==> ({
            let k = if skip < t@.len() { skip as int } else { t@.len() as int };
            &&& left == skip - k
            &&& first_state(final(removed)@) == back_recorded(first_state(old(removed)@), t@.take(t@.len() - k))
        }),
{
    let ghost f0 = flatten(ls_lines(removed@));
    let ghost r0 = last_state(removed@);
    let ghost s0 = first_state(removed@);
    let n = t.len();
    if forward {
        let mut i: usize = 0;
        while i < n
            invariant
                i <= n == t@.len(),
                toks_ascii(t@),
                fwd_fits(r0, t@),
                removed@.len() > 0,
                strings_wf(removed@),
                flatten(ls_lines(removed@)) == f0 + t@.take(i as int),
                last_state(removed@) == fwd_recorded(r0, t@.take(i as int)),
            decreases n - i,
        {
            assert(t@[i as int] matches Some(b) ==> b < 128);
            proof {
                lemma_fwd_fits_prefix(r0, t@, i + 1);
                assert(t@.take(i + 1).drop_last() =~= t@.take(i as int));
                assert(t@.take(i + 1).last() == t@[i as int]);
            }
            record_forward(removed, t[i]);
            assert(t@.take(i + 1) =~= t@.take(i as int).push(t@[i as int]));
            i = i + 1;
        }
        assert(t@.take(n as int) =~= t@);
        skip
    } else {
        let ghost k = if skip < t@.len() { skip as int } else { t@.len() as int };
        let ghost m = n - k;
        let ghost tm = t@.take(m);
        let mut s = skip;
        let mut i: usize = n;
        while i > 0
            invariant
                i <= n == t@.len(),
                0 <= k <= n,
                m == n - k,
                tm == t@.take(m),
                k == if skip < t@.len() { skip as int } else { t@.len() as int },
                back_fits(s0, tm),
                removed@.len() > 0,
                strings_wf(removed@),
                n - i <= k ==> s == skip - (n - i) && first_state(removed@) == s0,
                n - i > k ==> s == 0 && skip == k && first_state(removed@) == back_recorded(s0, tm.subrange(i as int, m)),
            decreases i,
        {
            if s > 0 {
                s = s - 1;
            } else {
                let ghost j = i - 1;
                proof {
                    lemma_back_fits_suffix(s0, tm, j);
                    assert(tm.subrange(j, m).drop_first() =~= tm.subrange(i as int, m));
                    assert(tm.subrange(j, m)[0] == t@[j]);
                    if n - i <= k {
                        assert(tm.subrange(i as int, m) =~= Seq::<Option<u8>>::empty());
                    }
                }
                record_backward(removed, t[i - 1]);
            }
            i = i - 1;
        }
        proof {
            if m > 0 {
                assert(tm.subrange(0, m) =~= tm);
            } else {
                assert(tm =~= Seq::<Option<u8>>::empty());
            }
        }
        s
    }
}

impl Content {
    /// The text in the range from `min` to `max` as tokens.
    pub fn selected_tokens(&self, min: (usize, usize), max: (usize, usize)) -> (r: Vec<Option<u8>>)
        requires
            range_in(self@, (min.0 as int, min.1 as int), (max.0 as int, max.1 as int)),
        ensures
            r@ == flatten(selected_lines(self@, (min.0 as int, min.1 as int), (max.0 as int, max.1 as int))),
    {
        let ghost mn = (min.0 as int, min.1 as int);
        let ghost mx = (max.0 as int, max.1 as int);
        let ghost sel = selected_lines(self@, mn, mx);
        let mut r: Vec<Option<u8>> = Vec::new();
        let total = self.lines.len();
        let mut j = min.0;
        while j <= max.0
            invariant
                min.0 <= j <= max.0 + 1,
                max.0 < self@.len() == total,
                mn == (min.0 as int, min.1 as int),
                mx == (max.0 as int, max.1 as int),
                range_in(self@, mn, mx),
                sel == selected_lines(self@, mn, mx),
                r@ == flatten(sel.take(j - min.0)),
            decreases max.0 + 1 - j,
        {
            let ghost before = r@;
            if j > min.0 {
                r.push(None);
            }
            let l = &self.lines[j];
            let from = if j == min.0 { min.1 } else { 0 };
            let to = if j == max.0 { max.1 } else { l.len() };
            push_toks(&mut r, l, from, to);
            proof {
                let k = j - min.0;
                assert(l@ == self@[j as int]);
                assert(l@.subrange(from as int, to as int) =~= sel[k]);
                assert(sel.take(k + 1) =~= sel.take(k).push(sel[k]));
                if k == 0 {
                    assert(sel.take(1) =~= seq![sel[0]]);
                } else {
                    lemma_flatten_push(sel.take(k), sel[k]);
                }
            }
            j = j + 1;
        }
        assert(sel.take(max.0 - min.0 + 1) =~= sel);
        r
    }
}


/// The count an edit adds for the lines `new_text`: its bytes and the line
/// breaks between them.
fn added_count(new_text: &MostlyOneVec<LittleString>, base: usize) -> (r: usize)
    requires
        forall|i: int| 0 <= i < new_text@.len() ==> (#[trigger] new_text@[i]).wf(),
        base + (if new_text@.len() >= 1 { new_text@.len() - 1 } else { 0 }) + total_len(new_text@) <= usize::MAX,
    ensures
        r == base + (if new_text@.len() >= 1 { new_text@.len() - 1 } else { 0 }) + total_len(new_text@),
{
    let n = new_text.len();
    proof {
        assert(new_text@.take(0) =~= Seq::<LittleString>::empty());
        lemma_total_len_prefix(new_text@, 0);
        assert forall|j: int| 0 <= j <= n implies total_len(#[trigger] new_text@.take(j)) <= total_len(new_text@) by {
            lemma_total_len_prefix(new_text@, j);
        }
    }
    let mut sum: usize = base + if n >= 1 { n - 1 } else { 0 };
    let mut i: usize = 0;
    while i < n
        invariant
            i <= n == new_text@.len(),
            forall|k: int| 0 <= k < n ==> (#[trigger] new_text@[k]).wf(),
            base + (if n >= 1 { n - 1 } else { 0 }) + total_len(new_text@) <= usize::MAX,
            sum == base + (if n >= 1 { n - 1 } else { 0 }) + total_len(new_text@.take(i as int)),
            forall|j: int| 0 <= j <= n ==> total_len(#[trigger] new_text@.take(j)) <= total_len(new_text@),
        decreases n - i,
    {
        proof {
            assert(new_text@.take(i + 1).drop_last() =~= new_text@.take(i as int));
            assert(total_len(new_text@.take(i + 1)) <= total_len(new_text@));
        }
        sum = sum + new_text.index(i).len();
        i = i + 1;
    }
    assert(new_text@.take(n as int) =~= new_text@);
    sum
}

proof fn lemma_total_len_nonneg(s: Seq<LittleString>)
    ensures
        0 <= total_len(s),
    decreases s.len(),
{
    if s.len() > 0 {
        lemma_total_len_nonneg(s.drop_last());
    }
}

proof fn lemma_total_len_prefix(s: Seq<LittleString>, j: int)
    requires
        0 <= j <= s.len(),
    ensures
        0 <= total_len(s.take(j)) <= total_len(s),
    decreases s.len() - j,
{
    lemma_total_len_nonneg(s.take(j));
    if j < s.len() {
        lemma_total_len_prefix(s, j + 1);
        assert(s.take(j + 1).drop_last() =~= s.take(j));
    } else {
        assert(s.take(j) =~= s);
    }
}

impl Content {
    /// Replaces the range of the caret `carets.cursor` by the lines
    /// `new_text` as [`Content::replace_text_without_checkpoints`] does,
    /// recording the edit at that caret for undo: the removed text is
    /// appended to what the caret recorded (the anchor after the cursor) or,
    /// removed backward, put in front of it one byte at a time, from the back,
    /// after first using it up against what the edit in progress had added
    /// (see [`back_recorded`]: a line outgrowing its inline block takes each
    /// further byte as the character of that code); the bytes and line breaks
    /// put in are counted as added. The short timer for recording the edit
    /// restarts.
    pub fn replace_text(&mut self, checkpoints: &mut Checkpoints, carets: &mut CursorEditor, new_text: &MostlyOneVec<LittleString>)
        requires
            old(carets).cursor < old(carets).cursors.carets@.len(),
            replace_text_ok(old(self)@, old(carets).cursors.carets@[old(carets).cursor as int], new_text@),
        ensures
            ({
                &&& replace_text_post(old(self)@, old(carets).cursors.carets@, old(carets).cursor as int, new_text@,
                    final(self)@, final(carets).cursors.carets@)
                &&& final(carets).cursor == old(carets).cursor
                &&& *final(final(carets).cursors) == *final(old(carets).cursors)
                &&& final(checkpoints).little_timer_deadline is Some
                &&& final(checkpoints).others == old(checkpoints).others
                &&& final(checkpoints).cursor_lened == old(checkpoints).cursor_lened
                &&& final(checkpoints).big_timer_deadline == old(checkpoints).big_timer_deadline
            }),
    {
        let idx = carets.cursor;
        let ghost oc = carets.cursors.carets@[idx as int];
        let mut pos = carets.cursors.carets.index(idx).position;
        if pos.selection.none {
            pos.selection.line = pos.cursor.line;
        }
        let min = pos.get_min();
        let max = pos.get_max(false);
        let t = self.selected_tokens(min, max);
        let forward = lc_less(pos.cursor.get_lc(), pos.selection.get_lc());
        let caret = carets.cursors.carets.index_mut(idx);
        caret.position = pos;
        caret.start_checkpoint();
        let skip = if !forward { caret.added_len } else { 0 };
        if caret.removed_text.is_empty() {
            caret.removed_text.push(LittleString::empty());
            proof {
                assert(ls_lines(caret.removed_text@) =~= seq![Seq::<u8>::empty()]);
            }
        }
        proof {
            assert(ls_lines(caret.removed_text@) == recorded_before(oc));
            assert(first_state(caret.removed_text@) == record_start(oc));
            assert(last_state(caret.removed_text@) == record_end(oc));
            assert(strings_wf(caret.removed_text@));
            lemma_total_len_prefix(new_text@, 0);
        }
        let ghost k = if skip < t@.len() { skip as int } else { t@.len() as int };
        let left = record_removed(&mut caret.removed_text, &t, forward, skip);
        proof {
            if !forward && toks_ascii(t@.take(t@.len() - k)) {
                lemma_back_ascii(record_start(oc), t@.take(t@.len() - k));
            }
        }
        if !forward {
            caret.added_len = left;
        }
        caret.added_len = added_count(new_text, caret.added_len);
        self.replace_text_without_checkpoints(carets, new_text);
        checkpoints.little_timer_deadline = Some(deadline_in_millis(DURATION_SMALL_TIMER_MS));
    }
}


/// Every line of a text held in memory is shorter than `usize::MAX` bytes.
pub proof fn lemma_line_len_fits(c: Content, i: int)
    requires
        0 <= i < c@.len(),
    ensures
        c@[i].len() <= usize::MAX,
{
    let v = c.lines@[i];
    vstd::std_specs::vec::axiom_spec_len(&v);
    assert(c@[i] == v@);
    assert(v@.len() == vstd::std_specs::vec::spec_vec_len(&v));
}

/// `l` joined onto what was split off before it: the last of `l` continues
/// into the first of `r`.
pub open spec fn combine(l: Seq<Seq<u8>>, r: Seq<Seq<u8>>) -> Seq<Seq<u8>> {
    l.drop_last() + seq![l.last() + r[0]] + r.skip(1)
}

/// Unicode's White_Space property, by code point: the characters that
/// `char::is_whitespace` accepts.
pub open spec fn is_white_space(c: u32) -> bool {
    ||| 0x09 <= c <= 0x0d
    ||| c == 0x20 || c == 0x85 || c == 0xa0 || c == 0x1680
    ||| 0x2000 <= c <= 0x200a
    ||| c == 0x2028 || c == 0x2029 || c == 0x202f || c == 0x205f || c == 0x3000
}

/// How many bytes the character at the start of `b` takes where `b` starts
/// with the well-formed UTF-8 of a white-space character; 0 otherwise.
pub open spec fn white_space_len(b: Seq<u8>) -> int {
    if valid_first_scalar(b) && is_white_space(decode_first_scalar(b)) {
        length_of_first_scalar(b)
    } else {
        0
    }
}

proof fn lemma_white_space_len_bounds(b: Seq<u8>)
    ensures
        0 <= white_space_len(b) <= b.len(),
{
}

/// Where the run of white-space characters that starts at byte `i` of `s`
/// ends.
pub open spec fn leading_ws(s: Seq<u8>, i: int) -> int
    decreases s.len() - i,
{
    if 0 <= i < s.len() && 0 < white_space_len(s.skip(i)) <= s.len() - i {
        leading_ws(s, i + white_space_len(s.skip(i)))
    } else {
        i
    }
}

/// `x` begins with the same first character as `b`.
pub proof fn lemma_first_scalar_prefix(b: Seq<u8>, x: Seq<u8>)
    requires
        valid_first_scalar(b),
        x.len() >= length_of_first_scalar(b),
        forall|k: int| 0 <= k < length_of_first_scalar(b) ==> x[k] == b[k],
    ensures
        valid_first_scalar(x),
        decode_first_scalar(x) == decode_first_scalar(b),
        length_of_first_scalar(x) == length_of_first_scalar(b),
{
    let n = length_of_first_scalar(b);
    assert(x[0] == b[0]);
    if n >= 2 {
        assert(x[1] == b[1]);
    }
    if n >= 3 {
        assert(x[2] == b[2]);
    }
    if n >= 4 {
        assert(x[3] == b[3]);
    }
}

/// The run of white space from byte `i` of `s` lies within `s` and is
/// well-formed UTF-8.
pub proof fn lemma_leading_ws_run(s: Seq<u8>, i: int)
    requires
        0 <= i <= s.len(),
    ensures
        i <= leading_ws(s, i) <= s.len(),
        valid_utf8(s.subrange(i, leading_ws(s, i))),
    decreases s.len() - i,
{
    let e = leading_ws(s, i);
    if i < s.len() && 0 < white_space_len(s.skip(i)) <= s.len() - i {
        let w = white_space_len(s.skip(i));
        lemma_leading_ws_run(s, i + w);
        let x = s.subrange(i, e);
        lemma_first_scalar_prefix(s.skip(i), x);
        assert(pop_first_scalar(x) =~= s.subrange(i + w, e));
    } else {
        assert(s.subrange(i, e).len() == 0);
    }
}

/// How many bytes the white-space character at byte `i` of `s` takes, or 0
/// where none starts there.
fn white_space_len_at(s: &[u8], i: usize) -> (n: usize)
    requires
        i < s@.len(),
    ensures
        n == white_space_len(s@.skip(i as int)),
{
    let ghost b = s@.skip(i as int);
    let rest = s.len() - i;
    let b0 = s[i];
    assert(b[0] == b0);
    let cp: u32;
    let len: usize;
    if b0 <= 0x7f {
        cp = (b0 & 0x7f) as u32;
        len = 1;
    } else if 0xc0 <= b0 && b0 <= 0xdf {
        if rest < 2 || !(0x80 <= s[i + 1] && s[i + 1] <= 0xbf) {
            return 0;
        }
        let b1 = s[i + 1];
        assert(b[1] == b1);
        cp = (((b0 & 0x1f) as u32) << 6) | ((b1 & 0x3f) as u32);
        len = 2;
    } else if 0xe0 <= b0 && b0 <= 0xef {
        if rest < 3 || !(0x80 <= s[i + 1] && s[i + 1] <= 0xbf) || !(0x80 <= s[i + 2] && s[i + 2] <= 0xbf) {
            return 0;
        }
        let b1 = s[i + 1];
        let b2 = s[i + 2];
        assert(b[1] == b1 && b[2] == b2);
        cp = (((b0 & 0x0f) as u32) << 12) | (((b1 & 0x3f) as u32) << 6) | ((b2 & 0x3f) as u32);
        len = 3;
    } else {
        // A four-byte character lies above U+FFFF, where no white space is.
        return 0;
    }
    let ok = (len == 1 || (len == 2 && 0x80 <= cp) || (len == 3 && 0x800 <= cp)) && !(0xd800 <= cp && cp <= 0xdfff);
    let ws = (0x09 <= cp && cp <= 0x0d) || cp == 0x20 || cp == 0x85 || cp == 0xa0 || cp == 0x1680
        || (0x2000 <= cp && cp <= 0x200a) || cp == 0x2028 || cp == 0x2029 || cp == 0x202f || cp == 0x205f
        || cp == 0x3000;
    if ok && ws {
        len
    } else {
        0
    }
}

/// The white space at the start of a line: the longest run of white-space
/// characters it starts with.
pub fn whitespaces_in_the_start_of_the_line(s: &[u8]) -> (r: &[u8])
    ensures
        r@ == s@.take(leading_ws(s@, 0)),
{
    let mut end: usize = 0;
    loop
        invariant
            end <= s@.len(),
            leading_ws(s@, end as int) == leading_ws(s@, 0),
        ensures
            end <= s@.len(),
            end == leading_ws(s@, 0),
        decreases s@.len() - end,
    {
        if end >= s.len() {
            break;
        }
        let w = white_space_len_at(s, end);
        proof {
            lemma_white_space_len_bounds(s@.skip(end as int));
        }
        if w == 0 {
            break;
        }
        end = end + w;
    }
    proof {
        lemma_leading_ws_run(s@, 0);
    }
    let r = &s[0..end];
    assert(r@ =~= s@.take(leading_ws(s@, 0)));
    r
}

/// The texts of the carets' ranges, lines joined with the ending `sep`.
pub open spec fn selected_texts(c: Seq<Seq<u8>>, carets: Seq<Caret>, sep: Seq<u8>) -> Seq<Seq<u8>> {
    carets.map_values(|k: Caret| join(selected_lines(c, k.pos().min_lc(), k.pos().max_lc(false)), sep))
}

/// All texts equal the one before them.
pub open spec fn all_same(t: Seq<Seq<u8>>) -> bool {
    forall|i: int| 1 <= i < t.len() ==> #[trigger] t[i] == t[i - 1]
}

proof fn lemma_join_push(lines: Seq<Seq<u8>>, l: Seq<u8>, sep: Seq<u8>)
    requires
        lines.len() >= 1,
    ensures
        join(lines.push(l), sep) == join(lines, sep) + sep + l,
{
    assert(lines.push(l).drop_last() =~= lines);
}

impl Content {
    /// Splits text into lines at "\n", "\r\n" and "\r", and detects its
    /// line ending from the first break (CRLF where there is none).
    pub fn from_text(text: &str) -> (r: (Content, LineEnding))
        ensures
            r.0@ == split_lines(vstd::utf8::encode_utf8(text@)),
            r.1 == detected_ending(vstd::utf8::encode_utf8(text@)),
    {
        let b = str_bytes(text);
        let n = b.len();
        let ghost bs = b@;
        let mut lines: Vec<Vec<u8>> = Vec::new();
        lines.push(Vec::new());
        let mut ending: Option<LineEnding> = None;
        let mut i: usize = 0;
        proof {
            assert(bs.skip(0) =~= bs);
            lemma_split_nonempty(bs);
            assert(combine(seq![Seq::<u8>::empty()], split_lines(bs)) =~= split_lines(bs));
        }
        while i < n
            invariant
                i <= n == bs.len(),
                b@ == bs,
                lines@.len() >= 1,
                split_lines(bs) == combine(lines@.map_values(|l: Vec<u8>| l@), split_lines(bs.skip(i as int))),
                first_ending(bs) == match ending { Some(le) => Some(le), None => first_ending(bs.skip(i as int)) },
            decreases n - i,
        {
            let ghost l0 = lines@.map_values(|l: Vec<u8>| l@);
            let ghost rest = bs.skip(i as int);
            let ch = b[i];
            if ch == 10u8 {
                if ending.is_none() {
                    ending = Some(LineEnding::LF);
                }
                lines.push(Vec::new());
                i = i + 1;
                proof {
                    assert(rest.skip(1) =~= bs.skip(i as int));
                    lemma_split_nonempty(rest.skip(1));
                    assert(lines@.map_values(|l: Vec<u8>| l@) =~= l0.push(Seq::<u8>::empty()));
                    assert(combine(l0, split_lines(rest)) =~= combine(l0.push(Seq::<u8>::empty()), split_lines(rest.skip(1))));
                }
            } else if ch == 13u8 {
                lines.push(Vec::new());
                if i + 1 < n && b[i + 1] == 10u8 {
                    if ending.is_none() {
                        ending = Some(LineEnding::CRLF);
                    }
                    i = i + 2;
                    proof {
                        assert(rest.skip(2) =~= bs.skip(i as int));
                        lemma_split_nonempty(rest.skip(2));
                        assert(lines@.map_values(|l: Vec<u8>| l@) =~= l0.push(Seq::<u8>::empty()));
                        assert(combine(l0, split_lines(rest)) =~= combine(l0.push(Seq::<u8>::empty()), split_lines(rest.skip(2))));
                    }
                } else {
                    if ending.is_none() {
                        ending = Some(LineEnding::CR);
                    }
                    i = i + 1;
                    proof {
                        assert(rest.skip(1) =~= bs.skip(i as int));
                        lemma_split_nonempty(rest.skip(1));
                        assert(lines@.map_values(|l: Vec<u8>| l@) =~= l0.push(Seq::<u8>::empty()));
                        assert(combine(l0, split_lines(rest)) =~= combine(l0.push(Seq::<u8>::empty()), split_lines(rest.skip(1))));
                    }
                }
            } else {
                let k = lines.len() - 1;
                lines[k].push(ch);
                i = i + 1;
                proof {
                    assert(rest.skip(1) =~= bs.skip(i as int));
                    lemma_split_nonempty(rest.skip(1));
                    assert(lines@.map_values(|l: Vec<u8>| l@) =~= l0.update(k as int, l0[k as int].push(ch)));
                    let r2 = split_lines(rest.skip(1));
                    assert(l0.last().push(ch) + r2[0] =~= l0.last() + (seq![ch] + r2[0]));
                    assert(combine(l0, r2.update(0, seq![ch] + r2[0])) =~= combine(l0.update(k as int, l0[k as int].push(ch)), r2));
                }
            }
        }
        proof {
            assert(bs.skip(n as int) =~= Seq::<u8>::empty());
            let l1 = lines@.map_values(|l: Vec<u8>| l@);
            assert(combine(l1, seq![Seq::<u8>::empty()]) =~= l1);
        }
        let le = match ending {
            Some(le) => le,
            None => LineEnding::CRLF,
        };
        (Content { lines }, le)
    }

    /// The text as bytes: the lines joined with `line_ending` (what is
    /// written to a file).
    pub fn to_bytes(&self, line_ending: LineEnding) -> (r: Vec<u8>)
        ensures
            r@ == join(self@, le_bytes(line_ending)),
    {
        let sep = line_ending.get();
        let n = self.lines.len();
        let mut r: Vec<u8> = Vec::new();
        let mut i: usize = 0;
        while i < n
            invariant
                i <= n == self@.len(),
                sep@ == le_bytes(line_ending),
                r@ == join(self@.take(i as int), sep@),
            decreases n - i,
        {
            let ghost before = r@;
            if i > 0 {
                extend_bytes(&mut r, sep);
            }
            extend_bytes(&mut r, self.lines[i].as_slice());
            proof {
                assert(self@.take(i + 1) =~= self@.take(i as int).push(self@[i as int]));
                if i == 0 {
                    assert(self@.take(1) =~= seq![self@[0]]);
                } else {
                    lemma_join_push(self@.take(i as int), self@[i as int], sep@);
                }
            }
            i = i + 1;
        }
        assert(self@.take(n as int) =~= self@);
        r
    }

    /// Makes room for `cap` more bytes on line `line`; the text is unchanged.
    pub fn reserve_at_line(&mut self, line: usize, cap: usize)
        requires
            line < old(self)@.len(),
        ensures
            final(self)@ == old(self)@,
    {
        let ghost before = self@;
        self.lines[line].reserve(cap);
        assert(self@ =~= before);
    }

    /// The lines from `start` up to `end`, where that range lies within the
    /// text.
    pub fn get(&self, start: usize, end: usize) -> (r: Option<&[Vec<u8>]>)
        ensures
            r is Some <==> start <= end <= self@.len(),
            r matches Some(s) ==> s@.map_values(|l: Vec<u8>| l@) == self@.subrange(start as int, end as int),
    {
        if start <= end && end <= self.lines.len() {
            let s = &self.lines.as_slice()[start..end];
            assert(s@.map_values(|l: Vec<u8>| l@) =~= self@.subrange(start as int, end as int));
            Some(s)
        } else {
            None
        }
    }

    /// The length of the longest line; zero where there are none.
    pub closed spec fn max_line_len_spec(&self) -> int {
        max_len(self@, self@.len() as int)
    }

    /// The length of the longest line; there is at least one line.
    pub fn get_max_line_length(&self) -> (r: usize)
        requires
            self@.len() > 0,
        ensures
            exists|i: int| 0 <= i < self@.len() && r == #[trigger] self@[i].len(),
            forall|i: int| 0 <= i < self@.len() ==> #[trigger] self@[i].len() <= r,
            r == self.max_line_len_spec(),
    {
        let n = self.lines.len();
        let mut best = self.lines[0].len();
        let mut i: usize = 1;
        assert(best == self@[0].len());
        assert(max_len(self@, 0) == 0);
        assert(max_len(self@, 1) == self@[0].len());
        while i < n
            invariant
                1 <= i <= n == self@.len(),
                exists|j: int| 0 <= j < i && best == #[trigger] self@[j].len(),
                best == max_len(self@, i as int),
                forall|j: int| 0 <= j < i ==> #[trigger] self@[j].len() <= best,
            decreases n - i,
        {
            let l = self.lines[i].len();
            assert(l == self@[i as int].len());
            if l > best {
                best = l;
            }
            i = i + 1;
        }
        best
    }

    /// The text of the range of caret `k`, lines joined with `sep`.
    fn selected_text(&self, min: (usize, usize), max: (usize, usize), sep: &[u8]) -> (r: Vec<u8>)
        requires
            range_in(self@, (min.0 as int, min.1 as int), (max.0 as int, max.1 as int)),
        ensures
            r@ == join(selected_lines(self@, (min.0 as int, min.1 as int), (max.0 as int, max.1 as int)), sep@),
    {
        let ghost mn = (min.0 as int, min.1 as int);
        let ghost mx = (max.0 as int, max.1 as int);
        let ghost sel = selected_lines(self@, mn, mx);
        let total = self.lines.len();
        let mut r: Vec<u8> = Vec::new();
        let mut j = min.0;
        while j <= max.0
            invariant
                min.0 <= j <= max.0 + 1,
                max.0 < self@.len() == total,
                mn == (min.0 as int, min.1 as int),
                mx == (max.0 as int, max.1 as int),
                range_in(self@, mn, mx),
                sel == selected_lines(self@, mn, mx),
                r@ == join(sel.take(j - min.0), sep@),
            decreases max.0 + 1 - j,
        {
            if j > min.0 {
                extend_bytes(&mut r, sep);
            }
            let l = &self.lines[j];
            let from = if j == min.0 { min.1 } else { 0 };
            let to = if j == max.0 { max.1 } else { l.len() };
            extend_range(&mut r, l, from, to);
            proof {
                let k = j - min.0;
                assert(l@ == self@[j as int]);
                assert(l@.subrange(from as int, to as int) =~= sel[k]);
                assert(sel.take(k + 1) =~= sel.take(k).push(sel[k]));
                if k == 0 {
                    assert(sel.take(1) =~= seq![sel[0]]);
                    assert(sel.take(0) =~= Seq::<Seq<u8>>::empty());
                } else {
                    lemma_join_push(sel.take(k), sel[k], sep@);
                }
            }
            j = j + 1;
        }
        assert(sel.take(max.0 - min.0 + 1) =~= sel);
        r
    }

    /// The text of each caret's range, lines joined with `line_ending`.
    pub fn get_selected_texts(&self, cursors: &Carets, line_ending: LineEnding) -> (r: Vec<Vec<u8>>)
        requires
            forall|i: int| 0 <= i < cursors.carets@.len() ==> range_in(self@,
                (#[trigger] cursors.carets@[i]).pos().min_lc(), cursors.carets@[i].pos().max_lc(false)),
        ensures
            r@.map_values(|t: Vec<u8>| t@) == selected_texts(self@, cursors.carets@, le_bytes(line_ending)),
    {
        let sep = line_ending.get();
        let n = cursors.carets.len();
        let mut texts: Vec<Vec<u8>> = Vec::new();
        let mut i: usize = 0;
        while i < n
            invariant
                i <= n == cursors.carets@.len(),
                sep@ == le_bytes(line_ending),
                forall|k: int| 0 <= k < cursors.carets@.len() ==> range_in(self@,
                    (#[trigger] cursors.carets@[k]).pos().min_lc(), cursors.carets@[k].pos().max_lc(false)),
                texts@.map_values(|t: Vec<u8>| t@) == selected_texts(self@, cursors.carets@.take(i as int), sep@),
            decreases n - i,
        {
            let p = cursors.carets.index(i).get_position();
            let min = p.get_min();
            let max = p.get_max(false);
            assert(range_in(self@, cursors.carets@[i as int].pos().min_lc(), cursors.carets@[i as int].pos().max_lc(false)));
            let t = self.selected_text(min, max, sep);
            let ghost before = texts@;
            let ghost tv = t@;
            texts.push(t);
            proof {
                assert(cursors.carets@.take(i + 1) =~= cursors.carets@.take(i as int).push(cursors.carets@[i as int]));
                let ci = cursors.carets@[i as int];
                assert((min.0 as int, min.1 as int) == ci.pos().min_lc());
                assert((max.0 as int, max.1 as int) == ci.pos().max_lc(false));
                assert(selected_texts(self@, cursors.carets@.take(i + 1), sep@) =~= selected_texts(self@, cursors.carets@.take(i as int), sep@).push(tv));
                assert(texts@.map_values(|t: Vec<u8>| t@) =~= before.map_values(|t: Vec<u8>| t@).push(tv));
            }
            i = i + 1;
        }
        assert(cursors.carets@.take(n as int) =~= cursors.carets@);
        texts
    }

    /// What a copy puts on the clipboard: the selected text where every
    /// caret selects the same text (nothing for no carets), otherwise all the
    /// carets' texts joined with `line_ending`.
    pub fn get_copyable_text(&self, cursors: &Carets, line_ending: LineEnding) -> (r: Vec<u8>)
        requires
            forall|i: int| 0 <= i < cursors.carets@.len() ==> range_in(self@,
                (#[trigger] cursors.carets@[i]).pos().min_lc(), cursors.carets@[i].pos().max_lc(false)),
        ensures
            ({
                let t = selected_texts(self@, cursors.carets@, le_bytes(line_ending));
                &&& all_same(t) && t.len() > 0 ==> r@ == t[0]
                &&& all_same(t) && t.len() == 0 ==> r@ == Seq::<u8>::empty()
                &&& !all_same(t) ==> r@ == join(t, le_bytes(line_ending))
            }),
    {
        let texts = self.get_selected_texts(cursors, line_ending);
        let ghost t = texts@.map_values(|x: Vec<u8>| x@);
        let n = texts.len();
        let mut same = true;
        let mut i: usize = 1;
        while i < n && same
            invariant
                1 <= i,
                n == texts@.len() == t.len(),
                t == texts@.map_values(|x: Vec<u8>| x@),
                same ==> forall|k: int| 1 <= k < i && k < n ==> #[trigger] t[k] == t[k - 1],
                !same ==> !all_same(t),
            decreases n - i,
        {
            if !bytes_equal(texts[i].as_slice(), texts[i - 1].as_slice()) {
                same = false;
                assert(t[i as int] != t[i - 1]);
            }
            i = i + 1;
        }
        if !same {
            let sep = line_ending.get();
            let mut r: Vec<u8> = Vec::new();
            let mut k: usize = 0;
            while k < n
                invariant
                    k <= n == texts@.len() == t.len(),
                    t == texts@.map_values(|x: Vec<u8>| x@),
                    sep@ == le_bytes(line_ending),
                    r@ == join(t.take(k as int), sep@),
                decreases n - k,
            {
                if k > 0 {
                    extend_bytes(&mut r, sep);
                }
                extend_bytes(&mut r, texts[k].as_slice());
                proof {
                    assert(t.take(k + 1) =~= t.take(k as int).push(t[k as int]));
                    if k == 0 {
                        assert(t.take(1) =~= seq![t[0]]);
                    } else {
                        lemma_join_push(t.take(k as int), t[k as int], sep@);
                    }
                }
                k = k + 1;
            }
            assert(t.take(n as int) =~= t);
            r
        } else {
            let mut r: Vec<u8> = Vec::new();
            if n > 0 {
                extend_bytes(&mut r, texts[0].as_slice());
            }
            r
        }
    }
}

/// The length of the longest of the first `n` lines; zero for none.
pub open spec fn max_len(c: Seq<Seq<u8>>, n: int) -> int
    decreases n,
{
    if n <= 0 {
        0
    } else {
        let m = max_len(c, n - 1);
        if c[n - 1].len() > m { c[n - 1].len() as int } else { m }
    }
}

/// Whether two byte strings are equal.
fn bytes_equal(a: &[u8], b: &[u8]) -> (r: bool)
    ensures
        r == (a@ == b@),
{
    if a.len() != b.len() {
        return false;
    }
    let mut i: usize = 0;
    while i < a.len()
        invariant
            i <= a@.len() == b@.len(),
            forall|k: int| 0 <= k < i ==> a@[k] == b@[k],
        decreases a@.len() - i,
    {
        if a[i] != b[i] {
            return false;
        }
        i = i + 1;
    }
    assert(a@ =~= b@);
    true
}


/// What [`Content::replace_text`] does to the text `c0` and the carets
/// `cs0` when it edits at caret `i0` with the lines `new`, giving `c1` and
/// `cs1`: the range is replaced, every caret end after it moves with the
/// text, and the edited caret records what was removed and counts what was
/// added.
pub open spec fn replace_text_post(c0: Seq<Seq<u8>>, cs0: Seq<Caret>, i0: int, new: Seq<LittleString>, c1: Seq<Seq<u8>>, cs1: Seq<Caret>) -> bool {
    let oc = cs0[i0];
    let p = oc.pos();
    let min = p.min_lc();
    let max = p.max_lc(false);
    let n = new.len();
    let last_len = if n == 0 { 0usize } else { new[n - 1]@.len() as usize };
    let ud = replace_ud(n as usize, min, max);
    let np = replace_np(n as usize, last_len, min, max);
    let t = flatten(selected_lines(c0, min, max));
    let fc = cs1[i0];
    let k = skipped(oc, t);
    &&& c1 == spliced(c0, min, max, text_lines(new))
    &&& cs1.len() == cs0.len()
    &&& forall|i: int| 0 <= i < cs0.len() && i != i0 ==> #[trigger] cs1[i] == shift_caret(cs0[i], max.0, max.1, ud, np)
    &&& fc.position == shift_caret(Caret { position: collapsed(p), ..oc }, max.0, max.1, ud, np).position
    &&& fc.started
    &&& fc.added_len == added_after(oc, t, new)
    &&& fc.removed_text@.len() > 0
    &&& strings_wf(fc.removed_text@)
    &&& records_forward(p) ==> flatten(ls_lines(fc.removed_text@)) == flatten(recorded_before(oc)) + t
    &&& !records_forward(p) ==> first_state(fc.removed_text@) == back_recorded(record_start(oc), t.take(t.len() - k))
    &&& !records_forward(p) && toks_ascii(t.take(t.len() - k))
        ==> flatten(ls_lines(fc.removed_text@)) == t.take(t.len() - k) + flatten(recorded_before(oc))
}

/// What a caret had recorded as removed before an edit (see
/// [`recorded_before`]), with whether its first line is held inline.
pub open spec fn record_start(c: Caret) -> (bool, Seq<Seq<u8>>) {
    if c.started && c.removed_text@.len() > 0 {
        first_state(c.removed_text@)
    } else {
        (true, seq![Seq::<u8>::empty()])
    }
}

/// What a caret had recorded as removed before an edit, with whether its
/// last line is held inline.
pub open spec fn record_end(c: Caret) -> (bool, Seq<Seq<u8>>) {
    if c.started && c.removed_text@.len() > 0 {
        last_state(c.removed_text@)
    } else {
        (true, seq![Seq::<u8>::empty()])
    }
}

/// What [`Content::replace_text`] needs of the caret `oc`, the text `c` and the
/// lines `new` (otherwise it would panic): the range lies in the text, what
/// the caret recorded so far is well formed, text recorded forward is ASCII,
/// no recording step meets a full inline line that is not valid UTF-8, and
/// the count of added bytes fits.
pub open spec fn replace_text_ok(c: Seq<Seq<u8>>, oc: Caret, new: Seq<LittleString>) -> bool {
    let p = oc.pos();
    let t = flatten(selected_lines(c, p.min_lc(), p.max_lc(false)));
    &&& replace_requires(c, p, new)
    &&& range_in(c, p.min_lc(), p.max_lc(false))
    &&& oc.started ==> strings_wf(oc.removed_text@)
    &&& records_forward(p) ==> toks_ascii(t) && fwd_fits(record_end(oc), t)
    &&& !records_forward(p) ==> back_fits(record_start(oc), t.take(t.len() - skipped(oc, t)))
    &&& added_after(oc, t, new) <= usize::MAX
}

/// Whether a little string keeps its length within its block.
pub fn ls_wf(s: &LittleString) -> (r: bool)
    ensures
        r == s.wf(),
{
    match s {
        LittleString::Little((len, _)) => (*len as usize) <= crate::little_string::N_MAX_LITTLE,
        LittleString::Big(_) => true,
    }
}

/// Whether every little string is well formed.
pub fn strings_well_formed(s: &MostlyOneVec<LittleString>) -> (r: bool)
    ensures
        r == strings_wf(s@),
{
    let n = s.len();
    let mut i: usize = 0;
    while i < n
        invariant
            i <= n == s@.len(),
            forall|k: int| 0 <= k < i ==> (#[trigger] s@[k]).wf(),
        decreases n - i,
    {
        if !ls_wf(s.index(i)) {
            return false;
        }
        i = i + 1;
    }
    true
}

/// A copy of the bytes.
fn bytes_vec(b: &[u8]) -> (r: Vec<u8>)
    ensures
        r@ == b@,
{
    let mut r: Vec<u8> = Vec::new();
    let mut i: usize = 0;
    while i < b.len()
        invariant
            i <= b@.len(),
            r@ == b@.take(i as int),
        decreases b@.len() - i,
    {
        r.push(b[i]);
        assert(r@ =~= b@.take(i + 1));
        i = i + 1;
    }
    assert(b@.take(i as int) =~= b@);
    r
}

/// Whether putting the first `m` tokens of `t` in front of recorded text
/// `r0`, whose first line is `first` (inline where `little`), one at a time
/// from the back, never panics (see [`back_fits`]).
fn fits_backward(little: bool, first: &[u8], t: &Vec<Option<u8>>, m: usize, Ghost(r0): Ghost<(bool, Seq<Seq<u8>>)>) -> (ok: bool)
    requires
        m <= t@.len(),
        r0.0 == little,
        r0.1.len() > 0,
        r0.1[0] == first@,
    ensures
        ok == back_fits(r0, t@.take(m as int)),
{
    let ghost tm = t@.take(m as int);
    let mut flag = little;
    let mut cur = bytes_vec(first);
    let mut i: usize = m;
    proof {
        assert(tm.subrange(m as int, m as int) =~= Seq::<Option<u8>>::empty());
    }
    while i > 0
        invariant
            i <= m <= t@.len(),
            tm == t@.take(m as int),
            back_recorded(r0, tm.subrange(i as int, m as int)).1.len() > 0,
            flag == back_recorded(r0, tm.subrange(i as int, m as int)).0,
            flag ==> cur@ == back_recorded(r0, tm.subrange(i as int, m as int)).1[0],
            back_fits(r0, tm.subrange(i as int, m as int)),
        decreases i,
    {
        let ghost j = i - 1;
        proof {
            assert(tm.subrange(j, m as int).drop_first() =~= tm.subrange(i as int, m as int));
            assert(tm.subrange(j, m as int)[0] == t@[j]);
        }
        match t[i - 1] {
            Some(b) => {
                if flag && cur.len() >= N_MAX_LITTLE {
                    if str_from_utf8(cur.as_slice()).is_none() {
                        proof {
                            if back_fits(r0, tm) {
                                lemma_back_fits_suffix(r0, tm, j);
                                assert(tm.subrange(j, tm.len() as int) =~= tm.subrange(j, m as int));
                            }
                        }
                        return false;
                    }
                }
                if flag && cur.len() < N_MAX_LITTLE {
                    cur.insert(0, b);
                    assert(cur@ =~= seq![b] + back_recorded(r0, tm.subrange(i as int, m as int)).1[0]);
                } else {
                    flag = false;
                }
            },
            None => {
                flag = true;
                cur = Vec::new();
            },
        }
        i = i - 1;
    }
    assert(tm.subrange(0, m as int) =~= tm);
    true
}

/// Whether appending the tokens `t` to recorded text `r0`, whose last line
/// is `last` (inline where `little`), never panics (see [`fwd_fits`]).
fn fits_forward(little: bool, last: &[u8], t: &Vec<Option<u8>>, Ghost(r0): Ghost<(bool, Seq<Seq<u8>>)>) -> (ok: bool)
    requires
        r0.0 == little,
        r0.1.len() > 0,
        r0.1.last() == last@,
    ensures
        ok == fwd_fits(r0, t@),
{
    let mut flag = little;
    let mut cur = bytes_vec(last);
    let n = t.len();
    let mut i: usize = 0;
    proof {
        assert(t@.take(0) =~= Seq::<Option<u8>>::empty());
    }
    while i < n
        invariant
            i <= n == t@.len(),
            fwd_recorded(r0, t@.take(i as int)).1.len() > 0,
            flag == fwd_recorded(r0, t@.take(i as int)).0,
            flag ==> cur@ == fwd_recorded(r0, t@.take(i as int)).1.last(),
            fwd_fits(r0, t@.take(i as int)),
        decreases n - i,
    {
        proof {
            assert(t@.take(i + 1).drop_last() =~= t@.take(i as int));
            assert(t@.take(i + 1).last() == t@[i as int]);
        }
        match t[i] {
            Some(b) => {
                if flag && cur.len() >= N_MAX_LITTLE {
                    if str_from_utf8(cur.as_slice()).is_none() {
                        proof {
                            if fwd_fits(r0, t@) {
                                lemma_fwd_fits_prefix(r0, t@, i + 1);
                            }
                        }
                        return false;
                    }
                }
                if flag && cur.len() < N_MAX_LITTLE {
                    cur.push(b);
                } else {
                    flag = false;
                }
            },
            None => {
                flag = true;
                cur = Vec::new();
            },
        }
        i = i + 1;
    }
    assert(t@.take(n as int) =~= t@);
    true
}

/// Whether every byte among the first `n` tokens is ASCII.
fn toks_ascii_upto(t: &Vec<Option<u8>>, n: usize) -> (r: bool)
    requires
        n <= t@.len(),
    ensures
        r == toks_ascii(t@.take(n as int)),
{
    let mut i: usize = 0;
    while i < n
        invariant
            i <= n <= t@.len(),
            forall|k: int| 0 <= k < i ==> (#[trigger] t@[k] matches Some(b) ==> b < 128),
        decreases n - i,
    {
        match t[i] {
            Some(b) => {
                if b >= 128 {
                    assert(t@.take(n as int)[i as int] == t@[i as int]);
                    return false;
                }
            },
            None => {},
        }
        i = i + 1;
    }
    assert forall|k: int| 0 <= k < n implies (#[trigger] t@.take(n as int)[k] matches Some(b) ==> b < 128) by {
        assert(t@.take(n as int)[k] == t@[k]);
    }
    true
}

impl Content {
    /// Whether the range of `oc` and the lines `new_text` meet what
    /// [`Content::replace_text_without_checkpoints`] needs.
    pub fn can_replace_plain(&self, oc: &Caret, new_text: &MostlyOneVec<LittleString>) -> (r: bool)
        ensures
            r == replace_requires(self@, oc.pos(), new_text@),
    {
        let p = oc.get_position();
        let min = p.get_min();
        let max = p.get_max(false);
        let total = self.lines.len();
        let n = new_text.len();
        if max.0 >= total {
            return false;
        }
        if min.0 == max.0 && n <= 1 && max.1 > self.lines[min.0].len() {
            return false;
        }
        if min.0 == max.0 && n >= 2 && min.1 > self.lines[min.0].len() {
            return false;
        }
        if min.0 < max.0 && max.1 > self.lines[max.0].len() {
            return false;
        }
        let mut i: usize = 0;
        while i < n
            invariant
                i <= n == new_text@.len(),
                forall|k: int| 0 <= k < i ==> (#[trigger] new_text@[k]).wf(),
            decreases n - i,
        {
            if !ls_wf(new_text.index(i)) {
                return false;
            }
            i = i + 1;
        }
        if n == 1 {
            let l = new_text.index(0).len();
            if l > usize::MAX - min.1 {
                return false;
            }
        }
        true
    }

    /// Whether the caret `oc` and the lines `new_text` meet what
    /// [`Content::replace_text`] needs.
    #[verifier::loop_isolation(false)]
    #[verifier::rlimit(40)]
    #[verifier::spinoff_prover]
    pub fn can_replace(&self, oc: &Caret, new_text: &MostlyOneVec<LittleString>) -> (r: bool)
        ensures
            r == replace_text_ok(self@, *oc, new_text@),
    {
        if !self.can_replace_plain(oc, new_text) {
            return false;
        }
        let p = oc.get_position();
        let min = p.get_min();
        let max = p.get_max(false);
        let total = self.lines.len();
        if min.0 == max.0 && !(min.1 <= max.1 && max.1 <= self.lines[min.0].len()) {
            return false;
        }
        if min.0 < max.0 && !(min.1 <= self.lines[min.0].len() && max.1 <= self.lines[max.0].len()) {
            return false;
        }
        assert(range_in(self@, p.min_lc(), p.max_lc(false)));
        if oc.started && !strings_well_formed(&oc.removed_text) {
            return false;
        }
        let t = self.selected_tokens(min, max);
        let mut pos = *p;
        if pos.selection.none {
            pos.selection.line = pos.cursor.line;
        }
        let forward = lc_less(pos.cursor.get_lc(), pos.selection.get_lc());
        let a0 = if oc.started { oc.added_len } else { 0 };
        let k = if a0 < t.len() { a0 } else { t.len() };
        let has = oc.started && oc.removed_text.len() > 0;
        let empty: Vec<u8> = Vec::new();
        if forward {
            if !toks_ascii_upto(&t, t.len()) {
                assert(t@.take(t@.len() as int) =~= t@);
                return false;
            }
            assert(t@.take(t@.len() as int) =~= t@);
            let fits = if has {
                let last = oc.removed_text.index(oc.removed_text.len() - 1);
                fits_forward(last.is_little(), last.as_bytes(), &t, Ghost(record_end(*oc)))
            } else {
                fits_forward(true, empty.as_slice(), &t, Ghost(record_end(*oc)))
            };
            if !fits {
                return false;
            }
        } else {
            let fits = if has {
                let first = oc.removed_text.index(0);
                fits_backward(first.is_little(), first.as_bytes(), &t, t.len() - k, Ghost(record_start(*oc)))
            } else {
                fits_backward(true, empty.as_slice(), &t, t.len() - k, Ghost(record_start(*oc)))
            };
            if !fits {
                return false;
            }
        }
        let base = if forward { a0 } else { a0 - k };
        let n = new_text.len();
        let lines = if n >= 1 { n - 1 } else { 0 };
        proof {
            lemma_total_len_nonneg(new_text@);
        }
        let mut sum = match base.checked_add(lines) {
            Some(v) => v,
            None => {
                return false;
            },
        };
        let mut i: usize = 0;
        proof {
            assert(new_text@.take(0) =~= Seq::<LittleString>::empty());
            assert(base as int + lines as int + total_len(new_text@) == added_after(*oc, t@, new_text@));
        }
        while i < n
            invariant
                i <= n == new_text@.len(),
                forall|j: int| 0 <= j < n ==> (#[trigger] new_text@[j]).wf(),
                sum == base + lines + total_len(new_text@.take(i as int)),
                base as int + lines as int + total_len(new_text@) == added_after(*oc, t@, new_text@),
            decreases n - i,
        {
            proof {
                assert(new_text@.take(i + 1).drop_last() =~= new_text@.take(i as int));
                assert(new_text@.take(i + 1).last() == new_text@[i as int]);
            }
            sum = match sum.checked_add(new_text.index(i).len()) {
                Some(v) => v,
                None => {
                    proof {
                        lemma_total_len_prefix(new_text@, i + 1);
                        assert(total_len(new_text@.take(i + 1)) == total_len(new_text@.take(i as int)) + new_text@[i as int]@.len());
                        assert(sum + new_text@[i as int]@.len() > usize::MAX);
                        assert(base + lines + total_len(new_text@) > usize::MAX);
                        assert(added_after(*oc, t@, new_text@) > usize::MAX);
                    }
                    return false;
                },
            };
            i = i + 1;
        }
        assert(new_text@.take(n as int) =~= new_text@);
        true
    }
}

} // verus!
