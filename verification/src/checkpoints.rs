//! The undo history: each checkpoint holds, per caret, where an edit
//! started, what it removed and what it added.
use crate::caret::Carets;
use crate::content::Content;
use crate::history::ls_lines;
use crate::little_string::{LittleString, N_MAX_LITTLE};
use vstd::utf8::valid_utf8;
use crate::log::{Log, LogColor};
use crate::mostly_one_vec::MostlyOneVec;
use std::time::Instant;
use vstd::prelude::*;

verus! {

#[verifier::external_type_specification]
#[verifier::external_body]
pub struct ExInstant(Instant);

/// The history keeps fewer checkpoints than this.
pub const N_MAX_CHECKPOINTS: usize = 1000;
/// How many of the oldest checkpoints go once the history is full.
pub const N_DRAIN_CHECKPOINTS: usize = 100;
/// Milliseconds after the first change of a buffer when the edit in
/// progress is recorded.
pub const DURATION_BIG_TIMER_MS: u64 = 2000;
/// Milliseconds after the last change of a buffer when the edit in progress
/// is recorded.
pub const DURATION_SMALL_TIMER_MS: u64 = 500;

/// `Instant::now`: the current reading of the monotonic clock. It depends
/// on the clock, so nothing is stated of it.
#[verifier::external_body]
fn instant_now() -> Instant {
    Instant::now()
}

/// `Instant + Duration`: the instant `ms` milliseconds, turned into a
/// `Duration`, after `t`. The sum panics where the result cannot be
/// represented, so `ms` is held to the longest timer of the history, a few
/// seconds. The result is an opaque instant that depends on `t`, a clock
/// reading, so nothing is stated of it.
#[verifier::external_body]
fn instant_after_millis(t: Instant, ms: u64) -> Instant
    requires
        ms <= DURATION_BIG_TIMER_MS,
{
    t + std::time::Duration::from_millis(ms)
}

/// The instant `ms` milliseconds from now.
pub(crate) fn deadline_in_millis(ms: u64) -> Instant
    requires
        ms <= DURATION_BIG_TIMER_MS,
{
    instant_after_millis(instant_now(), ms)
}

/// One caret's edit: at (`start_line`, `start_col`) the lines
/// `removed_data` were replaced by the lines `added_data`.
pub struct CheckpointEdit {
    pub start_line: usize,
    pub start_col: usize,
    pub removed_data: MostlyOneVec<LittleString>,
    pub added_data: MostlyOneVec<LittleString>,
}

pub struct SingleEdit {
    pub edit: CheckpointEdit,
}

/// The edits of all carets that are undone and redone together.
pub struct Checkpoint {
    pub inner: MostlyOneVec<SingleEdit>,
}

/// The history: `others[..cursor_lened]` can be undone, the rest redone.
pub struct Checkpoints {
    pub others: Vec<Checkpoint>,
    pub cursor_lened: usize,
    pub little_timer_deadline: Option<Instant>,
    pub big_timer_deadline: Option<Instant>,
}

impl Checkpoints {
    /// The position lies within the history, which stays below its limit.
    pub open spec fn wf(&self) -> bool {
        self.cursor_lened <= self.others@.len() < N_MAX_CHECKPOINTS
    }

    /// An empty history with no timer running.
    pub fn new() -> (r: Checkpoints)
        ensures
            r.wf(),
            r.others@.len() == 0,
            r.cursor_lened == 0,
            r.little_timer_deadline is None,
            r.big_timer_deadline is None,
    {
        Checkpoints { cursor_lened: 0, others: Vec::new(), big_timer_deadline: None, little_timer_deadline: None }
    }

    /// Drops what could be redone and appends `checkpoint`. Once the history
    /// reaches its limit, the oldest checkpoints go and a message says so.
    pub fn push(&mut self, checkpoint: Checkpoint, logs: &mut Vec<Log>)
        requires
            old(self).wf(),
        ensures
            final(self).wf(),
            final(self).little_timer_deadline == old(self).little_timer_deadline,
            final(self).big_timer_deadline == old(self).big_timer_deadline,
            ({
                let kept = old(self).others@.take(old(self).cursor_lened as int).push(checkpoint);
                &&& kept.len() < N_MAX_CHECKPOINTS ==> final(self).others@ == kept
                    && final(self).cursor_lened == kept.len() && final(logs)@ == old(logs)@
                &&& kept.len() >= N_MAX_CHECKPOINTS ==> final(self).others@ == kept.skip(N_DRAIN_CHECKPOINTS as int)
                    && final(self).cursor_lened == kept.len() - N_DRAIN_CHECKPOINTS
                    && final(logs)@.len() == old(logs)@.len() + 1
                    && final(logs)@.take(old(logs)@.len() as int) == old(logs)@
                    && final(logs)@.last().message@ == "Removed some old checkpoints..."@
                    && final(logs)@.last().color == LogColor::Info
            }),
    {
        self.others.truncate(self.cursor_lened);
        self.others.push(checkpoint);
        self.cursor_lened = self.cursor_lened + 1;
        if self.cursor_lened >= N_MAX_CHECKPOINTS {
            let rest = self.others.split_off(N_DRAIN_CHECKPOINTS);
            self.others = rest;
            self.cursor_lened = self.others.len();
            logs.push(Log::new("Removed some old checkpoints...", LogColor::Info));
        }
    }
}


/// The bytes of `l` from `a` to `b`, both cut at the end of `l`.
pub open spec fn clip(l: Seq<u8>, a: int, b: int) -> Seq<u8> {
    let a2 = if a < l.len() { a } else { l.len() as int };
    let b2 = if b < l.len() { b } else { l.len() as int };
    l.subrange(a2, if b2 < a2 { a2 } else { b2 })
}

/// Walking back from (`line`, `col`) over `added` bytes, a line break
/// counting as one: where the walk starts, the lines it covered (first line
/// first), and what is left of `added` if it ran off the start of the text.
pub open spec fn added_walk(c: Seq<Seq<u8>>, line: int, col: int, added: int) -> (int, int, Seq<Seq<u8>>, int)
    decreases line,
{
    if added <= col {
        (line, col - added, seq![clip(c[line], col - added, col)], 0)
    } else {
        let text = clip(c[line], 0, col);
        let rem = added - col;
        if line <= 0 {
            (line, 0, seq![text], rem)
        } else if rem == 0 {
            (line, 0, seq![text], 0)
        } else {
            let r = added_walk(c, line - 1, c[line - 1].len() as int, rem - 1);
            (r.0, r.1, r.2.push(text), r.3)
        }
    }
}

/// The walk back from a caret over what its edit added.
pub open spec fn caret_walk(c: Seq<Seq<u8>>, k: crate::caret::Caret) -> (int, int, Seq<Seq<u8>>, int) {
    added_walk(c, k.pos().cursor.line as int, k.pos().cursor.col as int, k.added_len as int)
}

/// A caret has nothing to record: nothing added and an empty first line of
/// removed text.
pub open spec fn nothing_recorded(k: crate::caret::Caret) -> bool {
    k.added_len == 0 && (k.removed_text@.len() == 0 || k.removed_text@[0]@.len() == 0)
}

/// The lines a walk covers that become `String`s are valid UTF-8.
pub open spec fn walk_utf8(lines: Seq<Seq<u8>>) -> bool {
    forall|i: int| 0 <= i < lines.len() ==> (#[trigger] lines[i]).len() >= N_MAX_LITTLE ==> valid_utf8(lines[i])
}

/// `cp` records, for each caret of `carets`, its walk over `c` and what it
/// had removed.
pub open spec fn records_carets(cp: Checkpoint, carets: Seq<crate::caret::Caret>, c: Seq<Seq<u8>>) -> bool {
    &&& cp.inner@.len() == carets.len()
    &&& forall|i: int| 0 <= i < carets.len() ==> {
        let e = (#[trigger] cp.inner@[i]).edit;
        let w = caret_walk(c, carets[i]);
        &&& e.start_line == w.0
        &&& e.start_col == w.1
        &&& e.removed_data == carets[i].removed_text
        &&& ls_lines(e.added_data@) == w.2
        &&& forall|j: int| 0 <= j < e.added_data@.len() ==> (#[trigger] e.added_data@[j]).wf()
    }
}

proof fn lemma_walk_shape(c: Seq<Seq<u8>>, line: int, col: int, added: int)
    requires
        0 <= line < c.len(),
        0 <= col,
        0 <= added,
    ensures
        ({
            let w = added_walk(c, line, col, added);
            &&& 0 <= w.0 <= line
            &&& 0 <= w.1
            &&& w.2.len() >= 1
            &&& 0 <= w.3
        }),
    decreases line,
{
    if added > col && line > 0 && added - col != 0 {
        lemma_walk_shape(c, line - 1, c[line - 1].len() as int, added - col - 1);
    }
}

/// What [`Checkpoints::commit`] needs of the carets and the text: each cursor
/// lies on a line of the text, the lines its walk covers that become `String`s
/// are valid UTF-8 (otherwise it would panic), and the first line it removed is
/// well formed.
pub open spec fn commit_ok(carets: Seq<crate::caret::Caret>, c: Seq<Seq<u8>>) -> bool {
    forall|i: int| 0 <= i < carets.len() ==> {
        &&& (#[trigger] carets[i]).pos().cursor.line < c.len()
        &&& walk_utf8(caret_walk(c, carets[i]).2)
        &&& carets[i].removed_text@.len() > 0 ==> carets[i].removed_text@[0].wf()
    }
}

/// Whether the bytes of `l` from `a` to `b`, cut at its end, may become a
/// little string.
fn clip_ok(l: &Vec<u8>, a: usize, b: usize) -> (r: bool)
    ensures
        r == (clip(l@, a as int, b as int).len() >= N_MAX_LITTLE ==> valid_utf8(clip(l@, a as int, b as int))),
{
    let n = l.len();
    let a2 = if a < n { a } else { n };
    let b2 = if b < n { b } else { n };
    let b3 = if b2 < a2 { a2 } else { b2 };
    if b3 - a2 < N_MAX_LITTLE {
        return true;
    }
    crate::text::str_from_utf8(&l.as_slice()[a2..b3]).is_some()
}

/// Whether the walk back from (`line`, `col`) over `added` bytes covers
/// only lines that may become little strings.
fn walk_ok(content: &Content, line: usize, col: usize, added: usize) -> (r: bool)
    requires
        line < content@.len(),
    ensures
        r == walk_utf8(added_walk(content@, line as int, col as int, added as int).2),
{
    let ghost w0 = added_walk(content@, line as int, col as int, added as int);
    let ghost mut acc: Seq<Seq<u8>> = Seq::empty();
    let mut ln = line;
    let mut cl = col;
    let mut ad = added;
    proof {
        lemma_walk_shape(content@, line as int, col as int, added as int);
    }
    loop
        invariant_except_break
            w0 == added_walk(content@, line as int, col as int, added as int),
            ln < content@.len(),
            w0.2 == added_walk(content@, ln as int, cl as int, ad as int).2 + acc,
            walk_utf8(acc),
        ensures
            walk_utf8(w0.2),
        decreases ln,
    {
        let ghost w = added_walk(content@, ln as int, cl as int, ad as int);
        let l = content.index(ln);
        if ad <= cl {
            let start = cl - ad;
            assert(w.2 =~= seq![clip(l@, start as int, cl as int)]);
            if !clip_ok(l, start, cl) {
                assert(w0.2[0] == w.2[0]);
                return false;
            }
            assert(walk_utf8(w0.2)) by {
                assert forall|i: int| 0 <= i < w0.2.len() && (#[trigger] w0.2[i]).len() >= N_MAX_LITTLE
                    implies valid_utf8(w0.2[i]) by {
                    if i > 0 {
                        assert(w0.2[i] == acc[i - 1]);
                    }
                }
            }
            break;
        }
        proof {
            if ln > 0 && ad - cl != 0 {
                lemma_walk_shape(content@, ln - 1, content@[ln - 1].len() as int, ad - cl - 1);
            }
        }
        let text_ok = clip_ok(l, 0, cl);
        let ghost text = clip(l@, 0, cl as int);
        assert(w.2.last() == text);
        assert(w0.2[w.2.len() - 1] == w.2.last());
        if !text_ok {
            return false;
        }
        let rem = ad - cl;
        if ln == 0 || rem == 0 {
            assert(w.2 =~= seq![text]);
            assert(walk_utf8(w0.2)) by {
                assert forall|i: int| 0 <= i < w0.2.len() && (#[trigger] w0.2[i]).len() >= N_MAX_LITTLE
                    implies valid_utf8(w0.2[i]) by {
                    if i > 0 {
                        assert(w0.2[i] == acc[i - 1]);
                    }
                }
            }
            break;
        }
        let ghost w2 = added_walk(content@, ln - 1, content@[ln - 1].len() as int, rem - 1);
        assert(w.2 == w2.2.push(text));
        proof {
            let acc2 = seq![text] + acc;
            assert(w0.2 =~= w2.2 + acc2);
            assert forall|i: int| 0 <= i < acc2.len() && (#[trigger] acc2[i]).len() >= N_MAX_LITTLE
                implies valid_utf8(acc2[i]) by {
                if i > 0 {
                    assert(acc2[i] == acc[i - 1]);
                }
            }
            acc = acc2;
        }
        ad = rem - 1;
        ln = ln - 1;
        cl = content.index(ln).len();
    }
    true
}

impl Checkpoints {
    /// Whether the carets and the text meet what [`Checkpoints::commit`]
    /// needs.
    pub fn can_commit(carets: &Carets, content: &Content) -> (r: bool)
        ensures
            r == commit_ok(carets.carets@, content@),
    {
        let n = carets.carets.len();
        let mut i: usize = 0;
        while i < n
            invariant
                i <= n == carets.carets@.len(),
                forall|k: int| 0 <= k < i ==> {
                    &&& (#[trigger] carets.carets@[k]).pos().cursor.line < content@.len()
                    &&& walk_utf8(caret_walk(content@, carets.carets@[k]).2)
                    &&& carets.carets@[k].removed_text@.len() > 0 ==> carets.carets@[k].removed_text@[0].wf()
                },
            decreases n - i,
        {
            let c = carets.carets.index(i);
            if c.position.cursor.line >= content.len() {
                return false;
            }
            if !walk_ok(content, c.position.cursor.line, c.position.cursor.col, c.added_len) {
                return false;
            }
            if !c.removed_text.is_empty() && !crate::content::ls_wf(c.removed_text.index(0)) {
                return false;
            }
            i = i + 1;
        }
        true
    }
}

/// The bytes of `l` from `a` to `b`, cut at its end, as a little string.
fn clipped(l: &Vec<u8>, a: usize, b: usize) -> (r: LittleString)
    requires
        clip(l@, a as int, b as int).len() >= N_MAX_LITTLE ==> valid_utf8(clip(l@, a as int, b as int)),
    ensures
        r.wf(),
        r@ == clip(l@, a as int, b as int),
{
    let n = l.len();
    let a2 = if a < n { a } else { n };
    let b2 = if b < n { b } else { n };
    let b3 = if b2 < a2 { a2 } else { b2 };
    LittleString::from_iter(&l.as_slice()[a2..b3])
}

/// What [`Checkpoints::commit`] makes of the history `cp0`, the carets
/// `cs0` and the messages `logs0` over the text `c`, giving `cp1`, `cs1`
/// and `logs1`.
pub open spec fn committed(cp0: Checkpoints, cs0: Seq<crate::caret::Caret>, logs0: Seq<Log>, c: Seq<Seq<u8>>,
    cp1: Checkpoints, cs1: Seq<crate::caret::Caret>, logs1: Seq<Log>) -> bool {
    &&& cp1.wf()
    &&& cp1.little_timer_deadline is None
    &&& cp1.big_timer_deadline is None
    &&& (exists|i: int| 0 <= i < cs0.len() && nothing_recorded(#[trigger] cs0[i]))
        ==> cp1.others == cp0.others && cp1.cursor_lened == cp0.cursor_lened && cs1 =~= cs0 && logs1 =~= logs0
    &&& !(exists|i: int| 0 <= i < cs0.len() && nothing_recorded(#[trigger] cs0[i])) ==> ({
        let base = cp0.others@.take(cp0.cursor_lened as int);
        let total = base.len() + 1;
        &&& records_carets(cp1.others@.last(), cs0, c)
        &&& total < N_MAX_CHECKPOINTS ==> cp1.others@.len() == total
            && cp1.others@.take(base.len() as int) =~= base
            && cp1.cursor_lened == total && logs1 =~= logs0
        &&& total >= N_MAX_CHECKPOINTS ==> cp1.others@.len() == total - N_DRAIN_CHECKPOINTS
            && cp1.others@.take(total - N_DRAIN_CHECKPOINTS - 1) =~= base.skip(N_DRAIN_CHECKPOINTS as int)
            && cp1.cursor_lened == total - N_DRAIN_CHECKPOINTS
            && logs1.len() == logs0.len() + 1
            && logs1.take(logs0.len() as int) =~= logs0
            && logs1.last().message@ == "Removed some old checkpoints..."@
        &&& cs1.len() == cs0.len()
        &&& forall|i: int| 0 <= i < cs0.len() ==> {
            let k = #[trigger] cs1[i];
            let o = cs0[i];
            &&& k.position == o.position
            &&& k.started == o.started
            &&& k.added_len == caret_walk(c, o).3
            &&& k.removed_text == MostlyOneVec::<LittleString>::Zero
        }
    })
}

impl Checkpoints {
    /// Records the edit in progress at each caret as one checkpoint: from
    /// each caret's cursor it walks back over what the caret added, taking
    /// those bytes from the text, and keeps what the caret removed; the
    /// carets' counts are then cleared. Nothing is recorded where some caret
    /// has nothing added and nothing removed on its first line. Both timers
    /// stop either way.
    pub fn commit(&mut self, carets: &mut Carets, logs: &mut Vec<Log>, content: &Content)
        requires
            old(self).wf(),
            forall|i: int| 0 <= i < old(carets).carets@.len() ==> (#[trigger] old(carets).carets@[i]).pos().cursor.line < content@.len(),
            forall|i: int| 0 <= i < old(carets).carets@.len() ==> walk_utf8(caret_walk(content@, #[trigger] old(carets).carets@[i]).2),
            forall|i: int| 0 <= i < old(carets).carets@.len() ==> (#[trigger] old(carets).carets@[i]).removed_text@.len() > 0
                ==> old(carets).carets@[i].removed_text@[0].wf(),
        ensures
            committed(*old(self), old(carets).carets@, old(logs)@, content@, *final(self), final(carets).carets@, final(logs)@),
            final(self).wf(),
            final(self).little_timer_deadline is None,
            final(self).big_timer_deadline is None,
            (exists|i: int| 0 <= i < old(carets).carets@.len() && nothing_recorded(#[trigger] old(carets).carets@[i]))
                ==> final(self).others == old(self).others && final(self).cursor_lened == old(self).cursor_lened
                && final(carets).carets == old(carets).carets && final(logs)@ == old(logs)@,
            !(exists|i: int| 0 <= i < old(carets).carets@.len() && nothing_recorded(#[trigger] old(carets).carets@[i])) ==> ({
                let base = old(self).others@.take(old(self).cursor_lened as int);
                let total = base.len() + 1;
                &&& records_carets(final(self).others@.last(), old(carets).carets@, content@)
                &&& total < N_MAX_CHECKPOINTS ==> final(self).others@.len() == total
                    && final(self).others@.take(base.len() as int) == base
                    && final(self).cursor_lened == total && final(logs)@ == old(logs)@
                &&& total >= N_MAX_CHECKPOINTS ==> final(self).others@.len() == total - N_DRAIN_CHECKPOINTS
                    && final(self).others@.take(total - N_DRAIN_CHECKPOINTS - 1) == base.skip(N_DRAIN_CHECKPOINTS as int)
                    && final(self).cursor_lened == total - N_DRAIN_CHECKPOINTS
                    && final(logs)@.len() == old(logs)@.len() + 1
                    && final(logs)@.take(old(logs)@.len() as int) == old(logs)@
                    && final(logs)@.last().message@ == "Removed some old checkpoints..."@
                &&& final(carets).carets@.len() == old(carets).carets@.len()
                &&& forall|i: int| 0 <= i < old(carets).carets@.len() ==> {
                    let k = #[trigger] final(carets).carets@[i];
                    let o = old(carets).carets@[i];
                    &&& k.position == o.position
                    &&& k.started == o.started
                    &&& k.added_len == caret_walk(content@, o).3
                    &&& k.removed_text == MostlyOneVec::<LittleString>::Zero
                }
            }),
    {
        self.little_timer_deadline = None;
        self.big_timer_deadline = None;
        let n = carets.carets.len();
        let mut i: usize = 0;
        while i < n
            invariant
                i <= n == carets.carets@.len(),
                carets.carets == old(carets).carets,
                forall|k: int| 0 <= k < i ==> !nothing_recorded(#[trigger] carets.carets@[k]),
                forall|k: int| 0 <= k < n ==> (#[trigger] carets.carets@[k]).removed_text@.len() > 0
                    ==> carets.carets@[k].removed_text@[0].wf(),
                self.wf(),
                self.others == old(self).others,
                self.cursor_lened == old(self).cursor_lened,
                self.little_timer_deadline is None,
                self.big_timer_deadline is None,
                logs@ == old(logs)@,
            decreases n - i,
        {
            let c = carets.carets.index(i);
            if c.added_len == 0 && (c.removed_text.is_empty() || c.removed_text.index(0).len() == 0) {
                assert(nothing_recorded(carets.carets@[i as int]));
                return;
            }
            i = i + 1;
        }
        let mut edits: Vec<SingleEdit> = Vec::new();
        let mut i: usize = 0;
        while i < n
            invariant
                i <= n == carets.carets@.len() == old(carets).carets@.len(),
                edits@.len() == i,
                forall|k: int| 0 <= k < n ==> (#[trigger] old(carets).carets@[k]).pos().cursor.line < content@.len(),
                forall|k: int| 0 <= k < n ==> walk_utf8(caret_walk(content@, #[trigger] old(carets).carets@[k]).2),
                forall|k: int| i <= k < n ==> #[trigger] carets.carets@[k] == old(carets).carets@[k],
                forall|k: int| 0 <= k < i ==> {
                    let e = (#[trigger] edits@[k]).edit;
                    let w = caret_walk(content@, old(carets).carets@[k]);
                    &&& e.start_line == w.0
                    &&& e.start_col == w.1
                    &&& e.removed_data == old(carets).carets@[k].removed_text
                    &&& ls_lines(e.added_data@) == w.2
                    &&& forall|j: int| 0 <= j < e.added_data@.len() ==> (#[trigger] e.added_data@[j]).wf()
                },
                forall|k: int| 0 <= k < i ==> {
                    let c = #[trigger] carets.carets@[k];
                    let o = old(carets).carets@[k];
                    &&& c.position == o.position
                    &&& c.started == o.started
                    &&& c.added_len == caret_walk(content@, o).3
                    &&& c.removed_text == MostlyOneVec::<LittleString>::Zero
                },
            decreases n - i,
        {
            let caret = carets.carets.index_mut(i);
            let ghost o = *caret;
            let ghost w0 = caret_walk(content@, o);
            let mut line = caret.position.cursor.line;
            let mut col = caret.position.cursor.col;
            let mut added = caret.added_len;
            let mut result: MostlyOneVec<LittleString> = MostlyOneVec::Zero;
            proof {
                lemma_walk_shape(content@, line as int, col as int, added as int);
            }
            loop
                invariant_except_break
                    line < content@.len(),
                    ({
                        let w = added_walk(content@, line as int, col as int, added as int);
                        &&& w0.0 == w.0 && w0.1 == w.1 && w0.3 == w.3
                        &&& w0.2 == w.2 + ls_lines(result@)
                    }),
                    walk_utf8(w0.2),
                    forall|j: int| 0 <= j < result@.len() ==> (#[trigger] result@[j]).wf(),
                ensures
                    w0.0 == line && w0.1 == col && w0.3 == added,
                    w0.2 == ls_lines(result@),
                    forall|j: int| 0 <= j < result@.len() ==> (#[trigger] result@[j]).wf(),
                decreases line,
            {
                let ghost w = added_walk(content@, line as int, col as int, added as int);
                let available = col;
                let l = content.index(line);
                if added <= available {
                    let start = available - added;
                    proof {
                        assert(w.2 =~= seq![clip(l@, start as int, col as int)]);
                        assert(w0.2[0] == w.2[0]);
                    }
                    let text = clipped(l, start, col);
                    let ghost before = result@;
                    result.insert(0, text);
                    proof {
                        assert(ls_lines(result@) =~= seq![text@] + ls_lines(before));
                        assert(w0.2 =~= ls_lines(result@));
                    }
                    col = start;
                    added = 0;
                    break;
                }
                proof {
                    if line > 0 && added - col != 0 {
                        lemma_walk_shape(content@, line - 1, content@[line - 1].len() as int, added - col - 1);
                    }
                    assert(w.2.last() == clip(l@, 0, col as int));
                    assert(w0.2[w.2.len() - 1] == w.2.last());
                }
                let text = clipped(l, 0, available);
                let ghost before = result@;
                result.insert(0, text);
                added = added - available;
                proof {
                    assert(ls_lines(result@) =~= seq![text@] + ls_lines(before));
                }
                if line == 0 {
                    col = 0;
                    proof {
                        assert(w0.2 =~= ls_lines(result@));
                    }
                    break;
                }
                if added == 0 {
                    col = 0;
                    proof {
                        assert(w0.2 =~= ls_lines(result@));
                    }
                    break;
                }
                added = added - 1;
                line = line - 1;
                col = content.index(line).len();
                proof {
                    let w2 = added_walk(content@, line as int, col as int, added as int);
                    assert(w.2 == w2.2.push(text@));
                    assert(w0.2 =~= w2.2 + ls_lines(result@));
                }
            }
            caret.added_len = added;
            let mut removed = MostlyOneVec::Zero;
            std::mem::swap(&mut removed, &mut caret.removed_text);
            edits.push(SingleEdit {
                edit: CheckpointEdit { start_line: line, start_col: col, removed_data: removed, added_data: result },
            });
            i = i + 1;
        }
        let cp = Checkpoint { inner: MostlyOneVec::from_iter(edits) };
        assert(records_carets(cp, old(carets).carets@, content@));
        self.push(cp, logs);
    }
}

} // verus!
