//! The open buffers, each under the inode of its file, and which of them is
//! shown.
use crate::buffer::{commit_rel, Buffer};
use crate::checkpoints::{Checkpoints, N_MAX_CHECKPOINTS};
use std::time::Instant;
use crate::log::{Log, LogColor};
use vstd::prelude::*;

verus! {

/// What identifies a file: its inode, or a number given to a file that
/// does not exist yet.
#[derive(Debug, Clone, Copy, PartialEq, Eq, Hash, Structural)]
pub enum Inode {
    Real(u64),
    Virtual(usize),
}

impl Inode {
    /// The next virtual inode: the counter goes up by one and names it (it
    /// would overflow past `usize::MAX`).
    pub fn virtual_generator(virtual_inode_counter: &mut usize) -> (r: Inode)
        requires
            *old(virtual_inode_counter) < usize::MAX,
        ensures
            *final(virtual_inode_counter) == *old(virtual_inode_counter) + 1,
            r == Inode::Virtual(*final(virtual_inode_counter)),
    {
        *virtual_inode_counter = *virtual_inode_counter + 1;
        Inode::Virtual(*virtual_inode_counter)
    }

    /// The inode of a file: the real one where the file has one, a new
    /// virtual one otherwise.
    pub fn real_or_virtual(found: Option<u64>, virtual_inode_counter: &mut usize) -> (r: Inode)
        requires
            found is None ==> *old(virtual_inode_counter) < usize::MAX,
        ensures
            found matches Some(n) ==> r == Inode::Real(n) && *final(virtual_inode_counter) == *old(virtual_inode_counter),
            found is None ==> *final(virtual_inode_counter) == *old(virtual_inode_counter) + 1
                && r == Inode::Virtual(*final(virtual_inode_counter)),
    {
        match found {
            Some(n) => Inode::Real(n),
            None => Inode::virtual_generator(virtual_inode_counter),
        }
    }
}

/// Whether the file of a tree entry is open, and modified.
#[derive(Debug, Clone, Copy, PartialEq, Eq, Structural)]
pub enum OnlineState {
    Nothing,
    Opened,
    Modified,
}

/// No inode occurs twice.
pub open spec fn keys_unique(e: Seq<(Inode, Buffer)>) -> bool {
    forall|i: int, j: int| 0 <= i < j < e.len() ==> (#[trigger] e[i]).0 != (#[trigger] e[j]).0
}

/// The inode `k` is among the entries.
pub open spec fn has_key(e: Seq<(Inode, Buffer)>, k: Inode) -> bool {
    exists|i: int| 0 <= i < e.len() && (#[trigger] e[i]).0 == k
}

/// Where the inode `k` is among the entries (where it is).
pub open spec fn key_index(e: Seq<(Inode, Buffer)>, k: Inode) -> int {
    choose|i: int| 0 <= i < e.len() && (#[trigger] e[i]).0 == k
}

/// The open buffers: the buffer of each inode, and the inode of the buffer
/// shown.
pub struct Buffers {
    pub inner: Vec<(Inode, Buffer)>,
    pub active_inode: Inode,
}

proof fn lemma_key_index(e: Seq<(Inode, Buffer)>, i: int)
    requires
        keys_unique(e),
        0 <= i < e.len(),
    ensures
        has_key(e, e[i].0),
        key_index(e, e[i].0) == i,
{
    assert(has_key(e, e[i].0));
    let j = key_index(e, e[i].0);
    if j != i {
        if j < i {
            assert(e[j].0 != e[i].0);
        } else {
            assert(e[i].0 != e[j].0);
        }
    }
}

impl Buffers {
    /// The inodes and their buffers, in the order they were opened.
    pub open spec fn entries(&self) -> Seq<(Inode, Buffer)> {
        self.inner@
    }

    /// Each inode occurs once, the shown one among them, and every buffer is
    /// well formed.
    pub open spec fn wf(&self) -> bool {
        &&& keys_unique(self.entries())
        &&& has_key(self.entries(), self.active_inode)
        &&& forall|i: int| 0 <= i < self.entries().len() ==> (#[trigger] self.entries()[i]).1.wf()
    }

    /// The buffer shown.
    pub open spec fn active_buffer(&self) -> Buffer {
        self.entries()[key_index(self.entries(), self.active_inode)].1
    }

    /// The buffers `inner`, of which the one of `active_inode` is shown.
    pub fn new(inner: Vec<(Inode, Buffer)>, active_inode: Inode) -> (r: Buffers)
        requires
            keys_unique(inner@),
            has_key(inner@, active_inode),
            forall|i: int| 0 <= i < inner@.len() ==> (#[trigger] inner@[i]).1.wf(),
        ensures
            r.wf(),
            r.entries() == inner@,
            r.active_inode == active_inode,
    {
        Buffers { inner, active_inode }
    }

    /// Records the edit in progress in every buffer, in order (see
    /// [`commit_rel`]); the messages of each follow those before.
    pub fn commit_all(&mut self, logs: &mut Vec<Log>)
        requires
            old(self).wf(),
        ensures
            final(self).wf(),
            final(self).active_inode == old(self).active_inode,
            final(self).entries().len() == old(self).entries().len(),
            exists|ls: Seq<Seq<Log>>| #![trigger ls.len()]
                ls.len() == old(self).entries().len() + 1 && ls[0] == old(logs)@ && ls.last() == final(logs)@
                && forall|i: int| 0 <= i < old(self).entries().len() ==> {
                    &&& (#[trigger] final(self).entries()[i]).0 == old(self).entries()[i].0
                    &&& commit_rel(old(self).entries()[i].1, ls[i], final(self).entries()[i].1, ls[i + 1])
                },
    {
        let n = self.inner.len();
        let ghost mut ls: Seq<Seq<Log>> = seq![logs@];
        let mut i: usize = 0;
        while i < n
            invariant
                i <= n == self.inner@.len() == old(self).inner@.len(),
                self.active_inode == old(self).active_inode,
                ls.len() == i + 1,
                ls[0] == old(logs)@,
                ls.last() == logs@,
                forall|k: int| 0 <= k < n ==> (#[trigger] self.inner@[k]).0 == old(self).inner@[k].0,
                forall|k: int| 0 <= k < n ==> (#[trigger] self.inner@[k]).1.wf(),
                forall|k: int| i <= k < n ==> #[trigger] self.inner@[k] == old(self).inner@[k],
                forall|k: int| 0 <= k < i ==> commit_rel(old(self).inner@[k].1, #[trigger] ls[k], self.inner@[k].1, ls[k + 1]),
            decreases n - i,
        {
            let ghost before = self.inner@;
            let ghost lb = logs@;
            let entry = &mut self.inner[i];
            entry.1.commit(logs);
            proof {
                let ls0 = ls;
                ls = ls.push(logs@);
                assert forall|k: int| 0 <= k < i + 1 implies commit_rel(old(self).inner@[k].1, #[trigger] ls[k], self.inner@[k].1, ls[k + 1]) by {
                    if k < i {
                        assert(ls[k] == ls0[k] && ls[k + 1] == ls0[k + 1]);
                        assert(self.inner@[k] == before[k]);
                    }
                }
            }
            i = i + 1;
        }
        proof {
            assert forall|a: int, b: int| 0 <= a < b < self.inner@.len() implies (#[trigger] self.inner@[a]).0 != (#[trigger] self.inner@[b]).0 by {
                assert(old(self).inner@[a].0 != old(self).inner@[b].0);
            }
            let j = choose|j: int| 0 <= j < old(self).inner@.len() && (#[trigger] old(self).inner@[j]).0 == old(self).active_inode;
            assert(self.inner@[j].0 == self.active_inode);
        }
    }

    /// Whether some buffer is modified.
    pub fn any_modified(&self) -> (r: bool)
        ensures
            r == exists|i: int| 0 <= i < self.entries().len() && (#[trigger] self.entries()[i]).1.modified,
    {
        let n = self.inner.len();
        let mut i: usize = 0;
        while i < n
            invariant
                i <= n == self.inner@.len(),
                forall|k: int| 0 <= k < i ==> !(#[trigger] self.inner@[k]).1.modified,
            decreases n - i,
        {
            if self.inner[i].1.modified {
                return true;
            }
            i = i + 1;
        }
        false
    }

    /// Where the inode `index` is among the buffers, if it is.
    fn find(&self, index: Inode) -> (r: Option<usize>)
        requires
            keys_unique(self.entries()),
        ensures
            r is Some <==> has_key(self.entries(), index),
            r matches Some(i) ==> i == key_index(self.entries(), index) && i < self.entries().len(),
    {
        let n = self.inner.len();
        let mut i: usize = 0;
        while i < n
            invariant
                i <= n == self.inner@.len(),
                keys_unique(self.inner@),
                forall|k: int| 0 <= k < i ==> (#[trigger] self.inner@[k]).0 != index,
            decreases n - i,
        {
            if self.inner[i].0 == index {
                proof {
                    lemma_key_index(self.inner@, i as int);
                }
                return Some(i);
            }
            i = i + 1;
        }
        None
    }

    /// The buffer shown.
    pub fn active(&self) -> (r: &Buffer)
        requires
            self.wf(),
        ensures
            *r == self.active_buffer(),
    {
        let i = self.find(self.active_inode).unwrap();
        &self.inner[i].1
    }

    /// The buffer shown, to change; the other buffers stay as they are.
    pub fn active_mut(&mut self) -> (r: &mut Buffer)
        requires
            old(self).wf(),
        ensures
            *r == old(self).active_buffer(),
            final(self).active_inode == old(self).active_inode,
            final(self).entries() == old(self).entries().update(key_index(old(self).entries(), old(self).active_inode),
                (old(self).active_inode, *final(r))),
    {
        let i = self.find(self.active_inode).unwrap();
        let ghost k = self.inner@[i as int].0;
        let entry = &mut self.inner[i];
        &mut entry.1
    }

    /// Whether the file of inode `index` is open, and modified.
    pub fn get_online_state(&self, index: Inode) -> (r: OnlineState)
        requires
            keys_unique(self.entries()),
        ensures
            !has_key(self.entries(), index) ==> r == OnlineState::Nothing,
            has_key(self.entries(), index) ==> r == (if self.entries()[key_index(self.entries(), index)].1.modified {
                OnlineState::Modified
            } else {
                OnlineState::Opened
            }),
    {
        match self.find(index) {
            None => OnlineState::Nothing,
            Some(i) => {
                if self.inner[i].1.modified {
                    OnlineState::Modified
                } else {
                    OnlineState::Opened
                }
            },
        }
    }

    /// Opens `buffer` under `index`, in place of the buffer there where there
    /// is one.
    pub fn insert(&mut self, index: Inode, buffer: Buffer)
        requires
            old(self).wf(),
            buffer.wf(),
        ensures
            final(self).wf(),
            final(self).active_inode == old(self).active_inode,
            has_key(old(self).entries(), index) ==> final(self).entries()
                == old(self).entries().update(key_index(old(self).entries(), index), (index, buffer)),
            !has_key(old(self).entries(), index) ==> final(self).entries() == old(self).entries().push((index, buffer)),
    {
        let ghost e = self.inner@;
        match self.find(index) {
            Some(i) => {
                self.inner.set(i, (index, buffer));
                proof {
                    assert forall|a: int, b: int| 0 <= a < b < self.inner@.len() implies (#[trigger] self.inner@[a]).0 != (#[trigger] self.inner@[b]).0 by {
                        assert(e[a].0 != e[b].0);
                    }
                    let j = choose|j: int| 0 <= j < e.len() && (#[trigger] e[j]).0 == self.active_inode;
                    assert(self.inner@[j].0 == self.active_inode);
                }
            },
            None => {
                self.inner.push((index, buffer));
                proof {
                    assert forall|a: int, b: int| 0 <= a < b < self.inner@.len() implies (#[trigger] self.inner@[a]).0 != (#[trigger] self.inner@[b]).0 by {
                        if b < e.len() {
                            assert(e[a].0 != e[b].0);
                        } else {
                            assert(self.inner@[a] == e[a]);
                        }
                    }
                    let j = choose|j: int| 0 <= j < e.len() && (#[trigger] e[j]).0 == self.active_inode;
                    assert(self.inner@[j].0 == self.active_inode);
                }
            },
        }
    }

    /// Shows the buffer of `inode`, opening it with `open` where it is not
    /// open yet; a buffer that `open` gives not well formed is not opened.
    pub fn open_file_or_focus<F: FnOnce() -> Buffer>(&mut self, inode: Inode, open: F)
        requires
            old(self).wf(),
            call_requires(open, ()),
        ensures
            final(self).wf(),
            has_key(old(self).entries(), inode) ==> final(self).entries() == old(self).entries()
                && final(self).active_inode == inode,
            !has_key(old(self).entries(), inode) ==> exists|b: Buffer| #![trigger call_ensures(open, (), b)]
                call_ensures(open, (), b) && (b.wf() ==> final(self).entries() == old(self).entries().push((inode, b))
                    && final(self).active_inode == inode) && (!b.wf() ==> final(self).entries() == old(self).entries()
                    && final(self).active_inode == old(self).active_inode),
    {
        if self.find(inode).is_some() {
            self.active_inode = inode;
            return;
        }
        let b = open();
        if b.is_wf() {
            self.insert(inode, b);
            self.active_inode = inode;
            assert(self.inner@[self.inner@.len() - 1].0 == inode);
        }
    }

    /// Closes the buffer shown, unless it is modified (which a message then
    /// says); another buffer, the first, is shown then. Some other buffer is
    /// left to show.
    pub fn remove_self(&mut self, logs: &mut Vec<Log>)
        requires
            old(self).wf(),
            old(self).entries().len() >= 2 || old(self).active_buffer().modified,
        ensures
            final(self).wf(),
            old(self).active_buffer().modified ==> final(self).entries() == old(self).entries()
                && final(self).active_inode == old(self).active_inode
                && final(logs)@ == old(logs)@.push(final(logs)@.last())
                && final(logs)@.last().message@ == "Buffer is modified, try save it first"@,
            !old(self).active_buffer().modified ==> ({
                let i = key_index(old(self).entries(), old(self).active_inode);
                &&& final(self).entries() == old(self).entries().remove(i)
                &&& final(self).active_inode == final(self).entries()[0].0
                &&& final(logs)@ == old(logs)@
            }),
    {
        let i = self.find(self.active_inode).unwrap();
        let ghost e = self.inner@;
        let entry = &mut self.inner[i];
        let quit = entry.1.try_quit(logs);
        if quit.is_ok() {
            self.inner.remove(i);
            self.active_inode = self.inner[0].0;
            proof {
                assert forall|a: int, b: int| 0 <= a < b < self.inner@.len() implies (#[trigger] self.inner@[a]).0 != (#[trigger] self.inner@[b]).0 by {
                    let a2 = if a < i { a } else { a + 1 };
                    let b2 = if b < i { b } else { b + 1 };
                    assert(self.inner@[a] == e[a2]);
                    assert(self.inner@[b] == e[b2]);
                    assert(e[a2].0 != e[b2].0);
                }
                assert(self.inner@[0].0 == self.active_inode);
            }
        } else {
            assert(self.inner@ =~= e);
        }
    }

    /// Closes the buffer shown (see [`Buffers::remove_self`]), unless it is the
    /// only one, which a message then says.
    pub fn quit_current_evt(&mut self, logs: &mut Vec<Log>)
        requires
            old(self).wf(),
        ensures
            final(self).wf(),
            old(self).entries().len() == 1 ==> final(self).entries() == old(self).entries()
                && final(self).active_inode == old(self).active_inode
                && final(logs)@ == old(logs)@.push(final(logs)@.last())
                && final(logs)@.last().color == LogColor::Todo,
            old(self).entries().len() != 1 && old(self).active_buffer().modified ==> final(self).entries() == old(self).entries()
                && final(self).active_inode == old(self).active_inode,
            old(self).entries().len() != 1 && !old(self).active_buffer().modified ==> final(self).entries()
                == old(self).entries().remove(key_index(old(self).entries(), old(self).active_inode)),
    {
        if self.inner.len() == 1 {
            logs.push(Log::new(
                "This buffer is the only opened buffer. try opening another one and close this one (todo)",
                LogColor::Todo,
            ));
            return;
        }
        self.remove_self(logs);
    }
}

impl Buffer {
    /// Whether the buffer is well formed (see [`Buffer::wf`]).
    pub fn is_wf(&self) -> (r: bool)
        ensures
            r == self.wf(),
    {
        self.tab_size > 0 && self.checkpoints.cursor_lened <= self.checkpoints.others.len()
            && self.checkpoints.others.len() < N_MAX_CHECKPOINTS
    }
}

/// `b2` and `l2` are the buffer `b0` and the messages `l0` after the timers
/// are checked with `passed`: a running timer whose deadline `passed` says
/// has come stops and records the edit in progress (see [`commit_rel`]);
/// the short timer first, then the long one.
pub open spec fn timers_rel<F: Fn(&Instant) -> bool>(b0: Buffer, l0: Seq<Log>, b2: Buffer, l2: Seq<Log>, passed: F) -> bool {
    exists|b1: Buffer, l1: Seq<Log>| #![trigger timer_step(b0, l0, b1, l1, passed, b0.checkpoints.little_timer_deadline, little_stopped(b0))]
        timer_step(b0, l0, b1, l1, passed, b0.checkpoints.little_timer_deadline, little_stopped(b0))
        && timer_step(b1, l1, b2, l2, passed, b1.checkpoints.big_timer_deadline, big_stopped(b1))
}

/// `b` with its short timer stopped.
pub open spec fn little_stopped(b: Buffer) -> Buffer {
    Buffer { checkpoints: Checkpoints { little_timer_deadline: None, ..b.checkpoints }, ..b }
}

/// `b` with its long timer stopped.
pub open spec fn big_stopped(b: Buffer) -> Buffer {
    Buffer { checkpoints: Checkpoints { big_timer_deadline: None, ..b.checkpoints }, ..b }
}

/// A timer of the buffer `b0` with the deadline `d` is checked with
/// `passed`, giving `b1` and the messages `l1`: where it runs and is due,
/// it stops (`stopped`) and the edit in progress is recorded.
pub open spec fn timer_step<F: Fn(&Instant) -> bool>(b0: Buffer, l0: Seq<Log>, b1: Buffer, l1: Seq<Log>, passed: F,
    d: Option<Instant>, stopped: Buffer) -> bool {
    match d {
        None => b1 == b0 && l1 == l0,
        Some(t) => exists|due: bool| #![trigger due_at(passed, t, due)]
            due_at(passed, t, due) && (due ==> commit_rel(stopped, l0, b1, l1)) && (!due ==> b1 == b0 && l1 == l0),
    }
}

/// `passed` may say `due` of the deadline `t`.
pub open spec fn due_at<F: Fn(&Instant) -> bool>(passed: F, t: Instant, due: bool) -> bool {
    call_ensures(passed, (&t,), due)
}

impl Buffer {
    /// Checks the timers of the buffer with `passed` (see [`timers_rel`]).
    pub fn handle_checkpoint_timers<F: Fn(&Instant) -> bool>(&mut self, passed: &F, logs: &mut Vec<Log>)
        requires
            old(self).wf(),
            forall|t: &Instant| call_requires(*passed, (t,)),
        ensures
            final(self).wf(),
            timers_rel(*old(self), old(logs)@, *final(self), final(logs)@, *passed),
    {
        let ghost b0 = *self;
        let ghost l0 = logs@;
        let little_due = match &self.checkpoints.little_timer_deadline {
            Some(t) => {
                let d = passed(t);
                assert(call_ensures(*passed, (t,), d));
                d
            },
            None => false,
        };
        if little_due {
            self.checkpoints.little_timer_deadline = None;
            self.commit(logs);
        }
        let ghost b1 = *self;
        let ghost l1 = logs@;
        proof {
            match b0.checkpoints.little_timer_deadline {
                None => {
                    assert(b1 == b0);
                    assert(l1 == l0);
                },
                Some(t) => {
                    assert(due_at(*passed, t, little_due));
                    if little_due {
                        assert(commit_rel(Buffer { checkpoints: Checkpoints { little_timer_deadline: None, ..b0.checkpoints }, ..b0 }, l0, b1, l1));
                    } else {
                        assert(b1 == b0);
                    }
                    assert(timer_step(b0, l0, b1, l1, *passed, b0.checkpoints.little_timer_deadline, little_stopped(b0)));
                },
            }
        }
        assert(timer_step(b0, l0, b1, l1, *passed, b0.checkpoints.little_timer_deadline, little_stopped(b0)));
        let big_due = match &self.checkpoints.big_timer_deadline {
            Some(t) => {
                let d = passed(t);
                assert(call_ensures(*passed, (t,), d));
                d
            },
            None => false,
        };
        if big_due {
            self.checkpoints.big_timer_deadline = None;
            self.commit(logs);
        }
        proof {
            match b1.checkpoints.big_timer_deadline {
                None => {},
                Some(t) => {
                    assert(due_at(*passed, t, big_due));
                    assert(timer_step(b1, l1, *self, logs@, *passed, b1.checkpoints.big_timer_deadline, big_stopped(b1)));
                },
            }
        }
        assert(timer_step(b1, l1, *self, logs@, *passed, b1.checkpoints.big_timer_deadline, big_stopped(b1)));
    }
}

impl Buffers {
    /// Checks the timers of every buffer with `passed`, in order (see
    /// [`timers_rel`]); the messages of each follow those before.
    pub fn handle_checkpoint_timers<F: Fn(&Instant) -> bool>(&mut self, passed: &F, logs: &mut Vec<Log>)
        requires
            old(self).wf(),
            forall|t: &Instant| call_requires(*passed, (t,)),
        ensures
            final(self).wf(),
            final(self).active_inode == old(self).active_inode,
            final(self).entries().len() == old(self).entries().len(),
            exists|ls: Seq<Seq<Log>>| #![trigger ls.len()]
                ls.len() == old(self).entries().len() + 1 && ls[0] == old(logs)@ && ls.last() == final(logs)@
                && forall|i: int| 0 <= i < old(self).entries().len() ==> {
                    &&& (#[trigger] final(self).entries()[i]).0 == old(self).entries()[i].0
                    &&& timers_rel(old(self).entries()[i].1, ls[i], final(self).entries()[i].1, ls[i + 1], *passed)
                },
    {
        let n = self.inner.len();
        let ghost mut ls: Seq<Seq<Log>> = seq![logs@];
        let mut i: usize = 0;
        while i < n
            invariant
                i <= n == self.inner@.len() == old(self).inner@.len(),
                forall|t: &Instant| call_requires(*passed, (t,)),
                self.active_inode == old(self).active_inode,
                ls.len() == i + 1,
                ls[0] == old(logs)@,
                ls.last() == logs@,
                forall|k: int| 0 <= k < n ==> (#[trigger] self.inner@[k]).0 == old(self).inner@[k].0,
                forall|k: int| 0 <= k < n ==> (#[trigger] self.inner@[k]).1.wf(),
                forall|k: int| i <= k < n ==> #[trigger] self.inner@[k] == old(self).inner@[k],
                forall|k: int| 0 <= k < i ==> timers_rel(old(self).inner@[k].1, #[trigger] ls[k], self.inner@[k].1, ls[k + 1], *passed),
            decreases n - i,
        {
            let ghost before = self.inner@;
            let entry = &mut self.inner[i];
            entry.1.handle_checkpoint_timers(passed, logs);
            proof {
                let ls0 = ls;
                ls = ls.push(logs@);
                assert forall|k: int| 0 <= k < i + 1 implies timers_rel(old(self).inner@[k].1, #[trigger] ls[k], self.inner@[k].1, ls[k + 1], *passed) by {
                    if k < i {
                        assert(ls[k] == ls0[k] && ls[k + 1] == ls0[k + 1]);
                        assert(self.inner@[k] == before[k]);
                    }
                }
            }
            i = i + 1;
        }
        proof {
            assert forall|a: int, b: int| 0 <= a < b < self.inner@.len() implies (#[trigger] self.inner@[a]).0 != (#[trigger] self.inner@[b]).0 by {
                assert(old(self).inner@[a].0 != old(self).inner@[b].0);
            }
            let j = choose|j: int| 0 <= j < old(self).inner@.len() && (#[trigger] old(self).inner@[j]).0 == old(self).active_inode;
            assert(self.inner@[j].0 == self.active_inode);
        }
    }

    /// Quitting: the edits in progress are recorded (see
    /// [`Buffers::commit_all`]); returns whether the editor may exit, which
    /// it may not while a buffer is modified, as two messages then say.
    pub fn operate_quit(&mut self, logs: &mut Vec<Log>) -> (exit: bool)
        requires
            old(self).wf(),
        ensures
            final(self).wf(),
            exists|l1: Seq<Log>| #![trigger l1.len()]
                final(logs)@.take(l1.len() as int) == l1
                && (exit <==> !exists|i: int| 0 <= i < final(self).entries().len() && (#[trigger] final(self).entries()[i]).1.modified)
                && (exit ==> final(logs)@ == l1)
                && (!exit ==> final(logs)@.len() == l1.len() + 2
                    && final(logs)@[l1.len() as int].message@ == "[E:i1] Cannot exit: modified buffer exists"@
                    && final(logs)@[l1.len() as int].color == LogColor::Error
                    && final(logs)@[l1.len() + 1 as int].message@ == "[HINT] Use ctrl+alt+q if you sure you want to exit"@
                    && final(logs)@[l1.len() + 1 as int].color == LogColor::Hint),
    {
        self.commit_all(logs);
        let ghost l1 = logs@;
        if !self.any_modified() {
            assert(logs@.take(l1.len() as int) =~= l1);
            return true;
        }
        logs.push(Log::new("[E:i1] Cannot exit: modified buffer exists", LogColor::Error));
        logs.push(Log::new("[HINT] Use ctrl+alt+q if you sure you want to exit", LogColor::Hint));
        assert(logs@.take(l1.len() as int) =~= l1);
        false
    }
}

/// A buffer opened under an inode shows as open there: after `insert`
/// (which replaces the buffer of an inode already open, and adds one
/// otherwise), the state of the inode is modified or opened as the buffer is.
pub proof fn inserted_buffer_is_open(e: Seq<(Inode, Buffer)>, k: Inode, b: Buffer)
    requires
        keys_unique(e),
    ensures
        ({
            let e2 = if has_key(e, k) { e.update(key_index(e, k), (k, b)) } else { e.push((k, b)) };
            &&& keys_unique(e2)
            &&& crate::file_tree::online_state(e2, k) == (if b.modified { OnlineState::Modified } else { OnlineState::Opened })
        }),
{
    if has_key(e, k) {
        let i = key_index(e, k);
        let e2 = e.update(i, (k, b));
        assert forall|a: int, c: int| 0 <= a < c < e2.len() implies (#[trigger] e2[a]).0 != (#[trigger] e2[c]).0 by {
            assert(e[a].0 != e[c].0);
        }
        lemma_key_index(e2, i);
    } else {
        let e2 = e.push((k, b));
        assert forall|a: int, c: int| 0 <= a < c < e2.len() implies (#[trigger] e2[a]).0 != (#[trigger] e2[c]).0 by {
            if c < e.len() {
                assert(e[a].0 != e[c].0);
            } else {
                assert(e2[a] == e[a]);
            }
        }
        lemma_key_index(e2, e.len() as int);
    }
}

} // verus!
