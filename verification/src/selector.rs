//! The readability selector's decision core.
//!
//! A sibling of the process reaper for pipe file descriptors: a single
//! background thread blocks in a one-call-watches-all readiness wait over
//! every descriptor an awaiter registered, plus an internal pipe whose sole
//! purpose is to break the wait when the watch set must grow. Registered
//! descriptors sit in the inbox with their wakers; descriptors seen readable
//! move to the outbox, where the next poll picks them up. As with the reaper,
//! every mutation of the shared state is a function here; the shell performs
//! the blocking waits and invokes the returned wakers outside the lock.

use vstd::prelude::*;
use crate::assoc::{keys_distinct, lemma_pairs_map_contains, lemma_pairs_map_index,
    lemma_pairs_map_push, lemma_pairs_map_remove, lemma_pairs_map_update, pairs_map};

verus! {

/// What a poll of a readability-wait decides.
#[derive(Debug, Clone, Copy, PartialEq, Eq, Structural)]
pub enum SelectorPoll {
    /// The descriptor had already been seen readable: the computation
    /// completes, and the buffered readiness is consumed.
    Ready,
    /// Not ready; the waker is now registered.
    Pending {
        /// No selector thread is running: the caller must start one.
        start_thread: bool,
        /// A thread is blocked in the readiness wait: the caller must write
        /// one byte to the internal pipe so the wait returns and the thread
        /// re-reads the watch set.
        reselect: bool,
    },
}

/// The selector's shared state, as contracts see it.
#[verifier::ext_equal]
pub ghost struct SelectorView<W> {
    /// Descriptors whose awaiters wait for readability, with their wakers.
    pub inbox: Map<i32, W>,
    /// Descriptors seen readable and not yet picked up by a poll.
    pub outbox: Set<i32>,
    /// True iff a selector thread exists and has not yet declared its exit.
    pub thread_active: bool,
}

/// One poll of the readability-wait for `fd`: buffered readiness completes
/// and is consumed; otherwise the waker is stored (replacing any previous one
/// for the same descriptor) and the thread is started, or nudged through the
/// internal pipe to take the new descriptor into its watch set.
pub open spec fn spec_selector_poll<W>(v: SelectorView<W>, fd: i32, waker: W) -> (
    SelectorView<W>,
    SelectorPoll,
) {
    if v.outbox.contains(fd) {
        (
            SelectorView {
                inbox: v.inbox,
                outbox: v.outbox.remove(fd),
                thread_active: v.thread_active,
            },
            SelectorPoll::Ready,
        )
    } else {
        (
            SelectorView { inbox: v.inbox.insert(fd, waker), outbox: v.outbox, thread_active: true },
            SelectorPoll::Pending { start_thread: !v.thread_active, reselect: v.thread_active },
        )
    }
}

/// The selector thread saw `fd` readable: the registration moves from inbox
/// to outbox and the waker is handed back, to be invoked after the lock is
/// released. Readiness of a descriptor nobody awaits any more (the watch set
/// was snapshotted before the wait) is tolerated and changes nothing.
pub open spec fn spec_handle_readable<W>(v: SelectorView<W>, fd: i32) -> (
    SelectorView<W>,
    Option<W>,
) {
    if v.inbox.dom().contains(fd) {
        (
            SelectorView {
                inbox: v.inbox.remove(fd),
                outbox: v.outbox.insert(fd),
                thread_active: v.thread_active,
            },
            Some(v.inbox[fd]),
        )
    } else {
        (v, None)
    }
}

/// The selector thread's last step each round: with an empty inbox there is
/// nothing left to watch, so it declares its exit before releasing the lock.
pub open spec fn spec_done_check<W>(v: SelectorView<W>) -> (SelectorView<W>, bool) {
    if v.inbox == Map::<i32, W>::empty() {
        (
            SelectorView { inbox: v.inbox, outbox: v.outbox, thread_active: false },
            true,
        )
    } else {
        (v, false)
    }
}

/// The selector's shared state. The shell keeps one per process behind a
/// mutex, next to the two ends of the internal pipe; no method blocks.
pub struct SelectorState<W> {
    inbox: Vec<(i32, W)>,
    outbox: Vec<i32>,
    thread_active: bool,
}

impl<W> View for SelectorState<W> {
    type V = SelectorView<W>;

    closed spec fn view(&self) -> SelectorView<W> {
        SelectorView {
            inbox: pairs_map(self.inbox@),
            outbox: self.outbox@.to_set(),
            thread_active: self.thread_active,
        }
    }
}

impl<W> SelectorState<W> {
    /// The inbox as a sequence of (descriptor, waker) pairs, in registration
    /// order — the order the watch set presents them in.
    pub closed spec fn inbox_pairs(&self) -> Seq<(i32, W)> {
        self.inbox@
    }

    /// Descriptors unique in the inbox and in the outbox.
    pub closed spec fn wf(&self) -> bool {
        &&& keys_distinct(self.inbox@)
        &&& forall|i: int, j: int|
            0 <= i < j < self.outbox@.len() ==> self.outbox@[i] != self.outbox@[j]
    }

    /// A fresh selector: nothing watched, nothing ready, no thread.
    pub fn new() -> (r: SelectorState<W>)
        ensures
            r.wf(),
            r@.inbox == Map::<i32, W>::empty(),
            r@.outbox == Set::<i32>::empty(),
            !r@.thread_active,
    {
        let r = SelectorState { inbox: Vec::new(), outbox: Vec::new(), thread_active: false };
        proof {
            assert(r@.outbox =~= Set::<i32>::empty());
        }
        r
    }

    /// The index of `fd`'s inbox pair, if any.
    fn find_inbox(&self, fd: i32) -> (r: Option<usize>)
        requires
            self.wf(),
        ensures
            match r {
                Some(i) => i < self.inbox@.len() && self.inbox@[i as int].0 == fd
                    && self@.inbox.dom().contains(fd) && self@.inbox[fd]
                    == self.inbox@[i as int].1,
                None => !self@.inbox.dom().contains(fd),
            },
    {
        let n = self.inbox.len();
        let mut i: usize = 0;
        while i < n
            invariant
                n == self.inbox@.len(),
                i <= n,
                self.wf(),
                forall|j: int| 0 <= j < i ==> self.inbox@[j].0 != fd,
            decreases n - i,
        {
            if self.inbox[i].0 == fd {
                proof {
                    lemma_pairs_map_index(self.inbox@, i as int);
                }
                return Some(i);
            }
            i = i + 1;
        }
        proof {
            lemma_pairs_map_contains(self.inbox@, fd);
        }
        None
    }

    /// The index of `fd` in the outbox, if any.
    fn find_outbox(&self, fd: i32) -> (r: Option<usize>)
        ensures
            match r {
                Some(i) => i < self.outbox@.len() && self.outbox@[i as int] == fd
                    && self@.outbox.contains(fd),
                None => !self@.outbox.contains(fd),
            },
    {
        let n = self.outbox.len();
        let mut i: usize = 0;
        while i < n
            invariant
                n == self.outbox@.len(),
                i <= n,
                forall|j: int| 0 <= j < i ==> self.outbox@[j] != fd,
            decreases n - i,
        {
            if self.outbox[i] == fd {
                return Some(i);
            }
            i = i + 1;
        }
        None
    }

    /// One poll of the readability-wait for `fd`; see [`spec_selector_poll`].
    /// Never blocks. The caller starts the selector thread when
    /// `start_thread` comes back true, and writes the nudge byte when
    /// `reselect` does — both after releasing the lock.
    pub fn poll_readable(&mut self, fd: i32, waker: W) -> (r: SelectorPoll)
        requires
            old(self).wf(),
        ensures
            final(self).wf(),
            final(self)@ == spec_selector_poll(old(self)@, fd, waker).0,
            r == spec_selector_poll(old(self)@, fd, waker).1,
    {
        let ghost out0 = self.outbox@;
        match self.find_outbox(fd) {
            Some(i) => {
                self.outbox.remove(i);
                proof {
                    assert forall|p: int, q: int| 0 <= p < q < self.outbox@.len() implies self
                        .outbox@[p] != self.outbox@[q] by {
                        let sp: int = if p < i { p } else { p + 1 };
                        let sq: int = if q < i { q } else { q + 1 };
                        assert(self.outbox@[p] == out0[sp]);
                        assert(self.outbox@[q] == out0[sq]);
                    }
                    assert(self@.outbox =~= old(self)@.outbox.remove(fd)) by {
                        assert forall|y: i32| self@.outbox.contains(y) <==> old(
                            self,
                        )@.outbox.remove(fd).contains(y) by {
                            if self.outbox@.contains(y) {
                                let j = choose|j: int|
                                    0 <= j < self.outbox@.len() && (#[trigger] self.outbox@[j])
                                        == y;
                                let sj: int = if j < i {
                                    j
                                } else {
                                    j + 1
                                };
                                assert(out0[sj] == y);
                                assert(out0.contains(y));
                                assert(y != fd);
                            }
                            if out0.contains(y) && y != fd {
                                let j = choose|j: int|
                                    0 <= j < out0.len() && (#[trigger] out0[j]) == y;
                                if j < i {
                                    assert(self.outbox@[j] == y);
                                    assert(self.outbox@.contains(y));
                                } else {
                                    assert(out0[i as int] == fd);
                                    assert(j != i);
                                    assert(self.outbox@[j - 1] == y);
                                    assert(self.outbox@.contains(y));
                                }
                            }
                        }
                    }
                    assert(self@ =~= spec_selector_poll(old(self)@, fd, waker).0);
                }
                SelectorPoll::Ready
            },
            None => {
                let ghost s0 = self.inbox@;
                let reselect = self.thread_active;
                match self.find_inbox(fd) {
                    Some(i) => {
                        self.inbox[i] = (fd, waker);
                        proof {
                            lemma_pairs_map_update(s0, i as int, self.inbox@[i as int].1);
                        }
                    },
                    None => {
                        proof {
                            lemma_pairs_map_contains(s0, fd);
                            lemma_pairs_map_push(s0, (fd, waker));
                        }
                        self.inbox.push((fd, waker));
                    },
                }
                self.thread_active = true;
                proof {
                    assert(self@ =~= spec_selector_poll(old(self)@, fd, waker).0);
                }
                SelectorPoll::Pending { start_thread: !reselect, reselect }
            },
        }
    }

    /// Record that the readiness wait saw `fd` readable; see
    /// [`spec_handle_readable`]. The returned waker is invoked by the
    /// selector thread after it releases the lock.
    pub fn handle_readable(&mut self, fd: i32) -> (w: Option<W>)
        requires
            old(self).wf(),
        ensures
            final(self).wf(),
            final(self)@ == spec_handle_readable(old(self)@, fd).0,
            w == spec_handle_readable(old(self)@, fd).1,
    {
        let ghost s0 = self.inbox@;
        let ghost out0 = self.outbox@;
        match self.find_inbox(fd) {
            Some(i) => {
                let pair = self.inbox.remove(i);
                proof {
                    lemma_pairs_map_remove(s0, i as int);
                }
                let already_out = match self.find_outbox(fd) {
                    Some(_) => true,
                    None => false,
                };
                if !already_out {
                    self.outbox.push(fd);
                    proof {
                        assert forall|p: int, q: int| 0 <= p < q < self.outbox@.len() implies self
                            .outbox@[p] != self.outbox@[q] by {
                            if q == self.outbox@.len() - 1 {
                                assert(self.outbox@[p] == out0[p]);
                                if out0[p] == fd {
                                    assert(out0.contains(fd));
                                }
                            } else {
                                assert(self.outbox@[p] == out0[p]);
                                assert(self.outbox@[q] == out0[q]);
                            }
                        }
                        assert(self@.outbox =~= old(self)@.outbox.insert(fd)) by {
                            assert forall|y: i32| self@.outbox.contains(y) <==> old(
                                self,
                            )@.outbox.insert(fd).contains(y) by {
                                if self.outbox@.contains(y) {
                                    let j = choose|j: int|
                                        0 <= j < self.outbox@.len() && (#[trigger] self.outbox@[j])
                                            == y;
                                    if j < out0.len() {
                                        assert(out0[j] == y);
                                        assert(out0.contains(y));
                                    }
                                }
                                if out0.contains(y) {
                                    let j = choose|j: int|
                                        0 <= j < out0.len() && (#[trigger] out0[j]) == y;
                                    assert(self.outbox@[j] == y);
                                    assert(self.outbox@.contains(y));
                                }
                                if y == fd {
                                    assert(self.outbox@[self.outbox@.len() - 1] == y);
                                    assert(self.outbox@.contains(y));
                                }
                            }
                        }
                    }
                } else {
                    proof {
                        assert(self@.outbox =~= old(self)@.outbox.insert(fd));
                    }
                }
                proof {
                    assert(self@ =~= spec_handle_readable(old(self)@, fd).0);
                }
                Some(pair.1)
            },
            None => None,
        }
    }

    /// The selector thread's end-of-round check; see [`spec_done_check`].
    /// True means the thread declared its exit and must stop.
    pub fn done_check(&mut self) -> (done: bool)
        requires
            old(self).wf(),
        ensures
            final(self).wf(),
            final(self)@ == spec_done_check(old(self)@).0,
            done == spec_done_check(old(self)@).1,
    {
        if self.inbox.len() == 0 {
            proof {
                assert(self.inbox@ =~= Seq::<(i32, W)>::empty());
                assert(self@.inbox =~= Map::<i32, W>::empty());
            }
            self.thread_active = false;
            proof {
                assert(self@ =~= spec_done_check(old(self)@).0);
            }
            true
        } else {
            proof {
                lemma_pairs_map_index(self.inbox@, 0);
            }
            false
        }
    }

    /// The descriptors to watch this round, in registration order. The shell
    /// puts its internal pipe's read end in front of these before blocking.
    pub fn watch_fds(&self) -> (r: Vec<i32>)
        requires
            self.wf(),
        ensures
            r@.len() == self.inbox_pairs().len(),
            forall|j: int| 0 <= j < r@.len() ==> r@[j] == self.inbox_pairs()[j].0,
            forall|k: i32| #[trigger] r@.contains(k) <==> self@.inbox.dom().contains(k),
    {
        let n = self.inbox.len();
        let mut r: Vec<i32> = Vec::new();
        let mut i: usize = 0;
        while i < n
            invariant
                n == self.inbox@.len(),
                i <= n,
                r@.len() == i,
                forall|j: int| 0 <= j < i ==> r@[j] == self.inbox@[j].0,
            decreases n - i,
        {
            r.push(self.inbox[i].0);
            i = i + 1;
        }
        proof {
            assert forall|k: i32| #[trigger] r@.contains(k) <==> self@.inbox.dom().contains(
                k,
            ) by {
                lemma_pairs_map_contains(self.inbox@, k);
                if r@.contains(k) {
                    let j = choose|j: int| 0 <= j < r@.len() && (#[trigger] r@[j]) == k;
                    assert(self.inbox@[j].0 == k);
                }
                if exists|j: int| 0 <= j < self.inbox@.len() && (#[trigger] self.inbox@[j]).0
                    == k {
                    let j = choose|j: int|
                        0 <= j < self.inbox@.len() && (#[trigger] self.inbox@[j]).0 == k;
                    assert(r@[j] == k);
                    assert(r@.contains(k));
                }
            }
        }
        r
    }

    /// Whether a selector thread is currently running.
    pub fn thread_active(&self) -> (r: bool)
        ensures
            r == self@.thread_active,
    {
        self.thread_active
    }
}

} // verus!
