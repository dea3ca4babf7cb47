//! The process reaper's decision core.
//!
//! One process-wide record maps each awaited child to its state: `Pending`
//! with the awaiter's waker, or `Ready` with the buffered exit code. A single
//! background worker thread multiplexes every pending wait onto one blocking
//! OS primitive. All mutations of the shared record happen under one lock,
//! and every one of them is a function of this module; the shell around the
//! library holds the lock, performs the blocking waits, and invokes the
//! wakers these functions hand back — always after releasing the lock.
//!
//! The waker type `W` is opaque to the reaper: it stores exactly one waker
//! per child and hands it back on termination.

use vstd::prelude::*;
use crate::assoc::{keys_distinct, lemma_pairs_map_contains, lemma_pairs_map_index,
    lemma_pairs_map_push, lemma_pairs_map_remove, lemma_pairs_map_update, pairs_map};

verus! {

/// Maximum count of the wake-up semaphore on Windows: enough to absorb
/// registration bursts while the worker is inside a blocking wait.
pub const SEMAPHORE_MAX: u32 = 512;

/// The state of one awaited child.
pub enum AwaitState<W> {
    /// An awaiter is registered and has not yet observed termination.
    Pending(W),
    /// Termination was observed; the exit code is buffered for the next poll.
    Ready(u32),
}

/// What a poll of an exit-wait decides.
#[derive(Debug, Clone, Copy, PartialEq, Eq, Structural)]
pub enum PollResult {
    /// Termination had been observed: the computation completes with this
    /// exit code.
    Ready(u32),
    /// Not ready; the awaiter is now registered.
    Pending {
        /// No worker thread is running: the caller must start one.
        start_worker: bool,
        /// The caller must post one unit on the wake-up channel so a worker
        /// blocked in a multi-object wait re-reads the pending set.
        post_wakeup: bool,
    },
}

/// The reaper's shared state, as contracts see it.
#[verifier::ext_equal]
pub ghost struct ReaperView<W> {
    /// Child id to await-state; at most one entry per child.
    pub entries: Map<u32, AwaitState<W>>,
    /// True iff a worker thread exists and has not yet declared its exit.
    pub worker_running: bool,
    /// Units on the wake-up channel not yet consumed by the worker
    /// (meaningful on Windows; the one-waits-for-all wait needs no channel).
    pub wakeups_pending: u32,
}

/// Whether any entry still has a registered awaiter.
pub open spec fn has_pending_entry<W>(m: Map<u32, AwaitState<W>>) -> bool {
    exists|k: u32| m.dom().contains(k) && m[k] is Pending
}

/// One poll of the exit-wait for `pid`: a buffered `Ready` completes and is
/// removed; otherwise the waker is stored (replacing any previous one for the
/// same child), the worker is marked running, and a wake-up is posted for a
/// newly seen child. A saturated wake-up channel already guarantees a
/// re-scan, so nothing more is posted on it.
pub open spec fn spec_poll<W>(v: ReaperView<W>, pid: u32, waker: W) -> (ReaperView<W>, PollResult) {
    if v.entries.dom().contains(pid) && v.entries[pid] is Ready {
        (
            ReaperView {
                entries: v.entries.remove(pid),
                worker_running: v.worker_running,
                wakeups_pending: v.wakeups_pending,
            },
            PollResult::Ready(v.entries[pid]->Ready_0),
        )
    } else {
        let fresh = !v.entries.dom().contains(pid);
        let post = fresh && v.wakeups_pending < SEMAPHORE_MAX;
        (
            ReaperView {
                entries: v.entries.insert(pid, AwaitState::Pending(waker)),
                worker_running: true,
                wakeups_pending: if post {
                    (v.wakeups_pending + 1) as u32
                } else {
                    v.wakeups_pending
                },
            },
            PollResult::Pending { start_worker: !v.worker_running, post_wakeup: post },
        )
    }
}

/// The worker observed that child `pid` exited with `code`: its `Pending`
/// entry becomes `Ready` and the stored waker is handed back, to be invoked
/// after the lock is released. A termination with no `Pending` entry is an
/// orphan (its awaiter was cancelled, or some other party spawned the child)
/// and is discarded silently.
pub open spec fn spec_observe_exit<W>(v: ReaperView<W>, pid: u32, code: u32) -> (
    ReaperView<W>,
    Option<W>,
) {
    if v.entries.dom().contains(pid) && v.entries[pid] is Pending {
        (
            ReaperView {
                entries: v.entries.insert(pid, AwaitState::Ready(code)),
                worker_running: v.worker_running,
                wakeups_pending: v.wakeups_pending,
            },
            Some(v.entries[pid]->Pending_0),
        )
    } else {
        (v, None)
    }
}

/// The first step of the worker's loop body on a one-waits-for-all host:
/// with no entries left there is nothing to wait for, so the worker declares
/// its exit before releasing the lock.
pub open spec fn spec_idle_check<W>(v: ReaperView<W>) -> (ReaperView<W>, bool) {
    if v.entries == Map::<u32, AwaitState<W>>::empty() {
        (
            ReaperView {
                entries: v.entries,
                worker_running: false,
                wakeups_pending: v.wakeups_pending,
            },
            true,
        )
    } else {
        (v, false)
    }
}

/// A failed OS wait shuts the worker down; outstanding entries remain and a
/// later registration starts a fresh worker.
pub open spec fn spec_wait_failed<W>(v: ReaperView<W>) -> ReaperView<W> {
    ReaperView { entries: v.entries, worker_running: false, wakeups_pending: v.wakeups_pending }
}

/// The shutdown decision after a completion on a multi-object-wait host: the
/// worker exits iff it holds no more process handles and no entry is still
/// `Pending`.
pub open spec fn spec_win_shutdown_check<W>(v: ReaperView<W>, handles_empty: bool) -> (
    ReaperView<W>,
    bool,
) {
    if handles_empty && !has_pending_entry(v.entries) {
        (
            ReaperView {
                entries: v.entries,
                worker_running: false,
                wakeups_pending: v.wakeups_pending,
            },
            true,
        )
    } else {
        (v, false)
    }
}

/// The worker woke from the wake-up channel and consumes one unit of it.
pub open spec fn spec_consume_wakeup<W>(v: ReaperView<W>) -> ReaperView<W> {
    ReaperView {
        entries: v.entries,
        worker_running: v.worker_running,
        wakeups_pending: if v.wakeups_pending > 0 {
            (v.wakeups_pending - 1) as u32
        } else {
            0
        },
    }
}

/// The reaper's shared state. The shell keeps exactly one of these per
/// process, behind a mutex; no method blocks.
pub struct ReaperState<W> {
    entries: Vec<(u32, AwaitState<W>)>,
    worker_running: bool,
    wakeups_pending: u32,
}

impl<W> View for ReaperState<W> {
    type V = ReaperView<W>;

    closed spec fn view(&self) -> ReaperView<W> {
        ReaperView {
            entries: pairs_map(self.entries@),
            worker_running: self.worker_running,
            wakeups_pending: self.wakeups_pending,
        }
    }
}

impl<W> ReaperState<W> {
    /// Each child has at most one entry.
    pub closed spec fn wf(&self) -> bool {
        keys_distinct(self.entries@)
    }

    /// A fresh reaper: no entries, no worker, nothing on the wake-up channel.
    pub fn new() -> (r: ReaperState<W>)
        ensures
            r.wf(),
            r@.entries == Map::<u32, AwaitState<W>>::empty(),
            !r@.worker_running,
            r@.wakeups_pending == 0,
    {
        ReaperState { entries: Vec::new(), worker_running: false, wakeups_pending: 0 }
    }

    /// The index of `pid`'s entry, if any.
    fn find_entry(&self, pid: u32) -> (r: Option<usize>)
        requires
            self.wf(),
        ensures
            match r {
                Some(i) => i < self.entries@.len() && self.entries@[i as int].0 == pid
                    && self@.entries.dom().contains(pid) && self@.entries[pid]
                    == self.entries@[i as int].1,
                None => !self@.entries.dom().contains(pid),
            },
    {
        let n = self.entries.len();
        let mut i: usize = 0;
        while i < n
            invariant
                n == self.entries@.len(),
                i <= n,
                self.wf(),
                forall|j: int| 0 <= j < i ==> self.entries@[j].0 != pid,
            decreases n - i,
        {
            if self.entries[i].0 == pid {
                proof {
                    lemma_pairs_map_index(self.entries@, i as int);
                }
                return Some(i);
            }
            i = i + 1;
        }
        proof {
            lemma_pairs_map_contains(self.entries@, pid);
        }
        None
    }

    /// One poll of the exit-wait for `pid`; see [`spec_poll`]. Never blocks.
    /// The caller starts a worker thread when `start_worker` comes back true,
    /// and posts one unit on the wake-up channel when `post_wakeup` does —
    /// both after releasing the lock around this state.
    pub fn poll_entry(&mut self, pid: u32, waker: W) -> (r: PollResult)
        requires
            old(self).wf(),
        ensures
            final(self).wf(),
            final(self)@ == spec_poll(old(self)@, pid, waker).0,
            r == spec_poll(old(self)@, pid, waker).1,
    {
        let ghost s0 = self.entries@;
        match self.find_entry(pid) {
            Some(i) => {
                let ready_code: Option<u32> = match &self.entries[i].1 {
                    AwaitState::Ready(c) => Some(*c),
                    AwaitState::Pending(_) => None,
                };
                match ready_code {
                    Some(code) => {
                        self.entries.remove(i);
                        proof {
                            lemma_pairs_map_remove(s0, i as int);
                            assert(self@ =~= spec_poll(old(self)@, pid, waker).0);
                        }
                        PollResult::Ready(code)
                    },
                    None => {
                        self.entries[i] = (pid, AwaitState::Pending(waker));
                        let start = !self.worker_running;
                        self.worker_running = true;
                        proof {
                            lemma_pairs_map_update(s0, i as int, self.entries@[i as int].1);
                            assert(self@ =~= spec_poll(old(self)@, pid, waker).0);
                        }
                        PollResult::Pending { start_worker: start, post_wakeup: false }
                    },
                }
            },
            None => {
                proof {
                    lemma_pairs_map_contains(s0, pid);
                    lemma_pairs_map_push(s0, (pid, AwaitState::Pending(waker)));
                }
                self.entries.push((pid, AwaitState::Pending(waker)));
                let start = !self.worker_running;
                self.worker_running = true;
                let post = self.wakeups_pending < SEMAPHORE_MAX;
                if post {
                    self.wakeups_pending = self.wakeups_pending + 1;
                }
                proof {
                    assert(self@ =~= spec_poll(old(self)@, pid, waker).0);
                }
                PollResult::Pending { start_worker: start, post_wakeup: post }
            },
        }
    }

    /// Record a termination the OS reported; see [`spec_observe_exit`]. The
    /// returned waker is invoked by the worker after it releases the lock.
    pub fn worker_observe_exit(&mut self, pid: u32, code: u32) -> (w: Option<W>)
        requires
            old(self).wf(),
        ensures
            final(self).wf(),
            final(self)@ == spec_observe_exit(old(self)@, pid, code).0,
            w == spec_observe_exit(old(self)@, pid, code).1,
    {
        let ghost s0 = self.entries@;
        match self.find_entry(pid) {
            Some(i) => {
                let pair = self.entries.remove(i);
                match pair.1 {
                    AwaitState::Pending(waker) => {
                        self.entries.insert(i, (pid, AwaitState::Ready(code)));
                        proof {
                            assert(self.entries@ =~= s0.update(
                                i as int,
                                (pid, AwaitState::Ready(code)),
                            ));
                            lemma_pairs_map_update(s0, i as int, AwaitState::Ready(code));
                            assert(self@ =~= spec_observe_exit(old(self)@, pid, code).0);
                        }
                        Some(waker)
                    },
                    AwaitState::Ready(c) => {
                        self.entries.insert(i, (pid, AwaitState::Ready(c)));
                        proof {
                            assert(self.entries@ =~= s0.update(i as int, (pid, AwaitState::Ready(c))));
                            lemma_pairs_map_update(s0, i as int, AwaitState::Ready(c));
                            assert(s0.update(i as int, (pid, AwaitState::Ready(c))) =~= s0);
                            assert(self@ =~= spec_observe_exit(old(self)@, pid, code).0);
                        }
                        None
                    },
                }
            },
            None => None,
        }
    }

    /// The one-waits-for-all worker's first step each iteration; see
    /// [`spec_idle_check`]. True means the worker declared its exit.
    pub fn worker_check_idle(&mut self) -> (shutdown: bool)
        requires
            old(self).wf(),
        ensures
            final(self).wf(),
            final(self)@ == spec_idle_check(old(self)@).0,
            shutdown == spec_idle_check(old(self)@).1,
    {
        if self.entries.len() == 0 {
            proof {
                assert(self.entries@ =~= Seq::<(u32, AwaitState<W>)>::empty());
                assert(self@.entries =~= Map::<u32, AwaitState<W>>::empty());
            }
            self.worker_running = false;
            proof {
                assert(self@ =~= spec_idle_check(old(self)@).0);
            }
            true
        } else {
            proof {
                lemma_pairs_map_index(self.entries@, 0);
                assert(self@.entries.dom().contains(self.entries@[0].0));
            }
            false
        }
    }

    /// The OS wait failed (for example "no child processes" after an orphan
    /// was reaped elsewhere): the worker shuts down; see [`spec_wait_failed`].
    pub fn worker_wait_failed(&mut self)
        requires
            old(self).wf(),
        ensures
            final(self).wf(),
            final(self)@ == spec_wait_failed(old(self)@),
    {
        self.worker_running = false;
        proof {
            assert(self@ =~= spec_wait_failed(old(self)@));
        }
    }

    /// Whether any entry still has a registered awaiter.
    pub fn has_pending(&self) -> (r: bool)
        requires
            self.wf(),
        ensures
            r == has_pending_entry(self@.entries),
    {
        let n = self.entries.len();
        let mut i: usize = 0;
        while i < n
            invariant
                n == self.entries@.len(),
                i <= n,
                self.wf(),
                forall|j: int| 0 <= j < i ==> !(self.entries@[j].1 is Pending),
            decreases n - i,
        {
            let is_pending = match &self.entries[i].1 {
                AwaitState::Pending(_) => true,
                AwaitState::Ready(_) => false,
            };
            if is_pending {
                proof {
                    lemma_pairs_map_index(self.entries@, i as int);
                }
                return true;
            }
            i = i + 1;
        }
        proof {
            assert forall|k: u32| self@.entries.dom().contains(k) implies !(self@.entries[k]
                is Pending) by {
                lemma_pairs_map_contains(self.entries@, k);
                let j = choose|j: int| 0 <= j < self.entries@.len() && self.entries@[j].0 == k;
                lemma_pairs_map_index(self.entries@, j);
            }
        }
        false
    }

    /// The multi-object-wait worker's shutdown decision after a completion;
    /// see [`spec_win_shutdown_check`]. `handles_empty` says whether the
    /// worker holds any process handle still.
    pub fn win_check_shutdown(&mut self, handles_empty: bool) -> (shutdown: bool)
        requires
            old(self).wf(),
        ensures
            final(self).wf(),
            final(self)@ == spec_win_shutdown_check(old(self)@, handles_empty).0,
            shutdown == spec_win_shutdown_check(old(self)@, handles_empty).1,
    {
        if handles_empty && !self.has_pending() {
            self.worker_running = false;
            proof {
                assert(self@ =~= spec_win_shutdown_check(old(self)@, handles_empty).0);
            }
            true
        } else {
            false
        }
    }

    /// The worker woke from the wake-up channel; see [`spec_consume_wakeup`].
    pub fn worker_consume_wakeup(&mut self)
        requires
            old(self).wf(),
        ensures
            final(self).wf(),
            final(self)@ == spec_consume_wakeup(old(self)@),
    {
        if self.wakeups_pending > 0 {
            self.wakeups_pending = self.wakeups_pending - 1;
        }
        proof {
            assert(self@ =~= spec_consume_wakeup(old(self)@));
        }
    }

    /// True iff no entry exists at all.
    pub fn is_idle(&self) -> (r: bool)
        requires
            self.wf(),
        ensures
            r == (self@.entries == Map::<u32, AwaitState<W>>::empty()),
    {
        if self.entries.len() == 0 {
            proof {
                assert(self.entries@ =~= Seq::<(u32, AwaitState<W>)>::empty());
                assert(self@.entries =~= Map::<u32, AwaitState<W>>::empty());
            }
            true
        } else {
            proof {
                lemma_pairs_map_index(self.entries@, 0);
            }
            false
        }
    }

    /// The ids of all children whose entry still has a registered awaiter:
    /// what the multi-object-wait worker re-reads after a wake-up to extend
    /// its wait set.
    pub fn pending_pids(&self) -> (r: Vec<u32>)
        requires
            self.wf(),
        ensures
            forall|k: u32|
                #[trigger] r@.contains(k) <==> (self@.entries.dom().contains(k) && self@.entries[k]
                    is Pending),
            forall|i: int, j: int| 0 <= i < j < r@.len() ==> r@[i] != r@[j],
    {
        let n = self.entries.len();
        let mut r: Vec<u32> = Vec::new();
        let mut i: usize = 0;
        while i < n
            invariant
                n == self.entries@.len(),
                i <= n,
                self.wf(),
                forall|k: u32|
                    #[trigger] r@.contains(k) <==> exists|j: int|
                        0 <= j < i && self.entries@[j].0 == k && (#[trigger] self.entries@[j].1)
                            is Pending,
                forall|p: int, q: int| 0 <= p < q < r@.len() ==> r@[p] != r@[q],
            decreases n - i,
        {
            let is_pending = match &self.entries[i].1 {
                AwaitState::Pending(_) => true,
                AwaitState::Ready(_) => false,
            };
            let ghost r0 = r@;
            if is_pending {
                proof {
                    assert(!r0.contains(self.entries@[i as int].0)) by {
                        if r0.contains(self.entries@[i as int].0) {
                            let j = choose|j: int|
                                0 <= j < i && self.entries@[j].0 == self.entries@[i as int].0
                                    && (#[trigger] self.entries@[j].1) is Pending;
                            assert(self.entries@[j].0 != self.entries@[i as int].0);
                        }
                    }
                }
                r.push(self.entries[i].0);
                proof {
                    assert forall|k: u32|
                        #[trigger] r@.contains(k) <==> exists|j: int|
                            0 <= j < i + 1 && self.entries@[j].0 == k
                                && (#[trigger] self.entries@[j].1) is Pending by {
                        if r@.contains(k) {
                            let p = choose|p: int| 0 <= p < r@.len() && (#[trigger] r@[p]) == k;
                            if p < r0.len() {
                                assert(r0[p] == k);
                                assert(r0.contains(k));
                                let j = choose|j: int|
                                    0 <= j < i && self.entries@[j].0 == k
                                        && (#[trigger] self.entries@[j].1) is Pending;
                                assert(0 <= j < i + 1 && self.entries@[j].0 == k && self.entries@[
                                    j
                                ].1 is Pending);
                            } else {
                                assert(k == self.entries@[i as int].0);
                                assert(self.entries@[i as int].1 is Pending);
                            }
                        }
                        if exists|j: int|
                            0 <= j < i + 1 && self.entries@[j].0 == k
                                && (#[trigger] self.entries@[j].1) is Pending {
                            let j = choose|j: int|
                                0 <= j < i + 1 && self.entries@[j].0 == k
                                    && (#[trigger] self.entries@[j].1) is Pending;
                            if j < i {
                                assert(r0.contains(k));
                                let p = choose|p: int|
                                    0 <= p < r0.len() && (#[trigger] r0[p]) == k;
                                assert(r@[p] == k);
                                assert(r@.contains(k));
                            } else {
                                assert(r@[r@.len() - 1] == k);
                                assert(r@.contains(k));
                            }
                        }
                    }
                }
            } else {
                proof {
                    assert forall|k: u32|
                        #[trigger] r@.contains(k) <==> exists|j: int|
                            0 <= j < i + 1 && self.entries@[j].0 == k
                                && (#[trigger] self.entries@[j].1) is Pending by {
                        if r@.contains(k) {
                            let p = choose|p: int| 0 <= p < r@.len() && (#[trigger] r@[p]) == k;
                            assert(r0[p] == k);
                            assert(r0.contains(k));
                            let j = choose|j: int|
                                0 <= j < i && self.entries@[j].0 == k
                                    && (#[trigger] self.entries@[j].1) is Pending;
                            assert(0 <= j < i + 1 && self.entries@[j].0 == k && self.entries@[j].1
                                is Pending);
                        }
                        if exists|j: int|
                            0 <= j < i + 1 && self.entries@[j].0 == k
                                && (#[trigger] self.entries@[j].1) is Pending {
                            let j = choose|j: int|
                                0 <= j < i + 1 && self.entries@[j].0 == k
                                    && (#[trigger] self.entries@[j].1) is Pending;
                            assert(j < i);
                            assert(r0.contains(k));
                        }
                    }
                }
            }
            i = i + 1;
        }
        proof {
            assert forall|k: u32|
                r@.contains(k) <==> (self@.entries.dom().contains(k) && self@.entries[k]
                    is Pending) by {
                lemma_pairs_map_contains(self.entries@, k);
                if r@.contains(k) {
                    let j = choose|j: int|
                        0 <= j < n && self.entries@[j].0 == k && (#[trigger] self.entries@[j].1)
                            is Pending;
                    lemma_pairs_map_index(self.entries@, j);
                }
                if self@.entries.dom().contains(k) && self@.entries[k] is Pending {
                    let j = choose|j: int| 0 <= j < self.entries@.len() && self.entries@[j].0 == k;
                    lemma_pairs_map_index(self.entries@, j);
                }
            }
        }
        r
    }

    /// Whether a worker thread is currently running.
    pub fn worker_running(&self) -> (r: bool)
        ensures
            r == self@.worker_running,
    {
        self.worker_running
    }
}

/// An exit-wait for one child: the lazy, single-result computation behind
/// `await_exit`. The shell polls it against the shared reaper state.
#[derive(Debug, Clone, Copy, PartialEq, Eq, Hash, Structural)]
pub struct ProcessFuture {
    pid: u32,
}

impl ProcessFuture {
    /// The child this wait is for.
    pub closed spec fn spec_pid(&self) -> u32 {
        self.pid
    }

    /// A new exit-wait for the child with this id.
    pub fn new(pid: u32) -> (r: ProcessFuture)
        ensures
            r.spec_pid() == pid,
    {
        ProcessFuture { pid }
    }

    #[verifier::when_used_as_spec(spec_pid)]
    pub fn pid(&self) -> (r: u32)
        ensures
            r == self.spec_pid(),
    {
        self.pid
    }

    /// One poll of this exit-wait; see [`spec_poll`].
    pub fn poll<W>(&self, state: &mut ReaperState<W>, waker: W) -> (r: PollResult)
        requires
            old(state).wf(),
        ensures
            final(state).wf(),
            final(state)@ == spec_poll(old(state)@, self.spec_pid(), waker).0,
            r == spec_poll(old(state)@, self.spec_pid(), waker).1,
    {
        state.poll_entry(self.pid, waker)
    }
}

/// Single resolution: once the worker observes that an awaited child exited
/// with `code`, the next poll of its exit-wait completes with exactly `code`
/// and removes the entry; a poll after that does not complete again — the
/// computation resolves exactly once per termination.
pub proof fn lemma_single_resolution<W>(v: ReaperView<W>, pid: u32, code: u32, w1: W, w2: W)
    requires
        v.entries.dom().contains(pid),
        v.entries[pid] is Pending,
    ensures
        ({
            let (v1, woken) = spec_observe_exit(v, pid, code);
            let (v2, r) = spec_poll(v1, pid, w1);
            let (v3, r2) = spec_poll(v2, pid, w2);
            &&& woken == Some(v.entries[pid]->Pending_0)
            &&& r == PollResult::Ready(code)
            &&& !v2.entries.dom().contains(pid)
            &&& r2 is Pending
        }),
{
}

/// No cross-wake: a termination of one child hands back exactly that child's
/// waker, and every other child's entry — in particular its stored waker — is
/// untouched.
pub proof fn lemma_no_cross_wake<W>(v: ReaperView<W>, pid1: u32, pid2: u32, code: u32)
    requires
        pid1 != pid2,
        v.entries.dom().contains(pid1),
        v.entries[pid1] is Pending,
    ensures
        ({
            let (v1, woken) = spec_observe_exit(v, pid1, code);
            &&& woken == Some(v.entries[pid1]->Pending_0)
            &&& v1.entries.dom().contains(pid2) == v.entries.dom().contains(pid2)
            &&& v.entries.dom().contains(pid2) ==> v1.entries[pid2] == v.entries[pid2]
        }),
{
}

/// Worker idempotence, first half: a poll asks for a worker start exactly
/// when none is running, and afterwards one is marked running — so at most
/// one worker thread exists at any time.
pub proof fn lemma_worker_start_unique<W>(v: ReaperView<W>, pid: u32, w: W)
    ensures
        ({
            let (v1, r) = spec_poll(v, pid, w);
            &&& (r matches PollResult::Pending { start_worker, .. } ==> (start_worker <==> !v.worker_running))
            &&& (r is Pending ==> v1.worker_running)
            &&& (r is Ready ==> v1.worker_running == v.worker_running)
        }),
{
}

/// Worker idempotence, second half: once every await has completed and its
/// entry been removed, the worker's next idle check declares its exit, so
/// eventually no worker thread is alive.
pub proof fn lemma_idle_shutdown<W>(v: ReaperView<W>)
    requires
        v.entries == Map::<u32, AwaitState<W>>::empty(),
    ensures
        spec_idle_check(v).1,
        !spec_idle_check(v).0.worker_running,
        spec_idle_check(v).0.entries == v.entries,
{
}

/// Cancel tolerance: dropping an awaiter leaves its entry in place, and the
/// reaper never needs that awaiter again. When the child of the last pending
/// entry terminates, the entry turns `Ready` (the stale waker is handed back
/// as an owned value, never dereferenced into the vanished awaiter), no entry
/// is pending any more, and the worker's next shutdown check — its handle
/// table now empty — declares its exit: the worker is not leaked.
pub proof fn lemma_cancel_tolerance<W>(v: ReaperView<W>, pid: u32, code: u32)
    requires
        v.entries.dom().contains(pid),
        v.entries[pid] is Pending,
        forall|k: u32| #[trigger] v.entries.dom().contains(k) && k != pid ==> !(v.entries[k]
            is Pending),
    ensures
        ({
            let (v1, woken) = spec_observe_exit(v, pid, code);
            let (v2, shutdown) = spec_win_shutdown_check(v1, true);
            &&& woken == Some(v.entries[pid]->Pending_0)
            &&& v1.entries[pid] == AwaitState::<W>::Ready(code)
            &&& !has_pending_entry(v1.entries)
            &&& shutdown
            &&& !v2.worker_running
        }),
{
    let (v1, woken) = spec_observe_exit(v, pid, code);
    assert forall|k: u32| v1.entries.dom().contains(k) implies !(v1.entries[k] is Pending) by {
        if k != pid {
            assert(v.entries.dom().contains(k));
        }
    }
}

} // verus!
