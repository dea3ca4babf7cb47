//! The multi-object-wait worker's private bookkeeping.
//!
//! On a host whose blocking primitive waits on an explicit vector of objects,
//! the worker keeps a table from child id to the raw value of the opened
//! process handle, plus the reverse direction for looking a signalled object
//! back up. The table is local to the worker thread and never shared; the
//! handles themselves are owned by the shell, which opens and closes them.

use vstd::prelude::*;
use crate::assoc::{keys_distinct, lemma_pairs_map_contains, lemma_pairs_map_index,
    lemma_pairs_map_push, lemma_pairs_map_remove, pairs_map};

verus! {

/// The OS limit on how many objects one blocking wait may take. The wait
/// vector is capped at this length (one slot goes to the wake-up channel);
/// children beyond the cap are picked up as earlier waits complete, which
/// serialises registration past the limit rather than losing it.
pub const MAX_WAIT_OBJECTS: usize = 64;

/// The return value the multi-object wait gives for the first object.
pub const WAIT_OBJECT_FIRST: u32 = 0;

/// What a return from the multi-object wait means.
#[derive(Debug, Clone, Copy, PartialEq, Eq, Structural)]
pub enum WaitOutcome {
    /// The wake-up channel was signalled: re-read the pending set.
    Wakeup,
    /// The object at this index of the wait vector was signalled: that
    /// child terminated. Never zero — index zero is the wake-up channel.
    Object(usize),
    /// Anything else: fatal to this worker only.
    Failed,
}

/// Classify the multi-object wait's return value against the wait vector's
/// length. The wait signals object `i` by returning the first object's value
/// plus `i`; the wake-up channel sits at index zero; everything out of range
/// is a failure.
pub fn classify_wait(code: u32, object_count: usize) -> (r: WaitOutcome)
    requires
        1 <= object_count <= MAX_WAIT_OBJECTS,
    ensures
        code == WAIT_OBJECT_FIRST ==> r == WaitOutcome::Wakeup,
        WAIT_OBJECT_FIRST < code && code - WAIT_OBJECT_FIRST < object_count ==> r
            == WaitOutcome::Object((code - WAIT_OBJECT_FIRST) as usize),
        code - WAIT_OBJECT_FIRST >= object_count ==> r == WaitOutcome::Failed,
{
    if code == WAIT_OBJECT_FIRST {
        WaitOutcome::Wakeup
    } else if code > WAIT_OBJECT_FIRST && ((code - WAIT_OBJECT_FIRST) as usize) < object_count {
        WaitOutcome::Object((code - WAIT_OBJECT_FIRST) as usize)
    } else {
        WaitOutcome::Failed
    }
}

/// Child id to raw process-handle value, with the ids and the raw values
/// each unique, so that either column can be looked up.
pub struct WorkerMaps {
    pairs: Vec<(u32, usize)>,
}

impl WorkerMaps {
    /// The table as a sequence of (child id, raw handle value) pairs, in
    /// insertion order — the order the wait vector presents them in.
    pub closed spec fn pairs(&self) -> Seq<(u32, usize)> {
        self.pairs@
    }

    /// The table as a map from child id to raw handle value.
    pub open spec fn handle_map(&self) -> Map<u32, usize> {
        pairs_map(self.pairs())
    }

    /// Ids unique and raw handle values unique.
    pub closed spec fn wf(&self) -> bool {
        &&& keys_distinct(self.pairs@)
        &&& forall|i: int, j: int|
            0 <= i < j < self.pairs@.len() ==> self.pairs@[i].1 != self.pairs@[j].1
    }

    /// An empty table: a fresh worker holds no handles.
    pub fn new() -> (r: WorkerMaps)
        ensures
            r.wf(),
            r.pairs() == Seq::<(u32, usize)>::empty(),
    {
        WorkerMaps { pairs: Vec::new() }
    }

    /// How many handles the worker holds.
    pub fn len(&self) -> (r: usize)
        ensures
            r == self.pairs().len(),
    {
        self.pairs.len()
    }

    /// Whether the worker holds no handle at all.
    pub fn is_empty(&self) -> (r: bool)
        ensures
            r == (self.pairs().len() == 0),
    {
        self.pairs.len() == 0
    }

    /// The index of `pid`'s pair, if any.
    fn find_pid(&self, pid: u32) -> (r: Option<usize>)
        requires
            self.wf(),
        ensures
            match r {
                Some(i) => i < self.pairs().len() && self.pairs()[i as int].0 == pid
                    && self.handle_map().dom().contains(pid) && self.handle_map()[pid]
                    == self.pairs()[i as int].1,
                None => !self.handle_map().dom().contains(pid),
            },
    {
        let n = self.pairs.len();
        let mut i: usize = 0;
        while i < n
            invariant
                n == self.pairs@.len(),
                i <= n,
                self.wf(),
                forall|j: int| 0 <= j < i ==> self.pairs@[j].0 != pid,
            decreases n - i,
        {
            if self.pairs[i].0 == pid {
                proof {
                    lemma_pairs_map_index(self.pairs@, i as int);
                }
                return Some(i);
            }
            i = i + 1;
        }
        proof {
            lemma_pairs_map_contains(self.pairs@, pid);
        }
        None
    }

    /// Whether the worker already holds a handle for this child.
    pub fn contains_pid(&self, pid: u32) -> (r: bool)
        requires
            self.wf(),
        ensures
            r == self.handle_map().dom().contains(pid),
    {
        match self.find_pid(pid) {
            Some(_) => true,
            None => false,
        }
    }

    /// Record a freshly opened handle for a child not yet in the table.
    pub fn insert(&mut self, pid: u32, raw: usize)
        requires
            old(self).wf(),
            !old(self).handle_map().dom().contains(pid),
            forall|i: int| 0 <= i < old(self).pairs().len() ==> old(self).pairs()[i].1 != raw,
        ensures
            final(self).wf(),
            final(self).pairs() == old(self).pairs().push((pid, raw)),
            final(self).handle_map() == old(self).handle_map().insert(pid, raw),
    {
        proof {
            lemma_pairs_map_contains(self.pairs@, pid);
            lemma_pairs_map_push(self.pairs@, (pid, raw));
        }
        let ghost s0 = self.pairs@;
        self.pairs.push((pid, raw));
        proof {
            assert forall|i: int, j: int| 0 <= i < j < self.pairs@.len() implies self.pairs@[i].1
                != self.pairs@[j].1 by {
                if j < s0.len() {
                    assert(s0[i].1 != s0[j].1);
                } else {
                    assert(s0[i].1 != raw);
                }
            }
        }
    }

    /// The child whose handle has this raw value, if any: how a signalled
    /// wait object is traced back to its child.
    pub fn lookup_pid(&self, raw: usize) -> (r: Option<u32>)
        requires
            self.wf(),
        ensures
            match r {
                Some(pid) => self.handle_map().dom().contains(pid) && self.handle_map()[pid]
                    == raw,
                None => forall|k: u32|
                    self.handle_map().dom().contains(k) ==> #[trigger] self.handle_map()[k]
                        != raw,
            },
    {
        let n = self.pairs.len();
        let mut i: usize = 0;
        while i < n
            invariant
                n == self.pairs@.len(),
                i <= n,
                self.wf(),
                forall|j: int| 0 <= j < i ==> self.pairs@[j].1 != raw,
            decreases n - i,
        {
            if self.pairs[i].1 == raw {
                proof {
                    lemma_pairs_map_index(self.pairs@, i as int);
                }
                return Some(self.pairs[i].0);
            }
            i = i + 1;
        }
        proof {
            assert forall|k: u32| self.handle_map().dom().contains(k) implies #[trigger] self
                .handle_map()[k] != raw by {
                lemma_pairs_map_contains(self.pairs@, k);
                let j = choose|j: int| 0 <= j < self.pairs@.len() && self.pairs@[j].0 == k;
                lemma_pairs_map_index(self.pairs@, j);
            }
        }
        None
    }

    /// Drop a completed child's pair, handing back the raw handle value so
    /// the shell can close the handle.
    pub fn remove_pid(&mut self, pid: u32) -> (r: Option<usize>)
        requires
            old(self).wf(),
        ensures
            final(self).wf(),
            old(self).handle_map().dom().contains(pid) ==> r == Some(
                old(self).handle_map()[pid],
            ) && final(self).handle_map() == old(self).handle_map().remove(pid),
            !old(self).handle_map().dom().contains(pid) ==> r is None && final(self).pairs()
                == old(self).pairs(),
    {
        match self.find_pid(pid) {
            Some(i) => {
                let ghost s0 = self.pairs@;
                let pair = self.pairs.remove(i);
                proof {
                    lemma_pairs_map_remove(s0, i as int);
                    assert forall|p: int, q: int| 0 <= p < q < self.pairs@.len() implies self
                        .pairs@[p].1 != self.pairs@[q].1 by {
                        let sp: int = if p < i { p } else { p + 1 };
                        let sq: int = if q < i { q } else { q + 1 };
                        assert(self.pairs@[p] == s0[sp]);
                        assert(self.pairs@[q] == s0[sq]);
                    }
                }
                Some(pair.1)
            },
            None => None,
        }
    }

    /// The vector of raw values for the blocking multi-object wait: the
    /// wake-up channel first, then the held process handles in table order,
    /// capped at the OS limit.
    pub fn wait_objects(&self, wakeup: usize) -> (r: Vec<usize>)
        ensures
            r@.len() == 1 + if self.pairs().len() < MAX_WAIT_OBJECTS {
                self.pairs().len() as int
            } else {
                MAX_WAIT_OBJECTS - 1
            },
            r@[0] == wakeup,
            forall|i: int| 1 <= i < r@.len() ==> r@[i] == self.pairs()[i - 1].1,
    {
        let count = if self.pairs.len() < MAX_WAIT_OBJECTS {
            self.pairs.len()
        } else {
            MAX_WAIT_OBJECTS - 1
        };
        let mut r: Vec<usize> = Vec::new();
        r.push(wakeup);
        let mut i: usize = 0;
        while i < count
            invariant
                count <= self.pairs@.len(),
                i <= count,
                r@.len() == i + 1,
                r@[0] == wakeup,
                forall|j: int| 1 <= j < r@.len() ==> r@[j] == self.pairs@[j - 1].1,
            decreases count - i,
        {
            r.push(self.pairs[i].1);
            i = i + 1;
        }
        r
    }
}

/// Of the children with a registered awaiter, those the worker holds no
/// handle for yet: the ones it must open handles for after a wake-up.
pub fn pids_needing_handles(pending: &Vec<u32>, maps: &WorkerMaps) -> (r: Vec<u32>)
    requires
        maps.wf(),
        forall|i: int, j: int| 0 <= i < j < pending@.len() ==> pending@[i] != pending@[j],
    ensures
        forall|k: u32|
            #[trigger] r@.contains(k) <==> (pending@.contains(k) && !maps.handle_map(
            ).dom().contains(k)),
        forall|i: int, j: int| 0 <= i < j < r@.len() ==> r@[i] != r@[j],
{
    let n = pending.len();
    let mut r: Vec<u32> = Vec::new();
    let mut i: usize = 0;
    while i < n
        invariant
            n == pending@.len(),
            i <= n,
            maps.wf(),
            forall|p: int, q: int| 0 <= p < q < pending@.len() ==> pending@[p] != pending@[q],
            forall|k: u32|
                #[trigger] r@.contains(k) <==> (pending@.take(i as int).contains(k)
                    && !maps.handle_map().dom().contains(k)),
            forall|p: int, q: int| 0 <= p < q < r@.len() ==> r@[p] != r@[q],
        decreases n - i,
    {
        let pid = pending[i];
        let ghost r0 = r@;
        let in_maps = maps.contains_pid(pid);
        if !in_maps {
            proof {
                assert(!r0.contains(pid)) by {
                    if r0.contains(pid) {
                        assert(pending@.take(i as int).contains(pid));
                        let j = choose|j: int|
                            0 <= j < i && (#[trigger] pending@.take(i as int)[j]) == pid;
                        assert(pending@[j] == pending@[i as int]);
                    }
                }
            }
            r.push(pid);
        }
        proof {
            assert forall|k: u32|
                #[trigger] r@.contains(k) <==> (pending@.take(i + 1 as int).contains(k)
                    && !maps.handle_map().dom().contains(k)) by {
                let inm = maps.handle_map().dom().contains(k);
                assert(r0.contains(k) <==> (pending@.take(i as int).contains(k) && !inm));
                assert(pending@.take(i + 1 as int).contains(k) <==> (pending@.take(
                    i as int,
                ).contains(k) || k == pending@[i as int])) by {
                    if pending@.take(i + 1 as int).contains(k) {
                        let j = choose|j: int|
                            0 <= j < i + 1 && (#[trigger] pending@.take(i + 1 as int)[j]) == k;
                        if j < i {
                            assert(pending@.take(i as int)[j] == k);
                            assert(pending@.take(i as int).contains(k));
                        } else {
                            assert(k == pending@[i as int]);
                        }
                    }
                    if pending@.take(i as int).contains(k) {
                        let j = choose|j: int|
                            0 <= j < i && (#[trigger] pending@.take(i as int)[j]) == k;
                        assert(pending@.take(i + 1 as int)[j] == k);
                        assert(pending@.take(i + 1 as int).contains(k));
                    }
                    if k == pending@[i as int] {
                        assert(pending@.take(i + 1 as int)[i as int] == k);
                        assert(pending@.take(i + 1 as int).contains(k));
                    }
                }
                if in_maps {
                    assert(r@ == r0);
                } else {
                    assert(r@ == r0.push(pending@[i as int]));
                    assert(r@.contains(k) <==> (r0.contains(k) || k == pending@[i as int])) by {
                        if r@.contains(k) {
                            let j = choose|j: int| 0 <= j < r@.len() && (#[trigger] r@[j]) == k;
                            if j < r0.len() {
                                assert(r0[j] == k);
                                assert(r0.contains(k));
                            } else {
                                assert(k == pending@[i as int]);
                            }
                        }
                        if r0.contains(k) {
                            let j = choose|j: int| 0 <= j < r0.len() && (#[trigger] r0[j]) == k;
                            assert(r@[j] == k);
                            assert(r@.contains(k));
                        }
                        if k == pending@[i as int] {
                            assert(r@[r@.len() - 1] == k);
                            assert(r@.contains(k));
                        }
                    }
                }
            }
            assert forall|p: int, q: int| 0 <= p < q < r@.len() implies r@[p] != r@[q] by {
                if !in_maps && q == r@.len() - 1 {
                    assert(r@[p] == r0[p]);
                    assert(!r0.contains(pending@[i as int]));
                    if r0[p] == pending@[i as int] {
                        assert(r0.contains(pending@[i as int]));
                    }
                }
            }
        }
        i = i + 1;
    }
    proof {
        assert(pending@.take(n as int) =~= pending@);
    }
    r
}

} // verus!
