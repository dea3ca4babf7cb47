use command_rs::reaper::{PollResult, ProcessFuture, ReaperState, SEMAPHORE_MAX};
use command_rs::winworker::{
    classify_wait, pids_needing_handles, WaitOutcome, WorkerMaps, MAX_WAIT_OBJECTS,
};

#[test]
fn wait_return_classification() {
    assert_eq!(classify_wait(0, 5), WaitOutcome::Wakeup);
    assert_eq!(classify_wait(1, 5), WaitOutcome::Object(1));
    assert_eq!(classify_wait(4, 5), WaitOutcome::Object(4));
    assert_eq!(classify_wait(5, 5), WaitOutcome::Failed);
    assert_eq!(classify_wait(0xFFFF_FFFF, 5), WaitOutcome::Failed);
}

#[test]
fn single_resolution() {
    let mut st: ReaperState<u64> = ReaperState::new();
    let fut = ProcessFuture::new(5);
    assert_eq!(fut.pid(), 5);
    let r = fut.poll(&mut st, 100);
    assert_eq!(r, PollResult::Pending { start_worker: true, post_wakeup: true });
    assert!(st.worker_running());
    // The worker reports the termination: exactly the stored waker comes back.
    assert_eq!(st.worker_observe_exit(5, 42), Some(100));
    // The next poll completes with exactly that exit code, once.
    assert_eq!(fut.poll(&mut st, 101), PollResult::Ready(42));
    // A poll after the completion does not produce the code again.
    let again = fut.poll(&mut st, 102);
    assert_eq!(again, PollResult::Pending { start_worker: false, post_wakeup: true });
}

#[test]
fn repeat_registration_replaces_waker() {
    let mut st: ReaperState<u64> = ReaperState::new();
    let fut = ProcessFuture::new(9);
    assert_eq!(
        fut.poll(&mut st, 1),
        PollResult::Pending { start_worker: true, post_wakeup: true }
    );
    // Re-polling the same child posts no new wake-up; the waker is replaced.
    assert_eq!(
        fut.poll(&mut st, 2),
        PollResult::Pending { start_worker: false, post_wakeup: false }
    );
    assert_eq!(st.worker_observe_exit(9, 0), Some(2));
}

#[test]
fn no_cross_wake() {
    let mut st: ReaperState<u64> = ReaperState::new();
    let _ = st.poll_entry(1, 11);
    let _ = st.poll_entry(2, 22);
    // Child 1 terminates: child 2's awaiter is not woken by that event.
    assert_eq!(st.worker_observe_exit(1, 7), Some(11));
    assert!(st.has_pending());
    let pending = st.pending_pids();
    assert_eq!(pending, vec![2]);
    assert_eq!(st.worker_observe_exit(2, 8), Some(22));
    assert!(!st.has_pending());
}

#[test]
fn orphan_termination_discarded() {
    let mut st: ReaperState<u64> = ReaperState::new();
    assert_eq!(st.worker_observe_exit(77, 1), None);
    assert!(st.is_idle());
    // A cancelled awaiter's entry can also turn Ready with nobody polling.
    let _ = st.poll_entry(5, 50);
    assert_eq!(st.worker_observe_exit(5, 0), Some(50));
    assert_eq!(st.worker_observe_exit(5, 1), None);
}

#[test]
fn worker_lifecycle_three_children() {
    // Three concurrent awaits: one worker starts, and after all three
    // complete and are picked up, the idle check shuts it down.
    let mut st: ReaperState<u64> = ReaperState::new();
    let futs = [ProcessFuture::new(10), ProcessFuture::new(20), ProcessFuture::new(30)];
    let r0 = futs[0].poll(&mut st, 0);
    assert_eq!(r0, PollResult::Pending { start_worker: true, post_wakeup: true });
    for (i, f) in futs.iter().enumerate().skip(1) {
        match f.poll(&mut st, i as u64) {
            PollResult::Pending { start_worker, .. } => assert!(!start_worker),
            other => panic!("expected pending, got {:?}", other),
        }
    }
    assert!(!st.worker_check_idle());
    // Terminations arrive in any order.
    assert_eq!(st.worker_observe_exit(20, 2), Some(1));
    assert_eq!(st.worker_observe_exit(30, 3), Some(2));
    assert_eq!(st.worker_observe_exit(10, 1), Some(0));
    assert_eq!(futs[0].poll(&mut st, 9), PollResult::Ready(1));
    assert_eq!(futs[1].poll(&mut st, 9), PollResult::Ready(2));
    assert_eq!(futs[2].poll(&mut st, 9), PollResult::Ready(3));
    // Everything picked up: the worker declares its exit.
    assert!(st.worker_check_idle());
    assert!(!st.worker_running());
}

#[test]
fn cancel_tolerance_multi_object_host() {
    // The awaiter is dropped before the child terminates; the entry stays.
    let mut st: ReaperState<u64> = ReaperState::new();
    let _ = st.poll_entry(5, 50);
    // Child terminates; the stale waker comes back as an owned value.
    assert_eq!(st.worker_observe_exit(5, 0), Some(50));
    // No entry is pending; with its handle table empty the worker shuts down.
    assert!(!st.has_pending());
    assert!(st.win_check_shutdown(true));
    assert!(!st.worker_running());
}

#[test]
fn cancel_tolerance_wait_any_host() {
    // Same cancellation on the host whose wait covers any child: the Ready
    // entry keeps the state non-idle, and the following wait, finding no
    // child left, fails and shuts the worker down.
    let mut st: ReaperState<u64> = ReaperState::new();
    let _ = st.poll_entry(5, 50);
    assert_eq!(st.worker_observe_exit(5, 0), Some(50));
    assert!(!st.worker_check_idle());
    st.worker_wait_failed();
    assert!(!st.worker_running());
}

#[test]
fn wait_failure_shuts_worker_down() {
    let mut st: ReaperState<u64> = ReaperState::new();
    let _ = st.poll_entry(1, 10);
    st.worker_wait_failed();
    assert!(!st.worker_running());
    // A later registration starts a fresh worker.
    match st.poll_entry(2, 20) {
        PollResult::Pending { start_worker, .. } => assert!(start_worker),
        other => panic!("expected pending, got {:?}", other),
    }
}

#[test]
fn no_spawn_no_entry_no_worker() {
    // A spawn failure never reaches the reaper: nothing is registered and no
    // worker starts.
    let st: ReaperState<u64> = ReaperState::new();
    assert!(st.is_idle());
    assert!(!st.worker_running());
}

#[test]
fn wakeup_channel_saturates() {
    let mut st: ReaperState<u64> = ReaperState::new();
    for pid in 0..SEMAPHORE_MAX {
        match st.poll_entry(pid, pid as u64) {
            PollResult::Pending { post_wakeup, .. } => assert!(post_wakeup),
            other => panic!("expected pending, got {:?}", other),
        }
    }
    // The channel is full: a further registration posts nothing more — the
    // buffered wake-ups already guarantee a re-scan.
    match st.poll_entry(SEMAPHORE_MAX, 999) {
        PollResult::Pending { post_wakeup, .. } => assert!(!post_wakeup),
        other => panic!("expected pending, got {:?}", other),
    }
    st.worker_consume_wakeup();
    match st.poll_entry(SEMAPHORE_MAX + 1, 1000) {
        PollResult::Pending { post_wakeup, .. } => assert!(post_wakeup),
        other => panic!("expected pending, got {:?}", other),
    }
}

#[test]
fn seventy_children_on_multi_object_host() {
    // More children than one blocking wait may take: the wait vector is
    // capped, later children are picked up as earlier ones complete, and all
    // seventy complete with their own exit codes.
    const N: u32 = 70;
    let sem: usize = 1;
    let mut st: ReaperState<u64> = ReaperState::new();
    let mut maps = WorkerMaps::new();
    for pid in 1..=N {
        let _ = st.poll_entry(pid, pid as u64);
    }
    let mut done: Vec<(u32, u32)> = Vec::new();
    let mut next_raw: usize = 100;
    loop {
        // Wake-up path: open handles for pending children not yet held.
        st.worker_consume_wakeup();
        let pending = st.pending_pids();
        for pid in pids_needing_handles(&pending, &maps) {
            maps.insert(pid, next_raw);
            next_raw += 1;
        }
        let objects = maps.wait_objects(sem);
        assert!(objects.len() <= MAX_WAIT_OBJECTS);
        assert_eq!(objects[0], sem);
        if objects.len() == 1 {
            break;
        }
        // The OS signals the first process handle: that child terminated.
        let raw = objects[1];
        let pid = maps.lookup_pid(raw).unwrap();
        let _closed = maps.remove_pid(pid).unwrap();
        let woken = st.worker_observe_exit(pid, pid * 2);
        assert_eq!(woken, Some(pid as u64));
        // The awaiter polls and completes.
        assert_eq!(st.poll_entry(pid, 0), PollResult::Ready(pid * 2));
        done.push((pid, pid * 2));
        if maps.is_empty() && !st.has_pending() {
            assert!(st.win_check_shutdown(maps.is_empty()));
            break;
        }
    }
    assert_eq!(done.len(), N as usize);
    assert!(!st.worker_running());
}
