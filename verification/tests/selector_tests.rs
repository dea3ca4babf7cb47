use command_rs::selector::{SelectorPoll, SelectorState};

#[test]
fn selector_roundtrip() {
    let mut st: SelectorState<u64> = SelectorState::new();
    assert!(!st.thread_active());
    // First registration starts the thread.
    assert_eq!(
        st.poll_readable(3, 30),
        SelectorPoll::Pending { start_thread: true, reselect: false }
    );
    // A second descriptor nudges the already-running thread instead.
    assert_eq!(
        st.poll_readable(4, 40),
        SelectorPoll::Pending { start_thread: false, reselect: true }
    );
    let watched = st.watch_fds();
    assert_eq!(watched, vec![3, 4]);
    // The thread sees descriptor 4 readable: exactly its waker comes back.
    assert_eq!(st.handle_readable(4), Some(40));
    assert_eq!(st.watch_fds(), vec![3]);
    // Not done: descriptor 3 is still watched.
    assert!(!st.done_check());
    // The next poll of 4 picks the buffered readiness up.
    assert_eq!(st.poll_readable(4, 41), SelectorPoll::Ready);
    assert_eq!(st.handle_readable(3), Some(30));
    // Inbox drained: the thread declares its exit.
    assert!(st.done_check());
    assert!(!st.thread_active());
}

#[test]
fn selector_replaces_waker_on_repoll() {
    let mut st: SelectorState<u64> = SelectorState::new();
    let _ = st.poll_readable(7, 1);
    assert_eq!(
        st.poll_readable(7, 2),
        SelectorPoll::Pending { start_thread: false, reselect: true }
    );
    assert_eq!(st.handle_readable(7), Some(2));
}

#[test]
fn selector_tolerates_stale_readiness() {
    let mut st: SelectorState<u64> = SelectorState::new();
    // Readiness for a descriptor nobody awaits (stale snapshot) is dropped.
    assert_eq!(st.handle_readable(9), None);
    assert!(st.done_check());
}
