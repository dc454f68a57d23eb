use mznlaunch::errors::Error;
use mznlaunch::supervisor::{
    kill_targets, summarize_kill_outcomes, KillOutcome, SupervisorState, WakeReason, WatcherAction,
};

#[test]
fn fresh_supervision_is_unfinished() {
    let s = SupervisorState::new();
    assert!(!s.finished);
    assert!(!s.watcher_should_stop());
    assert!(s.wait_should_block());
}

#[test]
fn watcher_detects_exit_and_notifies() {
    let mut s = SupervisorState::new();
    let a = s.watcher_observe(true);
    assert_eq!(a, WatcherAction::Notify);
    assert!(s.finished);
    assert!(s.watcher_should_stop());
}

#[test]
fn watcher_sleeps_while_running() {
    let mut s = SupervisorState::new();
    let a = s.watcher_observe(false);
    assert_eq!(a, WatcherAction::Sleep);
    assert!(!s.finished);
}

#[test]
fn spurious_wakes_do_not_release_the_waiter() {
    // Repeated unrelated notifications while the flag is false keep blocking.
    let s = SupervisorState::new();
    for _ in 0..5 {
        assert!(!s.wait_releases(WakeReason::Spurious));
        assert!(!s.wait_releases(WakeReason::Notified));
    }
    assert!(s.wait_releases(WakeReason::Timeout));
}

#[test]
fn set_flag_releases_the_waiter() {
    let mut s = SupervisorState::new();
    s.mark_finished();
    assert!(s.finished);
    assert!(s.wait_releases(WakeReason::Notified));
    assert!(s.wait_releases(WakeReason::Spurious));
}

#[test]
fn mark_finished_is_idempotent() {
    let mut s = SupervisorState::new();
    s.mark_finished();
    s.mark_finished();
    assert!(s.finished);
}

#[test]
fn kill_targets_prepend_missing_root() {
    let t = kill_targets(10, &vec![21, 22, 23]);
    assert_eq!(t, vec![10, 21, 22, 23]);
}

#[test]
fn kill_targets_keep_included_root() {
    let t = kill_targets(10, &vec![10, 21, 22]);
    assert_eq!(t, vec![10, 21, 22]);
}

#[test]
fn kill_targets_of_childless_root() {
    let t = kill_targets(10, &vec![]);
    assert_eq!(t, vec![10]);
}

#[test]
fn all_signals_delivered_is_success() {
    let outcomes = vec![KillOutcome::Signalled, KillOutcome::Signalled];
    assert!(summarize_kill_outcomes(&outcomes).is_ok());
}

#[test]
fn already_gone_processes_are_tolerated() {
    // Entries that had already exited on their own must not fail the batch.
    let outcomes = vec![
        KillOutcome::Signalled,
        KillOutcome::AlreadyGone,
        KillOutcome::Signalled,
    ];
    assert!(summarize_kill_outcomes(&outcomes).is_ok());
}

#[test]
fn first_failure_is_reported() {
    let outcomes = vec![
        KillOutcome::Signalled,
        KillOutcome::Failed("permission denied".to_string()),
        KillOutcome::Failed("later".to_string()),
    ];
    match summarize_kill_outcomes(&outcomes) {
        Err(Error::Kill(m)) => assert_eq!(m, "permission denied"),
        _ => panic!("a failed signal must be reported"),
    }
}

#[test]
fn empty_broadcast_is_success() {
    let outcomes: Vec<KillOutcome> = vec![];
    assert!(summarize_kill_outcomes(&outcomes).is_ok());
}
