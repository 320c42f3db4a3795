use dl_srt_server::shutdown::ShutdownCoordinator;
use dl_srt_server::shutdown::ShutdownPhase;

#[test]
fn coordinator_starts_running_and_empty() {
    let c = ShutdownCoordinator::new();
    assert_eq!(c.phase(), ShutdownPhase::Running);
    assert_eq!(c.pending_count(), 0);
}

#[test]
fn trigger_moves_running_to_shutting_down_once() {
    let mut c = ShutdownCoordinator::new();
    c.register_task(1);
    c.trigger();
    assert_eq!(c.phase(), ShutdownPhase::ShuttingDown);
    // a second trigger changes nothing
    c.trigger();
    assert_eq!(c.phase(), ShutdownPhase::ShuttingDown);
    assert_eq!(c.pending_count(), 1);
}

#[test]
fn tasks_enroll_and_report_completion() {
    let mut c = ShutdownCoordinator::new();
    c.register_task(1);
    c.register_task(2);
    assert_eq!(c.pending_count(), 2);
    assert!(c.is_pending(1));
    assert!(c.is_pending(2));
    assert!(!c.is_pending(3));
    c.task_completed(1);
    assert!(!c.is_pending(1));
    assert_eq!(c.pending_count(), 1);
    // completing a task twice is harmless
    c.task_completed(1);
    assert_eq!(c.pending_count(), 1);
    // completion while running does not stop the process
    c.task_completed(2);
    assert_eq!(c.phase(), ShutdownPhase::Running);
}

#[test]
fn last_report_during_shutdown_stops_the_process() {
    let mut c = ShutdownCoordinator::new();
    c.register_task(1);
    c.register_task(2);
    c.trigger();
    c.task_completed(1);
    assert_eq!(c.phase(), ShutdownPhase::ShuttingDown);
    c.task_completed(2);
    assert_eq!(c.phase(), ShutdownPhase::Stopped);
    assert_eq!(c.pending_count(), 0);
}

#[test]
fn drain_timeout_aborts_the_stragglers() {
    // the trigger fires while tasks are still blocked; the drain timeout
    // stops the process regardless and hands the stuck tasks back for a
    // forced abort
    let mut c = ShutdownCoordinator::new();
    c.register_task(1);
    c.register_task(2);
    c.register_task(3);
    c.trigger();
    c.task_completed(2);
    let aborted = c.drain_timeout();
    assert_eq!(c.phase(), ShutdownPhase::Stopped);
    assert_eq!(c.pending_count(), 0);
    assert_eq!(aborted, vec![1, 3]);
}

#[test]
fn drain_timeout_outside_a_shutdown_is_a_noop() {
    let mut c = ShutdownCoordinator::new();
    c.register_task(1);
    let aborted = c.drain_timeout();
    assert!(aborted.is_empty());
    assert_eq!(c.phase(), ShutdownPhase::Running);
    assert_eq!(c.pending_count(), 1);
}
