use jobsched::shutdown::ShutdownController;

#[test]
fn a_new_controller_accepts_and_counts_nothing() {
    let c = ShutdownController::new();
    assert!(c.accepting());
    assert!(!c.complete());
    assert_eq!(c.in_flight(), 0);
}

#[test]
fn starts_and_ends_are_counted() {
    let mut c = ShutdownController::new();
    c.started(3);
    assert_eq!(c.in_flight(), 3);
    c.finished();
    assert_eq!(c.in_flight(), 2);
    c.started(0);
    assert_eq!(c.in_flight(), 2);
    c.finished();
    c.finished();
    assert_eq!(c.in_flight(), 0);
    c.finished();
    assert_eq!(c.in_flight(), 0);
    assert!(c.accepting());
    assert!(!c.complete());
}

#[test]
fn a_stop_is_complete_only_when_nothing_runs() {
    let mut c = ShutdownController::new();
    c.started(2);
    c.request();
    assert!(!c.accepting());
    assert!(!c.complete());
    assert_eq!(c.in_flight(), 2);
    c.finished();
    assert!(!c.complete());
    c.finished();
    assert!(c.complete());
    assert!(!c.accepting());
}

#[test]
fn a_stop_with_nothing_running_is_complete_at_once() {
    let mut c = ShutdownController::new();
    c.request();
    assert!(c.complete());
    c.request();
    assert!(c.complete());
}
