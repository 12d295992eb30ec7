use jobsched::events::{EventKind, LogEvent, Severity};
use jobsched::executor::{argument_list, spawn_failure, ExecutionResult};

fn run(exit_status: Option<i32>, stderr: &[u8]) -> ExecutionResult {
    ExecutionResult {
        job_id: 7,
        started_at: 1704067200,
        exit_status,
        stdout: b"out".to_vec(),
        stderr: stderr.to_vec(),
    }
}

fn event(severity: Severity, kind: EventKind) -> LogEvent {
    LogEvent { severity, job: "backup".to_string(), kind }
}

#[test]
fn arguments_are_parted_by_white_space_only() {
    let args: Vec<String> = argument_list("  -c  'echo hi'\t--flag=\"a b\" ")
        .into_iter()
        .map(|a| a.into_iter().collect())
        .collect();
    assert_eq!(args, vec!["-c", "'echo", "hi'", "--flag=\"a", "b\""]);
    assert_eq!(argument_list("").len(), 0);
    assert_eq!(argument_list("   ").len(), 0);
}

#[test]
fn arguments_keep_their_characters() {
    let args = argument_list("caf\u{e9} \u{1f600}");
    assert_eq!(args, vec![vec!['c', 'a', 'f', '\u{e9}'], vec!['\u{1f600}']]);
}

#[test]
fn arguments_are_parted_as_std_parts_them() {
    for text in ["a\u{a0}b", "x\u{85}y\u{3000}z", " \u{2003}one\u{2003} ", "no-break\u{200b}here"] {
        let expected: Vec<String> = text.split_whitespace().map(|w| w.to_string()).collect();
        let args: Vec<String> =
            argument_list(text).into_iter().map(|a| a.into_iter().collect()).collect();
        assert_eq!(args, expected, "{:?}", text);
    }
}

#[test]
fn a_clean_run_is_reported_without_a_warning() {
    assert_eq!(
        run(Some(0), b"").report("backup"),
        vec![
            event(Severity::Info, EventKind::Finished),
            event(Severity::Debug, EventKind::Output)
        ]
    );
}

#[test]
fn a_failed_run_is_a_warning_and_no_error() {
    let expected = vec![
        event(Severity::Info, EventKind::Finished),
        event(Severity::Debug, EventKind::Output),
        event(Severity::Warning, EventKind::Complaint),
    ];
    assert_eq!(run(Some(1), b"").report("backup"), expected);
    assert_eq!(run(Some(-1), b"boom").report("backup"), expected);
    assert_eq!(run(None, b"").report("backup"), expected);
}

#[test]
fn output_on_standard_error_is_a_warning() {
    assert_eq!(
        run(Some(0), b"careful").report("backup"),
        vec![
            event(Severity::Info, EventKind::Finished),
            event(Severity::Debug, EventKind::Output),
            event(Severity::Warning, EventKind::Complaint),
        ]
    );
}

#[test]
fn a_spawn_failure_is_an_error() {
    assert_eq!(spawn_failure("backup"), event(Severity::Error, EventKind::SpawnFailed));
}
