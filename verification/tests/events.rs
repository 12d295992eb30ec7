use jobsched::dispatch::Dispatch;
use jobsched::events::{announcement, event, rejections, EventKind, LogEvent, Severity};
use jobsched::field::FieldKind;
use jobsched::registry::{JobRegistry, JobSpec, RegisterError};
use jobsched::schedule::ParseError;

fn job(name: &str, schedule: &str) -> JobSpec {
    JobSpec {
        name: name.to_string(),
        schedule: schedule.to_string(),
        command: "/bin/true".to_string(),
        args: String::new(),
    }
}

fn order(name: &str, rearmed: Option<u64>) -> Dispatch {
    Dispatch {
        job_id: 1,
        due_at: 100,
        name: name.to_string(),
        command: "/bin/true".to_string(),
        args: String::new(),
        rearmed,
    }
}

#[test]
fn every_kind_has_its_severity() {
    let kinds = [
        (EventKind::Rejected(RegisterError::NoMatch), Severity::Error),
        (EventKind::Rejected(RegisterError::Parse(ParseError::FieldCount)), Severity::Error),
        (EventKind::SpawnFailed, Severity::Error),
        (EventKind::Retired, Severity::Warning),
        (EventKind::Complaint, Severity::Warning),
        (EventKind::Output, Severity::Debug),
        (EventKind::Started, Severity::Info),
        (EventKind::Finished, Severity::Info),
    ];
    for (kind, severity) in kinds {
        assert_eq!(event("job", kind), LogEvent { severity, job: "job".to_string(), kind });
    }
}

#[test]
fn a_dispatch_announces_the_start() {
    assert_eq!(
        announcement(&order("daily", Some(200))),
        vec![LogEvent { severity: Severity::Info, job: "daily".to_string(), kind: EventKind::Started }]
    );
}

#[test]
fn a_last_dispatch_announces_the_retirement_too() {
    assert_eq!(
        announcement(&order("once", None)),
        vec![
            LogEvent { severity: Severity::Info, job: "once".to_string(), kind: EventKind::Started },
            LogEvent {
                severity: Severity::Warning,
                job: "once".to_string(),
                kind: EventKind::Retired
            },
        ]
    );
}

#[test]
fn one_bad_job_in_five_gives_one_rejection() {
    let specs = vec![
        job("a", "0 0 6 * * *"),
        job("b", "0 */5 * * * *"),
        job("broken", "0 0 25 * * *"),
        job("c", "30 0 0 1 Jan *"),
        job("d", "0 0 12 * * Mon-Fri"),
    ];
    let mut r = JobRegistry::new();
    let results = r.register_all(&specs, 1704067200);
    assert_eq!(r.len(), 4);
    assert_eq!(
        rejections(&specs, &results),
        vec![LogEvent {
            severity: Severity::Error,
            job: "broken".to_string(),
            kind: EventKind::Rejected(RegisterError::Parse(ParseError::Field(FieldKind::Hour))),
        }]
    );
}

#[test]
fn rejections_come_in_the_order_of_the_jobs() {
    let specs = vec![job("x", "nonsense"), job("ok", "* * * * * *"), job("y", "0 0 0 31 2 *")];
    let mut r = JobRegistry::new();
    let results = r.register_all(&specs, 0);
    let events = rejections(&specs, &results);
    assert_eq!(
        events,
        vec![
            LogEvent {
                severity: Severity::Error,
                job: "x".to_string(),
                kind: EventKind::Rejected(RegisterError::Parse(ParseError::FieldCount)),
            },
            LogEvent {
                severity: Severity::Error,
                job: "y".to_string(),
                kind: EventKind::Rejected(RegisterError::NoMatch),
            },
        ]
    );
    assert_eq!(rejections(&Vec::new(), &Vec::new()), Vec::new());
}
