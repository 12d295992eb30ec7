//! The events that the engine hands to the log: each with how much it
//! matters, the name of the job it is about, and what it tells.

use vstd::prelude::*;
use crate::dispatch::Dispatch;
use crate::registry::{accepted, JobSpec, RegisterError};

verus! {

/// How much an event matters.
#[derive(Clone, Copy, Debug, PartialEq, Eq, Structural)]
pub enum Severity {
    Debug,
    Info,
    Warning,
    Error,
}

/// What an event tells.
#[derive(Clone, Copy, Debug, PartialEq, Eq, Structural)]
pub enum EventKind {
    /// The job was not registered, for this reason.
    Rejected(RegisterError),
    /// The job was handed to the executor.
    Started,
    /// The job's schedule never fires again; the job has left the registry.
    Retired,
    /// The execution came to its end.
    Finished,
    /// What the process wrote to its standard output.
    Output,
    /// The process failed, or complained on its standard error.
    Complaint,
    /// The process could not be started.
    SpawnFailed,
}

/// An event for the log.
#[derive(Debug, PartialEq, Eq)]
pub struct LogEvent {
    pub severity: Severity,
    /// The name of the job.
    pub job: String,
    pub kind: EventKind,
}

/// An event as the contracts see it.
pub ghost struct LogEventView {
    pub severity: Severity,
    pub job: Seq<char>,
    pub kind: EventKind,
}

impl View for LogEvent {
    type V = LogEventView;

    open spec fn view(&self) -> LogEventView {
        LogEventView { severity: self.severity, job: self.job@, kind: self.kind }
    }
}

/// The views of a sequence of events.
pub open spec fn event_views(events: Seq<LogEvent>) -> Seq<LogEventView> {
    events.map_values(|e: LogEvent| e@)
}

/// The event that tells how much `kind` matters for the job `job`.
///
/// A job that is refused or cannot be started is an error; one that
/// retires or complains is a warning; its output is for debugging; the
/// rest is information.
pub open spec fn event_of(job: Seq<char>, kind: EventKind) -> LogEventView {
    LogEventView {
        severity: match kind {
            EventKind::Rejected(_) | EventKind::SpawnFailed => Severity::Error,
            EventKind::Retired | EventKind::Complaint => Severity::Warning,
            EventKind::Output => Severity::Debug,
            EventKind::Started | EventKind::Finished => Severity::Info,
        },
        job,
        kind,
    }
}

/// The event that tells `kind` of the job named `job`.
pub fn event(job: &str, kind: EventKind) -> (r: LogEvent)
    ensures
        r@ == event_of(job@, kind),
{
    let severity = match kind {
        EventKind::Rejected(_) | EventKind::SpawnFailed => Severity::Error,
        EventKind::Retired | EventKind::Complaint => Severity::Warning,
        EventKind::Output => Severity::Debug,
        EventKind::Started | EventKind::Finished => Severity::Info,
    };
    LogEvent { severity, job: job.to_owned(), kind }
}

/// The events of a dispatch: the job was started, and is retired where
/// it was not armed again.
pub open spec fn announcement_of(order: Dispatch) -> Seq<LogEventView> {
    if order.rearmed is Some {
        seq![event_of(order.name@, EventKind::Started)]
    } else {
        seq![event_of(order.name@, EventKind::Started), event_of(order.name@, EventKind::Retired)]
    }
}

/// The events of a dispatch.
pub fn announcement(order: &Dispatch) -> (r: Vec<LogEvent>)
    ensures
        event_views(r@) == announcement_of(*order),
{
    let mut out: Vec<LogEvent> = Vec::new();
    out.push(event(order.name.as_str(), EventKind::Started));
    if order.rearmed.is_none() {
        out.push(event(order.name.as_str(), EventKind::Retired));
    }
    assert(event_views(out@) =~= announcement_of(*order));
    out
}

/// The rejections among the first `upto` results of registering `specs`:
/// one event for each job that was refused, in the order of the jobs.
pub open spec fn rejections_of(
    specs: Seq<JobSpec>,
    results: Seq<Result<u64, RegisterError>>,
    upto: int,
) -> Seq<LogEventView>
    decreases upto,
{
    if upto <= 0 || upto > specs.len() || upto > results.len() {
        Seq::empty()
    } else {
        let before = rejections_of(specs, results, upto - 1);
        match results[upto - 1] {
            Err(e) => before.push(event_of(specs[upto - 1].name@, EventKind::Rejected(e))),
            Ok(_) => before,
        }
    }
}

/// Every job of a batch is registered or rejected, never both: the
/// rejections and the registrations add up to the jobs.
pub proof fn lemma_rejections_count(
    specs: Seq<JobSpec>,
    results: Seq<Result<u64, RegisterError>>,
    upto: int,
)
    requires
        0 <= upto <= results.len(),
        specs.len() == results.len(),
    ensures
        rejections_of(specs, results, upto).len() + accepted(results.take(upto)) == upto,
    decreases upto,
{
    if upto > 0 {
        lemma_rejections_count(specs, results, upto - 1);
        assert(results.take(upto).drop_last() =~= results.take(upto - 1));
    }
}

/// The rejections of a batch of registrations.
pub fn rejections(specs: &Vec<JobSpec>, results: &Vec<Result<u64, RegisterError>>) -> (r: Vec<
    LogEvent,
>)
    requires
        specs@.len() == results@.len(),
    ensures
        event_views(r@) == rejections_of(specs@, results@, results@.len() as int),
        r@.len() + accepted(results@) == results@.len(),
{
    let mut out: Vec<LogEvent> = Vec::new();
    let mut k: usize = 0;
    while k < results.len()
        invariant
            k <= results@.len(),
            specs@.len() == results@.len(),
            event_views(out@) =~= rejections_of(specs@, results@, k as int),
        decreases results@.len() - k,
    {
        match results[k] {
            Err(e) => {
                let ghost before = out@;
                out.push(event(specs[k].name.as_str(), EventKind::Rejected(e)));
                assert(event_views(out@) =~= event_views(before).push(
                    event_of(specs@[k as int].name@, EventKind::Rejected(e)),
                ));
            },
            Ok(_) => {},
        }
        k = k + 1;
    }
    proof {
        lemma_rejections_count(specs@, results@, results@.len() as int);
        assert(results@.take(results@.len() as int) =~= results@);
    }
    out
}

} // verus!
