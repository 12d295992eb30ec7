//! What the executor is handed and what it reports: the argument list of
//! a command, and the events that the end of an execution gives rise to.

use vstd::prelude::*;
use crate::events::{event, event_of, event_views, EventKind, LogEvent, LogEventView};
use crate::text::{chars_of, split_words, views, words};

verus! {

/// The arguments that the text `args` gives a command: its words, parted
/// by white space. Nothing quotes or escapes white space.
pub open spec fn arguments(args: Seq<char>) -> Seq<Seq<char>> {
    words(args)
}

/// Splits the argument text of a job into the arguments of its command.
pub fn argument_list(args: &str) -> (r: Vec<Vec<char>>)
    ensures
        views(r@) == arguments(args@),
{
    let chars = chars_of(args);
    split_words(chars.as_slice())
}

/// How one run of a command ended.
#[derive(Debug)]
pub struct ExecutionResult {
    /// The identity of the job that ran.
    pub job_id: u64,
    /// The instant at which the command was started.
    pub started_at: u64,
    /// The exit status of the process, or nothing where a signal ended it.
    pub exit_status: Option<i32>,
    /// What the process wrote to its standard output.
    pub stdout: Vec<u8>,
    /// What the process wrote to its standard error.
    pub stderr: Vec<u8>,
}

impl ExecutionResult {
    /// Whether the process left with a status other than zero, or left
    /// none.
    pub open spec fn failed(&self) -> bool {
        self.exit_status != Some(0i32)
    }

    /// Whether the run is worth a warning: the process failed or wrote to
    /// its standard error.
    pub open spec fn complains(&self) -> bool {
        self.failed() || self.stderr@.len() > 0
    }

    /// The events that the run of the job named `job` gives rise to, in
    /// order: its end, its output, and a warning where it complains. A
    /// failed run is no error: nothing more than the warning follows from it.
    pub open spec fn events(&self, job: Seq<char>) -> Seq<LogEventView> {
        if self.complains() {
            seq![
                event_of(job, EventKind::Finished),
                event_of(job, EventKind::Output),
                event_of(job, EventKind::Complaint),
            ]
        } else {
            seq![event_of(job, EventKind::Finished), event_of(job, EventKind::Output)]
        }
    }

    /// The events that the run of the job named `job` gives rise to.
    pub fn report(&self, job: &str) -> (r: Vec<LogEvent>)
        ensures
            event_views(r@) == self.events(job@),
    {
        let mut out: Vec<LogEvent> = Vec::new();
        out.push(event(job, EventKind::Finished));
        out.push(event(job, EventKind::Output));
        let failed: bool = match self.exit_status {
            Some(status) => status != 0,
            None => true,
        };
        if failed || self.stderr.len() > 0 {
            out.push(event(job, EventKind::Complaint));
        }
        assert(event_views(out@) =~= self.events(job@));
        out
    }
}

/// The event for a command that could not be started. The job stays armed.
pub fn spawn_failure(job: &str) -> (r: LogEvent)
    ensures
        r@ == event_of(job@, EventKind::SpawnFailed),
{
    event(job, EventKind::SpawnFailed)
}

} // verus!
