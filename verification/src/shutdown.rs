//! The shutdown controller: whether a stop was asked for, how many
//! executions are still running, and when the stop is complete.

use vstd::prelude::*;

verus! {

/// The controller as the contracts see it.
pub ghost struct ShutdownView {
    /// Whether the operator asked for a stop.
    pub requested: bool,
    /// The number of executions that were started and have not ended.
    pub in_flight: u64,
}

impl ShutdownView {
    /// Whether jobs may still be started: no stop was asked for.
    pub open spec fn accepting(self) -> bool {
        !self.requested
    }

    /// Whether the stop is complete: it was asked for and nothing runs.
    pub open spec fn complete(self) -> bool {
        self.requested && self.in_flight == 0
    }
}

/// Keeps count of the running executions and of the operator's wish to stop.
#[derive(Debug)]
pub struct ShutdownController {
    requested: bool,
    in_flight: u64,
}

impl View for ShutdownController {
    type V = ShutdownView;

    closed spec fn view(&self) -> ShutdownView {
        ShutdownView { requested: self.requested, in_flight: self.in_flight }
    }
}

impl ShutdownController {
    /// A controller with nothing running and no stop asked for.
    pub fn new() -> (r: ShutdownController)
        ensures
            r@ == (ShutdownView { requested: false, in_flight: 0 }),
    {
        ShutdownController { requested: false, in_flight: 0 }
    }

    /// Whether jobs may still be started.
    pub fn accepting(&self) -> (r: bool)
        ensures
            r == self@.accepting(),
    {
        !self.requested
    }

    /// Whether the stop is complete.
    pub fn complete(&self) -> (r: bool)
        ensures
            r == self@.complete(),
    {
        self.requested && self.in_flight == 0
    }

    /// The number of executions that were started and have not ended.
    pub fn in_flight(&self) -> (r: u64)
        ensures
            r == self@.in_flight,
    {
        self.in_flight
    }

    /// Counts `count` executions that were started.
    pub fn started(&mut self, count: u64)
        requires
            old(self)@.in_flight + count <= u64::MAX,
        ensures
            final(self)@ == (ShutdownView {
                in_flight: (old(self)@.in_flight + count) as u64,
                ..old(self)@
            }),
    {
        self.in_flight = self.in_flight + count;
    }

    /// Counts one execution that has ended. An end that no start went
    /// before is not counted.
    pub fn finished(&mut self)
        ensures
            final(self)@ == after_end(old(self)@),
    {
        if self.in_flight > 0 {
            self.in_flight = self.in_flight - 1;
        }
    }

    /// Takes note that the operator asked for a stop. What runs goes on
    /// running.
    pub fn request(&mut self)
        ensures
            final(self)@ == (ShutdownView { requested: true, ..old(self)@ }),
    {
        self.requested = true;
    }
}

/// The controller after one more execution has ended.
pub open spec fn after_end(v: ShutdownView) -> ShutdownView {
    ShutdownView {
        in_flight: if v.in_flight > 0 {
            (v.in_flight - 1) as u64
        } else {
            0
        },
        ..v
    }
}

/// The controller after `ended` more executions have ended.
pub open spec fn after_ends(v: ShutdownView, ended: nat) -> ShutdownView
    decreases ended,
{
    if ended == 0 {
        v
    } else {
        after_end(after_ends(v, (ended - 1) as nat))
    }
}

/// A stop that was asked for while `running` executions were in flight is
/// complete after `ended` of them have ended exactly where `ended` is at
/// least `running`: not before the last of them has reported.
pub proof fn lemma_complete_after_all_ended(start: ShutdownView, running: u64, ended: nat)
    requires
        start.requested,
        start.in_flight == running,
    ensures
        after_ends(start, ended).requested,
        after_ends(start, ended).complete() <==> ended >= running,
        after_ends(start, ended).in_flight == if ended >= running {
            0
        } else {
            running - ended
        },
    decreases ended,
{
    if ended > 0 {
        lemma_complete_after_all_ended(start, running, (ended - 1) as nat);
    }
}

} // verus!
