//! The scheduling loop as a state machine: what the daemon does next,
//! given what has just happened.

use vstd::prelude::*;
use vstd::set_lib::lemma_len_subset;
use crate::dispatch::{
    dispatch_due, due_ids, has_order, is_dispatch, is_due, is_order, Dispatch,
};
use crate::registry::{JobRegistry, ScheduledJob};
use crate::shutdown::ShutdownController;

verus! {

/// Where the scheduling loop stands.
#[derive(Clone, Copy, Debug, PartialEq, Eq, Structural)]
pub enum Phase {
    /// Not started yet.
    Idle,
    /// Asleep until the next job is due.
    Waiting,
    /// The due jobs were handed out and are being started.
    Dispatching,
    /// No job is started any more; some are still running.
    ShuttingDown,
    /// Nothing runs and nothing will.
    Stopped,
}

/// What has just happened.
#[derive(Clone, Copy, Debug, PartialEq, Eq, Structural)]
pub enum Event {
    /// The daemon starts the loop.
    Start,
    /// The loop woke up at this instant.
    Tick(u64),
    /// The jobs that were handed out have all been started.
    Dispatched,
    /// One execution has come to its end, in whatever way.
    Finished,
    /// The operator asked the daemon to stop.
    Shutdown,
}

/// What the daemon is to do next.
#[derive(Debug)]
pub enum Action {
    /// Sleep until this instant, then report the instant of waking.
    Sleep(u64),
    /// No job is armed: wait for the operator.
    Park,
    /// Start each of these, in this order, without waiting for any, then
    /// report that they were started.
    Run(Vec<Dispatch>),
    /// Wait for the running executions and report the end of each.
    Drain,
    /// Stop.
    Halt,
    /// Go on with what was asked before.
    Resume,
}

/// The loop as the contracts see it.
pub ghost struct SchedulerView {
    pub phase: Phase,
    pub in_flight: u64,
    pub jobs: Map<u64, ScheduledJob>,
}

impl SchedulerView {
    /// What holds of the loop at every moment: nothing runs before the
    /// start or after the stop, and a shutdown that is not over waits for
    /// something.
    pub open spec fn is_valid(self) -> bool {
        &&& self.jobs.dom().finite()
        &&& (self.phase == Phase::Idle || self.phase == Phase::Stopped) ==> self.in_flight == 0
        &&& self.phase == Phase::ShuttingDown ==> self.in_flight > 0
    }
}

/// Whether `action` waits for the job of `jobs` that fires first, or for
/// the operator where there is none.
pub open spec fn is_wait(jobs: Map<u64, ScheduledJob>, action: Action) -> bool {
    match action {
        Action::Sleep(t) => {
            &&& exists|id: u64| jobs.contains_key(id) && (#[trigger] jobs[id]).next_fire == t
            &&& forall|id: u64| jobs.contains_key(id) ==> t <= (#[trigger] jobs[id]).next_fire
        },
        Action::Park => jobs == Map::<u64, ScheduledJob>::empty(),
        _ => false,
    }
}

/// Whether `post` and `action` are where the loop stands and what it asks
/// for after a shutdown took hold with the executions of `post` running.
pub open spec fn is_settled(post: SchedulerView, action: Action) -> bool {
    if post.in_flight == 0 {
        post.phase == Phase::Stopped && action is Halt
    } else {
        post.phase == Phase::ShuttingDown && action is Drain
    }
}

/// The transitions of the loop: whether `event`, arriving when the loop
/// stands at `pre`, leaves it at `post` and asks for `action`.
pub open spec fn is_step(pre: SchedulerView, event: Event, post: SchedulerView, action: Action)
    -> bool {
    match (pre.phase, event) {
        (Phase::Stopped, _) => post == pre && action is Halt,
        (Phase::ShuttingDown, Event::Finished) => {
            &&& post.jobs == pre.jobs
            &&& post.in_flight == pre.in_flight - 1
            &&& is_settled(post, action)
        },
        (Phase::ShuttingDown, _) => post == pre && action is Drain,
        (_, Event::Shutdown) => {
            &&& post.jobs == pre.jobs
            &&& post.in_flight == pre.in_flight
            &&& is_settled(post, action)
        },
        (Phase::Idle, Event::Start) | (Phase::Dispatching, Event::Dispatched) => {
            &&& post.phase == Phase::Waiting
            &&& post.jobs == pre.jobs
            &&& post.in_flight == pre.in_flight
            &&& is_wait(post.jobs, action)
        },
        (Phase::Waiting, Event::Tick(now)) => {
            if due_ids(pre.jobs, now).len() == 0 {
                post == pre && is_wait(post.jobs, action)
            } else {
                &&& post.phase == Phase::Dispatching
                &&& action is Run
                &&& is_dispatch(pre.jobs, post.jobs, now, action->Run_0@)
                &&& action->Run_0@.len() == due_ids(pre.jobs, now).len()
                &&& post.in_flight == pre.in_flight + action->Run_0@.len()
            }
        },
        (Phase::Waiting, Event::Finished) | (Phase::Dispatching, Event::Finished) => {
            &&& post.phase == pre.phase
            &&& post.jobs == pre.jobs
            &&& post.in_flight == if pre.in_flight > 0 {
                pre.in_flight - 1
            } else {
                0
            }
            &&& action is Resume
        },
        _ => post == pre && action is Resume,
    }
}

/// The scheduling loop: the registry and where the loop stands.
#[derive(Debug)]
pub struct Scheduler {
    registry: JobRegistry,
    phase: Phase,
    shutdown: ShutdownController,
}

impl View for Scheduler {
    type V = SchedulerView;

    closed spec fn view(&self) -> SchedulerView {
        SchedulerView {
            phase: self.phase,
            in_flight: self.shutdown@.in_flight,
            jobs: self.registry@,
        }
    }
}

impl Scheduler {
    /// The loop is in order: so is its registry; nothing runs before the
    /// start or after the stop; and a shutdown that is not over waits for
    /// something.
    pub closed spec fn wf(&self) -> bool {
        &&& self.registry.wf()
        &&& self@.is_valid()
        &&& self.shutdown@.requested <==> (self.phase == Phase::ShuttingDown || self.phase
            == Phase::Stopped)
    }

    /// What holds of every loop that is in order.
    pub proof fn lemma_wf(&self)
        requires
            self.wf(),
        ensures
            self@.is_valid(),
    {
    }

    /// A loop over the jobs of `registry`, not started yet.
    pub fn new(registry: JobRegistry) -> (r: Scheduler)
        requires
            registry.wf(),
        ensures
            r.wf(),
            r@ == (SchedulerView { phase: Phase::Idle, in_flight: 0, jobs: registry@ }),
    {
        proof {
            registry.lemma_wf();
        }
        Scheduler { registry, phase: Phase::Idle, shutdown: ShutdownController::new() }
    }

    /// Where the loop stands.
    pub fn phase(&self) -> (r: Phase)
        ensures
            r == self@.phase,
    {
        self.phase
    }

    /// The number of executions that were started and have not ended.
    pub fn in_flight(&self) -> (r: u64)
        ensures
            r == self@.in_flight,
    {
        self.shutdown.in_flight()
    }

    /// The registry of the loop.
    pub fn registry(&self) -> (r: &JobRegistry)
        requires
            self.wf(),
        ensures
            r.wf(),
            r@ == self@.jobs,
    {
        &self.registry
    }

    fn wait(&self) -> (action: Action)
        requires
            self.wf(),
        ensures
            is_wait(self@.jobs, action),
    {
        match self.registry.next_due() {
            Some((id, t)) => {
                assert(self@.jobs[id].next_fire == t);
                Action::Sleep(t)
            },
            None => Action::Park,
        }
    }

    fn settle(&mut self) -> (action: Action)
        requires
            old(self).registry.wf(),
            old(self)@.jobs.dom().finite(),
        ensures
            final(self).wf(),
            final(self)@.jobs == old(self)@.jobs,
            final(self)@.in_flight == old(self)@.in_flight,
            is_settled(final(self)@, action),
    {
        self.shutdown.request();
        if self.shutdown.complete() {
            self.phase = Phase::Stopped;
            Action::Halt
        } else {
            self.phase = Phase::ShuttingDown;
            Action::Drain
        }
    }

    /// Whether the loop can take `event`: a tick that may hand out jobs
    /// must leave room to count the executions that it starts.
    pub open spec fn accepts(&self, event: Event) -> bool {
        event is Tick && self@.phase == Phase::Waiting ==> self@.in_flight + self@.jobs.len()
            <= u64::MAX
    }

    /// Takes one event and says what to do next.
    pub fn step(&mut self, event: Event) -> (action: Action)
        requires
            old(self).wf(),
            old(self).accepts(event),
        ensures
            final(self).wf(),
            is_step(old(self)@, event, final(self)@, action),
    {
        match self.phase {
            Phase::Stopped => Action::Halt,
            Phase::ShuttingDown => {
                match event {
                    Event::Finished => {
                        self.shutdown.finished();
                        self.settle()
                    },
                    _ => Action::Drain,
                }
            },
            Phase::Idle => {
                match event {
                    Event::Shutdown => self.settle(),
                    Event::Start => {
                        self.phase = Phase::Waiting;
                        self.wait()
                    },
                    _ => Action::Resume,
                }
            },
            Phase::Waiting => {
                match event {
                    Event::Shutdown => self.settle(),
                    Event::Finished => {
                        self.shutdown.finished();
                        Action::Resume
                    },
                    Event::Tick(now) => {
                        let ghost before = self.registry@;
                        proof {
                            self.registry.lemma_wf();
                            lemma_len_subset(due_ids(before, now), before.dom());
                        }
                        let orders = dispatch_due(&mut self.registry, now);
                        proof {
                            self.registry.lemma_wf();
                        }
                        if orders.len() == 0 {
                            proof {
                                due_ids(before, now).lemma_len0_is_empty();
                                let after = self.registry@;
                                assert forall|id: u64|
                                    before.contains_key(id) implies after.contains_key(id)
                                    && after[id] == before[id] by {
                                    assert(!due_ids(before, now).contains(id));
                                    assert(!is_due(before, now, id));
                                }
                                assert(after =~= before);
                            }
                            self.wait()
                        } else {
                            self.shutdown.started(orders.len() as u64);
                            self.phase = Phase::Dispatching;
                            Action::Run(orders)
                        }
                    },
                    _ => Action::Resume,
                }
            },
            Phase::Dispatching => {
                match event {
                    Event::Shutdown => self.settle(),
                    Event::Finished => {
                        self.shutdown.finished();
                        Action::Resume
                    },
                    Event::Dispatched => {
                        self.phase = Phase::Waiting;
                        self.wait()
                    },
                    _ => Action::Resume,
                }
            },
        }
    }
}

/// At a tick every job that is due is handed out, once, however many
/// executions are still running: a slow execution delays no dispatch.
pub proof fn lemma_tick_hands_out_all_due(
    pre: SchedulerView,
    now: u64,
    post: SchedulerView,
    action: Action,
)
    requires
        pre.phase == Phase::Waiting,
        is_step(pre, Event::Tick(now), post, action),
        due_ids(pre.jobs, now).len() > 0,
    ensures
        action is Run,
        action->Run_0@.len() == due_ids(pre.jobs, now).len(),
        post.in_flight == pre.in_flight + due_ids(pre.jobs, now).len(),
        forall|id: u64| #[trigger] is_due(pre.jobs, now, id) ==> has_order(action->Run_0@, id),
        forall|i: int, j: int|
            0 <= i < j < action->Run_0@.len() ==> (#[trigger] action->Run_0@[i]).job_id != (
            #[trigger] action->Run_0@[j]).job_id,
{
}

/// Once a shutdown has taken hold nothing is handed out: whatever
/// happens, no job is started and the registry stays as it is.
pub proof fn lemma_no_dispatch_after_shutdown(
    pre: SchedulerView,
    event: Event,
    post: SchedulerView,
    action: Action,
)
    requires
        pre.phase == Phase::ShuttingDown || pre.phase == Phase::Stopped,
        is_step(pre, event, post, action),
    ensures
        !(action is Run),
        post.jobs == pre.jobs,
        post.phase == Phase::ShuttingDown || post.phase == Phase::Stopped,
        post.in_flight <= pre.in_flight,
{
}

/// A shutdown takes hold at once: after the operator's signal the loop
/// is shutting down or stopped, and nothing was handed out.
pub proof fn lemma_shutdown_takes_hold(pre: SchedulerView, post: SchedulerView, action: Action)
    requires
        is_step(pre, Event::Shutdown, post, action),
    ensures
        post.phase == Phase::ShuttingDown || post.phase == Phase::Stopped,
        !(action is Run),
        post.jobs == pre.jobs,
{
}

/// The loop stops only when nothing runs: a step that ends in `Stopped`
/// leaves no execution in flight, and while one is in flight a shutdown
/// stays in `ShuttingDown`.
pub proof fn lemma_stops_only_when_nothing_runs(
    pre: SchedulerView,
    event: Event,
    post: SchedulerView,
    action: Action,
)
    requires
        pre.is_valid(),
        is_step(pre, event, post, action),
    ensures
        post.is_valid(),
        post.phase == Phase::Stopped ==> post.in_flight == 0,
        post.phase == Phase::ShuttingDown ==> post.in_flight > 0,
        action is Halt <==> post.phase == Phase::Stopped,
{
    assert(post.jobs.dom().subset_of(pre.jobs.dom())) by {
        if pre.phase == Phase::Waiting && event is Tick {
            let now = event->Tick_0;
            if due_ids(pre.jobs, now).len() != 0 {
                assert forall|id: u64| post.jobs.dom().contains(id) implies pre.jobs.dom().contains(
                    id,
                ) by {
                    assert(post.jobs.contains_key(id));
                }
            }
        }
    }
    lemma_len_subset(post.jobs.dom(), pre.jobs.dom());
}

/// A running execution delays no dispatch: at a tick of the waiting loop
/// a job that is due is handed out, with the command and the arguments
/// that the registry holds for it, however many executions are in flight.
pub proof fn lemma_running_execution_delays_no_dispatch(
    pre: SchedulerView,
    now: u64,
    post: SchedulerView,
    action: Action,
    id: u64,
)
    requires
        pre.is_valid(),
        pre.phase == Phase::Waiting,
        is_due(pre.jobs, now, id),
        is_step(pre, Event::Tick(now), post, action),
    ensures
        action is Run,
        post.in_flight > pre.in_flight,
        exists|i: int|
            0 <= i < action->Run_0@.len() && (#[trigger] action->Run_0@[i]).job_id == id
                && action->Run_0@[i].name == pre.jobs[id].spec.name && action->Run_0@[i].command
                == pre.jobs[id].spec.command && action->Run_0@[i].args == pre.jobs[id].spec.args,
{
    let due = due_ids(pre.jobs, now);
    lemma_len_subset(due, pre.jobs.dom());
    assert(due.contains(id));
    if due.len() == 0 {
        due.lemma_len0_is_empty();
    }
    let orders = action->Run_0@;
    assert(has_order(orders, id));
    let i = choose|i: int| 0 <= i < orders.len() && (#[trigger] orders[i]).job_id == id;
    assert(is_order(pre.jobs, post.jobs, now, orders[i]));
}

/// A slow execution delays no other job. Where jobs were handed out at
/// one tick and none of them has ended, a job that is due at the next
/// tick is handed out at that tick: the loop waits for no execution.
pub proof fn lemma_slow_execution_delays_no_other(
    waiting: SchedulerView,
    first_now: u64,
    dispatching: SchedulerView,
    first: Action,
    again_waiting: SchedulerView,
    sleep: Action,
    second_now: u64,
    after: SchedulerView,
    second: Action,
    id: u64,
)
    requires
        waiting.is_valid(),
        waiting.phase == Phase::Waiting,
        is_step(waiting, Event::Tick(first_now), dispatching, first),
        first is Run,
        is_step(dispatching, Event::Dispatched, again_waiting, sleep),
        is_due(again_waiting.jobs, second_now, id),
        is_step(again_waiting, Event::Tick(second_now), after, second),
    ensures
        again_waiting.in_flight == waiting.in_flight + first->Run_0@.len(),
        again_waiting.in_flight > 0,
        second is Run,
        has_order(second->Run_0@, id),
        after.in_flight > again_waiting.in_flight,
{
    lemma_stops_only_when_nothing_runs(waiting, Event::Tick(first_now), dispatching, first);
    lemma_stops_only_when_nothing_runs(dispatching, Event::Dispatched, again_waiting, sleep);
    if due_ids(waiting.jobs, first_now).len() == 0 {
        assert(is_wait(dispatching.jobs, first));
    }
    lemma_running_execution_delays_no_dispatch(again_waiting, second_now, after, second, id);
}

} // verus!
