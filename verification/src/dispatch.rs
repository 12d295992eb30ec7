//! Dispatch: which jobs are due at an instant, the order in which they
//! are handed to the executor, and how each is armed again.

use vstd::prelude::*;
use vstd::set_lib::lemma_len_subset;
use crate::registry::{fires_no_later, JobRegistry, ScheduledJob};
use crate::search::{is_next_match, none_in_window};

verus! {

/// What the executor needs to run a job once, taken from the registry at
/// the moment of dispatch.
#[derive(Debug)]
pub struct Dispatch {
    /// The identity of the job.
    pub job_id: u64,
    /// The instant at which the job was to fire.
    pub due_at: u64,
    /// The name under which the job is reported.
    pub name: String,
    /// The path of the executable.
    pub command: String,
    /// The arguments, parted by white space.
    pub args: String,
    /// The instant at which the job fires next, or nothing where its
    /// schedule never fires again and the job has left the registry.
    pub rearmed: Option<u64>,
}

/// Whether the job with identity `id` is due at `now`.
pub open spec fn is_due(jobs: Map<u64, ScheduledJob>, now: u64, id: u64) -> bool {
    jobs.contains_key(id) && jobs[id].next_fire <= now
}

/// The identities of the jobs that are due at `now`.
pub open spec fn due_ids(jobs: Map<u64, ScheduledJob>, now: u64) -> Set<u64> {
    Set::new(|id: u64| is_due(jobs, now, id))
}

/// Whether `order` is the dispatch at `now` of a job that was due in
/// `before`, and `after` holds that job armed again, or no longer holds it
/// where its schedule never fires again.
pub open spec fn is_order(
    before: Map<u64, ScheduledJob>,
    after: Map<u64, ScheduledJob>,
    now: u64,
    order: Dispatch,
) -> bool {
    let id = order.job_id;
    &&& is_due(before, now, id)
    &&& order.due_at == before[id].next_fire
    &&& order.name == before[id].spec.name
    &&& order.command == before[id].spec.command
    &&& order.args == before[id].spec.args
    &&& match order.rearmed {
        Some(t) => {
            &&& is_next_match(before[id].schedule@, now as int, t as int)
            &&& after.contains_key(id)
            &&& after[id].next_fire == t
            &&& after[id].id == before[id].id
            &&& after[id].spec == before[id].spec
            &&& after[id].schedule == before[id].schedule
        },
        None => none_in_window(before[id].schedule@, now as int) && !after.contains_key(id),
    }
}

/// Whether `orders` is the dispatch at `now` of the jobs of `before`,
/// which leaves `after`.
///
/// Every job that is due has one order, and the orders stand in order of
/// dispatch; every other job is as it was.
pub open spec fn is_dispatch(
    before: Map<u64, ScheduledJob>,
    after: Map<u64, ScheduledJob>,
    now: u64,
    orders: Seq<Dispatch>,
) -> bool {
    &&& forall|i: int| 0 <= i < orders.len() ==> is_order(before, after, now, #[trigger] orders[i])
    &&& forall|i: int, j: int|
        0 <= i < j < orders.len() ==> fires_no_later(
            (#[trigger] orders[i]).due_at,
            orders[i].job_id,
            (#[trigger] orders[j]).due_at,
            orders[j].job_id,
        ) && orders[i].job_id != orders[j].job_id
    &&& forall|id: u64| #[trigger]
        is_due(before, now, id) ==> has_order(orders, id)
    &&& forall|id: u64| #[trigger]
        before.contains_key(id) && !is_due(before, now, id) ==> after.contains_key(id)
            && after[id] == before[id]
    &&& forall|id: u64| #[trigger] after.contains_key(id) ==> before.contains_key(id)
}

/// Whether one of `orders` is for the job with identity `id`.
pub open spec fn has_order(orders: Seq<Dispatch>, id: u64) -> bool {
    exists|i: int| 0 <= i < orders.len() && (#[trigger] orders[i]).job_id == id
}

/// Hands out every job that is due at `now`, in order of dispatch, and
/// arms each again for its first instant after `now`.
pub fn dispatch_due(registry: &mut JobRegistry, now: u64) -> (orders: Vec<Dispatch>)
    requires
        old(registry).wf(),
    ensures
        final(registry).wf(),
        final(registry).issued() == old(registry).issued(),
        is_dispatch(old(registry)@, final(registry)@, now, orders@),
        orders@.len() == due_ids(old(registry)@, now).len(),
        due_ids(final(registry)@, now) == Set::<u64>::empty(),
{
    let ghost before = registry@;
    let mut orders: Vec<Dispatch> = Vec::new();
    proof {
        registry.lemma_wf();
        lemma_len_subset(due_ids(before, now), before.dom());
    }
    loop
        invariant
            registry.wf(),
            registry.issued() == old(registry).issued(),
            before == old(registry)@,
            before.dom().finite(),
            forall|i: int|
                0 <= i < orders@.len() ==> is_order(before, registry@, now, #[trigger] orders@[i]),
            forall|i: int, j: int|
                0 <= i < j < orders@.len() ==> fires_no_later(
                    (#[trigger] orders@[i]).due_at,
                    orders@[i].job_id,
                    (#[trigger] orders@[j]).due_at,
                    orders@[j].job_id,
                ) && orders@[i].job_id != orders@[j].job_id,
            forall|id: u64| #[trigger]
                before.contains_key(id) ==> (registry@.contains_key(id) && registry@[id]
                    == before[id] && !has_order(orders@, id)) || (is_due(before, now, id)
                    && !is_due(registry@, now, id) && has_order(orders@, id)),
            forall|id: u64| #[trigger] registry@.contains_key(id) ==> before.contains_key(id),
            orders@.len() > 0 ==> forall|k: u64| #[trigger]
                is_due(registry@, now, k) ==> fires_no_later(
                    orders@.last().due_at,
                    orders@.last().job_id,
                    registry@[k].next_fire,
                    k,
                ) && k != orders@.last().job_id,
            due_ids(registry@, now).finite(),
            orders@.len() + due_ids(registry@, now).len() == due_ids(before, now).len(),
        ensures
            registry.wf(),
            registry.issued() == old(registry).issued(),
            is_dispatch(old(registry)@, registry@, now, orders@),
            orders@.len() == due_ids(old(registry)@, now).len(),
            due_ids(registry@, now) == Set::<u64>::empty(),
        decreases due_ids(registry@, now).len(),
    {
        let ghost cur = registry@;
        let ghost done = orders@;
        proof {
            registry.lemma_wf();
        }
        let (id, due_at) = match registry.next_due() {
            Some((id, t)) => {
                if t > now {
                    proof {
                        assert forall|k: u64| !is_due(cur, now, k) by {
                            if cur.contains_key(k) {
                                assert(fires_no_later(t, id, cur[k].next_fire, k));
                            }
                        }
                        assert(due_ids(cur, now) =~= Set::<u64>::empty());
                    }
                    break ;
                }
                (id, t)
            },
            None => {
                proof {
                    assert(due_ids(cur, now) =~= Set::<u64>::empty());
                }
                break ;
            },
        };
        assert(is_due(cur, now, id));
        assert(before.contains_key(id));
        assert(cur[id] == before[id] && !has_order(done, id));
        let (name, command, args) = match registry.get(id) {
            Some(job) => (job.spec.name.clone(), job.spec.command.clone(), job.spec.args.clone()),
            None => (String::new(), String::new(), String::new()),
        };
        let rearmed: Option<u64> = match registry.advance(id, now) {
            Ok(t) => Some(t),
            Err(_) => None,
        };
        let order = Dispatch { job_id: id, due_at, name, command, args, rearmed };
        orders.push(order);
        proof {
            let next = registry@;
            assert(!is_due(next, now, id));
            assert(due_ids(next, now) =~= due_ids(cur, now).remove(id));
            assert(due_ids(cur, now).contains(id));
            assert(is_order(before, next, now, order));
            assert forall|i: int| 0 <= i < orders@.len() implies is_order(
                before,
                next,
                now,
                #[trigger] orders@[i],
            ) by {
                if i < done.len() {
                    assert(orders@[i] == done[i]);
                    assert(is_order(before, cur, now, done[i]));
                    assert(has_order(done, done[i].job_id));
                    assert(done[i].job_id != id);
                }
            }
            assert forall|i: int, j: int| 0 <= i < j < orders@.len() implies fires_no_later(
                (#[trigger] orders@[i]).due_at,
                orders@[i].job_id,
                (#[trigger] orders@[j]).due_at,
                orders@[j].job_id,
            ) && orders@[i].job_id != orders@[j].job_id by {
                if j < done.len() {
                    assert(orders@[i] == done[i] && orders@[j] == done[j]);
                } else {
                    assert(orders@[i] == done[i]);
                    assert(has_order(done, done[i].job_id));
                    if i < done.len() - 1 {
                        assert(fires_no_later(
                            done[i].due_at,
                            done[i].job_id,
                            done.last().due_at,
                            done.last().job_id,
                        ));
                    }
                    assert(is_due(cur, now, id));
                }
            }
            assert forall|k: u64| #[trigger] before.contains_key(k) implies (next.contains_key(k)
                && next[k] == before[k] && !has_order(orders@, k)) || (is_due(before, now, k)
                && !is_due(next, now, k) && has_order(orders@, k)) by {
                if k == id {
                    assert(orders@[done.len() as int].job_id == id);
                } else if has_order(done, k) {
                    let i = choose|i: int| 0 <= i < done.len() && (#[trigger] done[i]).job_id == k;
                    assert(orders@[i].job_id == k);
                } else {
                    if has_order(orders@, k) {
                        let i = choose|i: int|
                            0 <= i < orders@.len() && (#[trigger] orders@[i]).job_id == k;
                        if i < done.len() {
                            assert(done[i].job_id == k);
                        }
                    }
                }
            }
            assert forall|k: u64| #[trigger] is_due(next, now, k) implies fires_no_later(
                orders@.last().due_at,
                orders@.last().job_id,
                next[k].next_fire,
                k,
            ) && k != orders@.last().job_id by {
                assert(cur.contains_key(k));
                assert(fires_no_later(due_at, id, cur[k].next_fire, k));
            }
        }
    }
    proof {
        assert forall|id: u64| #[trigger] is_due(before, now, id) implies has_order(orders@, id) by {
            if registry@.contains_key(id) && registry@[id] == before[id] {
                assert(due_ids(registry@, now).contains(id));
            }
        }
    }
    orders
}

/// A dispatch moves no job back in time: every job that it leaves in the
/// registry fires after `now`, and no earlier than it was to fire before.
pub proof fn lemma_dispatch_moves_forward(
    before: Map<u64, ScheduledJob>,
    after: Map<u64, ScheduledJob>,
    now: u64,
    orders: Seq<Dispatch>,
)
    requires
        is_dispatch(before, after, now, orders),
    ensures
        forall|id: u64| #[trigger]
            after.contains_key(id) ==> before.contains_key(id) && after[id].next_fire > now
                && after[id].next_fire >= before[id].next_fire,
{
    assert forall|id: u64| #[trigger] after.contains_key(id) implies before.contains_key(id)
        && after[id].next_fire > now && after[id].next_fire >= before[id].next_fire by {
        if is_due(before, now, id) {
            assert(has_order(orders, id));
            let i = choose|i: int| 0 <= i < orders.len() && (#[trigger] orders[i]).job_id == id;
            assert(is_order(before, after, now, orders[i]));
        }
    }
}

/// After a dispatch no job is due any more.
pub proof fn lemma_dispatch_leaves_none_due(
    before: Map<u64, ScheduledJob>,
    after: Map<u64, ScheduledJob>,
    now: u64,
    orders: Seq<Dispatch>,
)
    requires
        is_dispatch(before, after, now, orders),
    ensures
        forall|id: u64| !is_due(after, now, id),
{
    lemma_dispatch_moves_forward(before, after, now, orders);
}

/// One job is never handed out of order: where it is handed out at one
/// dispatch and again at a later one, it was due the second time at a
/// later instant than the first dispatch itself.
pub proof fn lemma_successive_dispatches_in_order(
    before: Map<u64, ScheduledJob>,
    between: Map<u64, ScheduledJob>,
    after: Map<u64, ScheduledJob>,
    first_now: u64,
    second_now: u64,
    first: Seq<Dispatch>,
    second: Seq<Dispatch>,
    i: int,
    j: int,
)
    requires
        is_dispatch(before, between, first_now, first),
        is_dispatch(between, after, second_now, second),
        0 <= i < first.len(),
        0 <= j < second.len(),
        first[i].job_id == second[j].job_id,
    ensures
        first[i].due_at <= first_now < second[j].due_at,
        first[i].rearmed == Some(second[j].due_at),
{
    assert(is_order(before, between, first_now, first[i]));
    assert(is_order(between, after, second_now, second[j]));
}

/// A dispatch retires no job that fires again: a job whose schedule has
/// an instant after `now` within the days searched stays registered, as
/// it was but for the instant at which it fires next.
pub proof fn lemma_dispatch_keeps_what_fires_again(
    before: Map<u64, ScheduledJob>,
    after: Map<u64, ScheduledJob>,
    now: u64,
    orders: Seq<Dispatch>,
    id: u64,
)
    requires
        is_dispatch(before, after, now, orders),
        before.contains_key(id),
        !none_in_window(before[id].schedule@, now as int),
    ensures
        after.contains_key(id),
        after[id].next_fire > now,
        after[id].id == before[id].id,
        after[id].spec == before[id].spec,
        after[id].schedule == before[id].schedule,
{
    if is_due(before, now, id) {
        assert(has_order(orders, id));
        let i = choose|i: int| 0 <= i < orders.len() && (#[trigger] orders[i]).job_id == id;
        assert(is_order(before, after, now, orders[i]));
    }
}

} // verus!
