//! The registry of armed jobs: each with its identity, its schedule and
//! the instant at which it fires next.

use vstd::prelude::*;
use crate::schedule::{parse_text, CronSchedule, ParseError, ScheduleView};
use crate::search::{is_next_match, none_in_window};

verus! {

/// What a job is, as its configuration gives it.
#[derive(Debug, PartialEq, Eq)]
pub struct JobSpec {
    /// The name under which the job is reported.
    pub name: String,
    /// The cron expression that says when the job runs.
    pub schedule: String,
    /// The path of the executable.
    pub command: String,
    /// The arguments, parted by white space.
    pub args: String,
}

impl Clone for JobSpec {
    fn clone(&self) -> (r: JobSpec)
        ensures
            r == *self,
    {
        JobSpec {
            name: self.name.clone(),
            schedule: self.schedule.clone(),
            command: self.command.clone(),
            args: self.args.clone(),
        }
    }
}

/// A job that is armed.
#[derive(Debug)]
pub struct ScheduledJob {
    pub id: u64,
    pub spec: JobSpec,
    pub schedule: CronSchedule,
    pub next_fire: u64,
}

/// Why a job was not registered.
#[derive(Clone, Copy, Debug, PartialEq, Eq, Structural)]
pub enum RegisterError {
    /// The schedule is no cron expression.
    Parse(ParseError),
    /// The schedule never fires within the days searched.
    NoMatch,
}

/// Why a job was not armed again.
#[derive(Clone, Copy, Debug, PartialEq, Eq, Structural)]
pub enum AdvanceError {
    /// No job with this identity is registered.
    UnknownJob,
    /// The schedule never fires again within the days searched; the job
    /// has left the registry.
    Exhausted,
}

/// Whether a job that fires at `t1` and has identity `id1` comes no later
/// in the order of dispatch than one that fires at `t2` with `id2`:
/// earlier instants first, and among equal instants the lesser identity.
pub open spec fn fires_no_later(t1: u64, id1: u64, t2: u64, id2: u64) -> bool {
    t1 < t2 || (t1 == t2 && id1 <= id2)
}

/// The jobs are in order of identity, no identity twice.
pub open spec fn ascending(jobs: Seq<ScheduledJob>) -> bool {
    forall|i: int, j: int| 0 <= i < j < jobs.len() ==> jobs[i].id < jobs[j].id
}

/// Whether a job with identity `id` is among `jobs`.
pub open spec fn holds(jobs: Seq<ScheduledJob>, id: u64) -> bool {
    exists|i: int| 0 <= i < jobs.len() && #[trigger] jobs[i].id == id
}

/// The index in `jobs` of a job with identity `id`.
pub open spec fn index_of(jobs: Seq<ScheduledJob>, id: u64) -> int {
    choose|i: int| 0 <= i < jobs.len() && #[trigger] jobs[i].id == id
}

/// The jobs by their identities.
pub open spec fn by_id(jobs: Seq<ScheduledJob>) -> Map<u64, ScheduledJob> {
    Map::new(|id: u64| holds(jobs, id), |id: u64| jobs[index_of(jobs, id)])
}

/// Each of the jobs is found under its own identity.
pub proof fn lemma_by_id_at(jobs: Seq<ScheduledJob>, i: int)
    requires
        ascending(jobs),
        0 <= i < jobs.len(),
    ensures
        by_id(jobs).contains_key(jobs[i].id),
        by_id(jobs)[jobs[i].id] == jobs[i],
        index_of(jobs, jobs[i].id) == i,
{
    let id = jobs[i].id;
    assert(holds(jobs, id));
    let k = index_of(jobs, id);
    assert(0 <= k < jobs.len() && jobs[k].id == id);
    if k < i {
        assert(jobs[k].id < jobs[i].id);
    } else if i < k {
        assert(jobs[i].id < jobs[k].id);
    }
}

/// A job added at the end, with an identity above all others, is added
/// under that identity.
pub proof fn lemma_by_id_push(jobs: Seq<ScheduledJob>, job: ScheduledJob)
    requires
        ascending(jobs),
        forall|i: int| 0 <= i < jobs.len() ==> (#[trigger] jobs[i]).id < job.id,
    ensures
        ascending(jobs.push(job)),
        !by_id(jobs).contains_key(job.id),
        by_id(jobs.push(job)) == by_id(jobs).insert(job.id, job),
{
    let after = jobs.push(job);
    assert(ascending(after));
    assert forall|id: u64| by_id(after).contains_key(id) == by_id(jobs).insert(
        job.id,
        job,
    ).contains_key(id) by {
        if holds(after, id) {
            let k = index_of(after, id);
            if k < jobs.len() {
                assert(jobs[k].id == id);
            }
        }
        if holds(jobs, id) {
            let k = index_of(jobs, id);
            assert(after[k].id == id);
        }
        if id == job.id {
            assert(after[jobs.len() as int].id == id);
        }
    }
    assert forall|id: u64| by_id(after).contains_key(id) implies by_id(after)[id] == by_id(
        jobs,
    ).insert(job.id, job)[id] by {
        let k = index_of(after, id);
        lemma_by_id_at(after, k);
        if k < jobs.len() {
            lemma_by_id_at(jobs, k);
        }
    }
    assert(by_id(after) =~= by_id(jobs).insert(job.id, job));
    if holds(jobs, job.id) {
        let k = index_of(jobs, job.id);
        assert(jobs[k].id < job.id);
    }
}

/// A job taken out leaves under its identity, and no other does.
pub proof fn lemma_by_id_remove(jobs: Seq<ScheduledJob>, i: int)
    requires
        ascending(jobs),
        0 <= i < jobs.len(),
    ensures
        ascending(jobs.remove(i)),
        by_id(jobs.remove(i)) == by_id(jobs).remove(jobs[i].id),
{
    let after = jobs.remove(i);
    let gone = jobs[i].id;
    assert forall|a: int, b: int| 0 <= a < b < after.len() implies after[a].id < after[b].id by {
        let a0 = if a < i {
            a
        } else {
            a + 1
        };
        let b0 = if b < i {
            b
        } else {
            b + 1
        };
        assert(jobs[a0].id < jobs[b0].id);
    }
    assert forall|id: u64| by_id(after).contains_key(id) == by_id(jobs).remove(gone).contains_key(
        id,
    ) by {
        if holds(after, id) {
            let k = index_of(after, id);
            let k0 = if k < i {
                k
            } else {
                k + 1
            };
            assert(jobs[k0].id == id);
            if k0 < i {
                assert(jobs[k0].id < jobs[i].id);
            } else {
                assert(jobs[i].id < jobs[k0].id);
            }
        }
        if holds(jobs, id) && id != gone {
            let k = index_of(jobs, id);
            let k1 = if k < i {
                k
            } else {
                k - 1
            };
            assert(after[k1].id == id);
        }
    }
    assert forall|id: u64| by_id(after).contains_key(id) implies by_id(after)[id] == by_id(
        jobs,
    ).remove(gone)[id] by {
        let k = index_of(after, id);
        lemma_by_id_at(after, k);
        let k0 = if k < i {
            k
        } else {
            k + 1
        };
        lemma_by_id_at(jobs, k0);
    }
    assert(by_id(after) =~= by_id(jobs).remove(gone));
}

/// A job put in the place of one with the same identity takes its place
/// under that identity.
pub proof fn lemma_by_id_update(jobs: Seq<ScheduledJob>, i: int, job: ScheduledJob)
    requires
        ascending(jobs),
        0 <= i < jobs.len(),
        job.id == jobs[i].id,
    ensures
        ascending(jobs.update(i, job)),
        by_id(jobs.update(i, job)) == by_id(jobs).insert(job.id, job),
{
    let after = jobs.update(i, job);
    assert forall|a: int, b: int| 0 <= a < b < after.len() implies after[a].id < after[b].id by {
        assert(jobs[a].id < jobs[b].id);
    }
    assert forall|id: u64| by_id(after).contains_key(id) == by_id(jobs).insert(
        job.id,
        job,
    ).contains_key(id) by {
        if holds(after, id) {
            let k = index_of(after, id);
            assert(jobs[k].id == id);
        }
        if holds(jobs, id) {
            let k = index_of(jobs, id);
            assert(after[k].id == id);
        }
        if id == job.id {
            assert(after[i].id == id);
        }
    }
    assert forall|id: u64| by_id(after).contains_key(id) implies by_id(after)[id] == by_id(
        jobs,
    ).insert(job.id, job)[id] by {
        let k = index_of(after, id);
        lemma_by_id_at(after, k);
        lemma_by_id_at(jobs, k);
    }
    assert(by_id(after) =~= by_id(jobs).insert(job.id, job));
}

/// There are as many identities as jobs.
pub proof fn lemma_by_id_len(jobs: Seq<ScheduledJob>)
    requires
        ascending(jobs),
    ensures
        by_id(jobs).dom().finite(),
        by_id(jobs).len() == jobs.len(),
{
    let ids = jobs.map_values(|j: ScheduledJob| j.id);
    assert forall|i: int, j: int| 0 <= i < ids.len() && 0 <= j < ids.len() && i != j implies ids[i]
        != ids[j] by {
        if i < j {
            assert(jobs[i].id < jobs[j].id);
        } else {
            assert(jobs[j].id < jobs[i].id);
        }
    }
    assert(ids.no_duplicates());
    ids.unique_seq_to_set();
    assert forall|id: u64| ids.to_set().contains(id) == by_id(jobs).dom().contains(id) by {
        if ids.to_set().contains(id) {
            let i = choose|i: int| 0 <= i < ids.len() && ids[i] == id;
            assert(jobs[i].id == id);
        }
        if holds(jobs, id) {
            let i = index_of(jobs, id);
            assert(ids[i] == id);
        }
    }
    assert(ids.to_set() =~= by_id(jobs).dom());
}

/// The registry of armed jobs.
#[derive(Debug)]
pub struct JobRegistry {
    jobs: Vec<ScheduledJob>,
    next_id: u64,
}

impl View for JobRegistry {
    type V = Map<u64, ScheduledJob>;

    closed spec fn view(&self) -> Map<u64, ScheduledJob> {
        by_id(self.jobs@)
    }
}

impl JobRegistry {
    /// The registry is in order: every job stands under its own identity,
    /// every identity is one that was issued, and every job's schedule is
    /// what its cron expression means.
    pub closed spec fn wf(&self) -> bool {
        &&& ascending(self.jobs@)
        &&& forall|i: int| 0 <= i < self.jobs@.len() ==> (#[trigger] self.jobs@[i]).id < self.next_id
        &&& forall|i: int|
            0 <= i < self.jobs@.len() ==> parse_text((#[trigger] self.jobs@[i]).spec.schedule@)
                == Ok::<ScheduleView, ParseError>(self.jobs@[i].schedule@)
    }

    /// The number of identities issued so far, which is the next to be issued.
    pub closed spec fn issued(&self) -> u64 {
        self.next_id
    }

    /// What holds of every job of a registry that is in order.
    pub proof fn lemma_wf(&self)
        requires
            self.wf(),
        ensures
            self@.dom().finite(),
            forall|id: u64| #[trigger]
                self@.contains_key(id) ==> {
                    &&& self@[id].id == id
                    &&& id < self.issued()
                    &&& parse_text(self@[id].spec.schedule@) == Ok::<ScheduleView, ParseError>(
                        self@[id].schedule@,
                    )
                },
    {
        lemma_by_id_len(self.jobs@);
        assert forall|id: u64| #[trigger] self@.contains_key(id) implies {
            &&& self@[id].id == id
            &&& id < self.issued()
            &&& parse_text(self@[id].spec.schedule@) == Ok::<ScheduleView, ParseError>(
                self@[id].schedule@,
            )
        } by {
            let i = index_of(self.jobs@, id);
            lemma_by_id_at(self.jobs@, i);
        }
    }

    /// A registry without jobs.
    pub fn new() -> (r: JobRegistry)
        ensures
            r.wf(),
            r@ == Map::<u64, ScheduledJob>::empty(),
            r.issued() == 0,
    {
        let r = JobRegistry { jobs: Vec::new(), next_id: 0 };
        assert(r@ =~= Map::<u64, ScheduledJob>::empty());
        r
    }

    /// The number of jobs.
    pub fn len(&self) -> (r: usize)
        requires
            self.wf(),
        ensures
            r == self@.len(),
    {
        proof {
            lemma_by_id_len(self.jobs@);
        }
        self.jobs.len()
    }

    /// Whether there is no job.
    pub fn is_empty(&self) -> (r: bool)
        requires
            self.wf(),
        ensures
            r == (self@.len() == 0),
    {
        proof {
            lemma_by_id_len(self.jobs@);
        }
        self.jobs.len() == 0
    }

    fn position(&self, id: u64) -> (r: Option<usize>)
        requires
            self.wf(),
        ensures
            match r {
                Some(i) => i < self.jobs@.len() && self.jobs@[i as int].id == id
                    && self@.contains_key(id) && self@[id] == self.jobs@[i as int],
                None => !self@.contains_key(id),
            },
    {
        let mut i: usize = 0;
        while i < self.jobs.len()
            invariant
                self.wf(),
                i <= self.jobs@.len(),
                forall|k: int| 0 <= k < i ==> (#[trigger] self.jobs@[k]).id != id,
            decreases self.jobs@.len() - i,
        {
            if self.jobs[i].id == id {
                proof {
                    lemma_by_id_at(self.jobs@, i as int);
                }
                return Some(i);
            }
            i = i + 1;
        }
        None
    }

    /// The job with identity `id`.
    pub fn get(&self, id: u64) -> (r: Option<&ScheduledJob>)
        requires
            self.wf(),
        ensures
            match r {
                Some(job) => self@.contains_key(id) && *job == self@[id],
                None => !self@.contains_key(id),
            },
    {
        match self.position(id) {
            Some(i) => Some(&self.jobs[i]),
            None => None,
        }
    }

    /// Registers a job and arms it for its first instant after `now`.
    ///
    /// The job is refused, and the registry left as it was, where the
    /// schedule is no cron expression or never fires within the days
    /// searched.
    pub fn register(&mut self, spec: JobSpec, now: u64) -> (r: Result<u64, RegisterError>)
        requires
            old(self).wf(),
            old(self).issued() < u64::MAX,
        ensures
            final(self).wf(),
            match r {
                Ok(id) => {
                    &&& id == old(self).issued()
                    &&& final(self).issued() == id + 1
                    &&& !old(self)@.contains_key(id)
                    &&& final(self)@ == old(self)@.insert(id, final(self)@[id])
                    &&& final(self)@[id].id == id
                    &&& final(self)@[id].spec == spec
                    &&& parse_text(spec.schedule@) == Ok::<ScheduleView, ParseError>(
                        final(self)@[id].schedule@,
                    )
                    &&& is_next_match(
                        final(self)@[id].schedule@,
                        now as int,
                        final(self)@[id].next_fire as int,
                    )
                },
                Err(RegisterError::Parse(e)) => {
                    &&& parse_text(spec.schedule@) == Err::<ScheduleView, ParseError>(e)
                    &&& *final(self) == *old(self)
                },
                Err(RegisterError::NoMatch) => {
                    &&& parse_text(spec.schedule@).is_ok()
                    &&& none_in_window(parse_text(spec.schedule@).unwrap(), now as int)
                    &&& *final(self) == *old(self)
                },
            },
    {
        let schedule = match CronSchedule::parse(spec.schedule.as_str()) {
            Ok(schedule) => schedule,
            Err(e) => {
                return Err(RegisterError::Parse(e));
            },
        };
        let next_fire = match schedule.next_after(now) {
            Ok(t) => t,
            Err(_) => {
                return Err(RegisterError::NoMatch);
            },
        };
        let id: u64 = self.next_id;
        let job = ScheduledJob { id, spec, schedule, next_fire };
        proof {
            lemma_by_id_push(self.jobs@, job);
            lemma_by_id_at(self.jobs@.push(job), self.jobs@.len() as int);
        }
        self.jobs.push(job);
        self.next_id = id + 1;
        Ok(id)
    }

    /// The job that fires next: the one with the earliest instant, and
    /// among those with the same instant the one with the least identity.
    pub fn next_due(&self) -> (r: Option<(u64, u64)>)
        requires
            self.wf(),
        ensures
            match r {
                Some((id, t)) => {
                    &&& self@.contains_key(id)
                    &&& self@[id].next_fire == t
                    &&& forall|k: u64| #[trigger]
                        self@.contains_key(k) ==> fires_no_later(t, id, self@[k].next_fire, k)
                },
                None => self@ == Map::<u64, ScheduledJob>::empty(),
            },
    {
        if self.jobs.len() == 0 {
            assert(self@ =~= Map::<u64, ScheduledJob>::empty());
            return None;
        }
        let mut best: usize = 0;
        let mut i: usize = 1;
        while i < self.jobs.len()
            invariant
                self.wf(),
                best < i <= self.jobs@.len(),
                forall|k: int|
                    0 <= k < i ==> fires_no_later(
                        self.jobs@[best as int].next_fire,
                        self.jobs@[best as int].id,
                        (#[trigger] self.jobs@[k]).next_fire,
                        self.jobs@[k].id,
                    ),
            decreases self.jobs@.len() - i,
        {
            if self.jobs[i].next_fire < self.jobs[best].next_fire {
                assert(forall|k: int| 0 <= k < i ==> (#[trigger] self.jobs@[k]).id < self.jobs@[i as int].id);
                best = i;
            } else {
                assert(self.jobs@[best as int].id < self.jobs@[i as int].id);
            }
            i = i + 1;
        }
        proof {
            lemma_by_id_at(self.jobs@, best as int);
            assert forall|k: u64| #[trigger] self@.contains_key(k) implies fires_no_later(
                self.jobs@[best as int].next_fire,
                self.jobs@[best as int].id,
                self@[k].next_fire,
                k,
            ) by {
                let j = index_of(self.jobs@, k);
                lemma_by_id_at(self.jobs@, j);
            }
        }
        Some((self.jobs[best].id, self.jobs[best].next_fire))
    }

    /// Arms the job again for its first instant after `after`.
    ///
    /// A job whose schedule never fires again within the days searched
    /// leaves the registry for good.
    pub fn advance(&mut self, id: u64, after: u64) -> (r: Result<u64, AdvanceError>)
        requires
            old(self).wf(),
        ensures
            final(self).wf(),
            final(self).issued() == old(self).issued(),
            match r {
                Ok(t) => {
                    &&& old(self)@.contains_key(id)
                    &&& t > after
                    &&& is_next_match(old(self)@[id].schedule@, after as int, t as int)
                    &&& final(self)@ == old(self)@.insert(id, final(self)@[id])
                    &&& final(self)@[id].next_fire == t
                    &&& final(self)@[id].id == id
                    &&& final(self)@[id].spec == old(self)@[id].spec
                    &&& final(self)@[id].schedule == old(self)@[id].schedule
                },
                Err(AdvanceError::UnknownJob) => {
                    &&& !old(self)@.contains_key(id)
                    &&& *final(self) == *old(self)
                },
                Err(AdvanceError::Exhausted) => {
                    &&& old(self)@.contains_key(id)
                    &&& none_in_window(old(self)@[id].schedule@, after as int)
                    &&& final(self)@ == old(self)@.remove(id)
                },
            },
    {
        let i: usize = match self.position(id) {
            Some(i) => i,
            None => {
                return Err(AdvanceError::UnknownJob);
            },
        };
        let ghost before = self.jobs@;
        let mut job = self.jobs.remove(i);
        proof {
            lemma_by_id_remove(before, i as int);
        }
        match job.schedule.next_after(after) {
            Ok(t) => {
                job.next_fire = t;
                proof {
                    lemma_by_id_update(before, i as int, job);
                    lemma_by_id_at(before.update(i as int, job), i as int);
                    assert(before.remove(i as int).insert(i as int, job) =~= before.update(
                        i as int,
                        job,
                    ));
                }
                self.jobs.insert(i, job);
                Ok(t)
            },
            Err(_) => Err(AdvanceError::Exhausted),
        }
    }

    /// Takes the job with identity `id` out of the registry.
    pub fn remove(&mut self, id: u64) -> (r: Option<ScheduledJob>)
        requires
            old(self).wf(),
        ensures
            final(self).wf(),
            final(self).issued() == old(self).issued(),
            match r {
                Some(job) => {
                    &&& old(self)@.contains_key(id)
                    &&& job == old(self)@[id]
                    &&& final(self)@ == old(self)@.remove(id)
                },
                None => !old(self)@.contains_key(id) && *final(self) == *old(self),
            },
    {
        match self.position(id) {
            Some(i) => {
                proof {
                    lemma_by_id_remove(self.jobs@, i as int);
                }
                Some(self.jobs.remove(i))
            },
            None => None,
        }
    }
}

/// How many of `results` are registrations that went through.
pub open spec fn accepted(results: Seq<Result<u64, RegisterError>>) -> nat
    decreases results.len(),
{
    if results.len() == 0 {
        0
    } else {
        accepted(results.drop_last()) + if results.last().is_ok() {
            1nat
        } else {
            0nat
        }
    }
}

/// Whether `result` is what registering `spec` at `now` gives, `jobs`
/// being the registry afterwards.
pub open spec fn is_registration(
    jobs: Map<u64, ScheduledJob>,
    spec: JobSpec,
    now: u64,
    result: Result<u64, RegisterError>,
) -> bool {
    match result {
        Ok(id) => {
            &&& jobs.contains_key(id)
            &&& jobs[id].id == id
            &&& jobs[id].spec == spec
            &&& parse_text(spec.schedule@) == Ok::<ScheduleView, ParseError>(jobs[id].schedule@)
            &&& is_next_match(jobs[id].schedule@, now as int, jobs[id].next_fire as int)
        },
        Err(RegisterError::Parse(e)) => parse_text(spec.schedule@) == Err::<
            ScheduleView,
            ParseError,
        >(e),
        Err(RegisterError::NoMatch) => {
            &&& parse_text(spec.schedule@).is_ok()
            &&& none_in_window(parse_text(spec.schedule@).unwrap(), now as int)
        },
    }
}

impl JobRegistry {
    /// Registers each of `specs` in turn. A job that is refused stops no
    /// other: the result at each index is that of the job at that index.
    pub fn register_all(&mut self, specs: &Vec<JobSpec>, now: u64) -> (r: Vec<
        Result<u64, RegisterError>,
    >)
        requires
            old(self).wf(),
            old(self).issued() + specs@.len() <= u64::MAX,
        ensures
            final(self).wf(),
            r@.len() == specs@.len(),
            forall|i: int|
                0 <= i < r@.len() ==> is_registration(final(self)@, specs@[i], now, #[trigger] r@[i]),
            forall|i: int|
                0 <= i < r@.len() && (#[trigger] r@[i]).is_ok() ==> !old(self)@.contains_key(
                    r@[i].unwrap(),
                ),
            forall|i: int, j: int|
                0 <= i < j < r@.len() && (#[trigger] r@[i]).is_ok() && (#[trigger] r@[j]).is_ok()
                    ==> r@[i].unwrap() < r@[j].unwrap(),
            forall|id: u64| #[trigger]
                old(self)@.contains_key(id) ==> final(self)@.contains_key(id) && final(self)@[id]
                    == old(self)@[id],
            forall|i: int|
                0 <= i < r@.len() && (#[trigger] r@[i]).is_ok() ==> r@[i].unwrap() == old(
                    self,
                ).issued() + accepted(r@.take(i)),
            final(self)@.dom() == old(self)@.dom().union(
                Set::new(|id: u64| old(self).issued() <= id < final(self).issued()),
            ),
            final(self)@.len() == old(self)@.len() + accepted(r@),
            final(self).issued() == old(self).issued() + accepted(r@),
    {
        let mut results: Vec<Result<u64, RegisterError>> = Vec::new();
        let mut k: usize = 0;
        proof {
            old(self).lemma_wf();
        }
        while k < specs.len()
            invariant
                self.wf(),
                k <= specs@.len(),
                results@.len() == k,
                old(self).issued() + specs@.len() <= u64::MAX,
                forall|i: int|
                    0 <= i < k ==> is_registration(self@, specs@[i], now, #[trigger] results@[i]),
                forall|i: int|
                    0 <= i < k && (#[trigger] results@[i]).is_ok() ==> !old(self)@.contains_key(
                        results@[i].unwrap(),
                    ) && results@[i].unwrap() < self.issued(),
                forall|i: int, j: int|
                    0 <= i < j < k && (#[trigger] results@[i]).is_ok() && (
                    #[trigger] results@[j]).is_ok() ==> results@[i].unwrap() < results@[j].unwrap(),
                forall|id: u64| #[trigger]
                    old(self)@.contains_key(id) ==> self@.contains_key(id) && self@[id] == old(
                        self,
                    )@[id],
                forall|id: u64| #[trigger] old(self)@.contains_key(id) ==> id < old(self).issued(),
                forall|i: int|
                    0 <= i < k && (#[trigger] results@[i]).is_ok() ==> results@[i].unwrap() == old(
                        self,
                    ).issued() + accepted(results@.take(i)),
                self@.dom() =~= old(self)@.dom().union(
                    Set::new(|id: u64| old(self).issued() <= id < self.issued()),
                ),
                self@.dom().finite(),
                self@.len() == old(self)@.len() + accepted(results@),
                self.issued() == old(self).issued() + accepted(results@),
                accepted(results@) <= k,
            decreases specs@.len() - k,
        {
            let ghost before = self@;
            let ghost done = results@;
            let result = self.register(specs[k].clone(), now);
            results.push(result);
            proof {
                assert(results@.drop_last() =~= done);
                self.lemma_wf();
                assert forall|i: int|
                    0 <= i < k + 1 && (#[trigger] results@[i]).is_ok() implies results@[i].unwrap()
                    == old(self).issued() + accepted(results@.take(i)) by {
                    if i < k {
                        assert(results@[i] == done[i]);
                        assert(results@.take(i) =~= done.take(i));
                    } else {
                        assert(results@.take(i) =~= done);
                    }
                }
                assert forall|i: int| 0 <= i < k + 1 implies is_registration(
                    self@,
                    specs@[i],
                    now,
                    #[trigger] results@[i],
                ) by {
                    if i < k {
                        assert(results@[i] == done[i]);
                        assert(is_registration(before, specs@[i], now, done[i]));
                    }
                }
            }
            k = k + 1;
        }
        assert(results@.take(k as int) =~= results@);
        results
    }
}

} // verus!
