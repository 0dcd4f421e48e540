//! Background jobs: retry schedule, per-job state machine and the shared queue.

use vstd::prelude::*;

verus! {

/// The delay before capping: `base` doubled `attempt` times.
pub open spec fn raw_delay(base: nat, attempt: nat) -> nat
    decreases attempt,
{
    if attempt == 0 {
        base
    } else {
        2 * raw_delay(base, (attempt - 1) as nat)
    }
}

/// The retry delay after `attempt` failed attempts: exponential, never above `cap`.
pub open spec fn spec_backoff(base: nat, cap: nat, attempt: nat) -> nat {
    if raw_delay(base, attempt) < cap {
        raw_delay(base, attempt)
    } else {
        cap
    }
}

/// The uncapped delay never shrinks as attempts accumulate.
pub proof fn lemma_raw_delay_monotone(base: nat, a: nat, b: nat)
    requires
        a <= b,
    ensures
        raw_delay(base, a) <= raw_delay(base, b),
    decreases b,
{
    if a < b {
        lemma_raw_delay_monotone(base, a, (b - 1) as nat);
    }
}

/// Computes the capped exponential delay without overflow.
pub fn backoff_delay(base: u64, cap: u64, attempt: u32) -> (delay: u64)
    ensures
        delay as nat == spec_backoff(base as nat, cap as nat, attempt as nat),
{
    let mut d: u64 = base;
    let mut i: u32 = 0;
    while i < attempt
        invariant
            i <= attempt,
            d as nat == raw_delay(base as nat, i as nat),
        decreases attempt - i,
    {
        if d >= cap {
            proof {
                lemma_raw_delay_monotone(base as nat, i as nat, attempt as nat);
            }
            return cap;
        }
        if d > cap - d {
            proof {
                lemma_raw_delay_monotone(base as nat, (i + 1) as nat, attempt as nat);
            }
            return cap;
        }
        d = d + d;
        i = i + 1;
    }
    if d < cap {
        d
    } else {
        cap
    }
}


/// `a + b`, held at the largest representable instant.
pub open spec fn spec_sat_add(a: u64, b: u64) -> u64 {
    if a + b > u64::MAX {
        u64::MAX
    } else {
        (a + b) as u64
    }
}

/// Where a job stands in its life cycle.
#[derive(Clone, Copy, Debug, PartialEq, Eq, Structural)]
pub enum JobState {
    Queued,
    Running { worker: u64, since: u64 },
    Failed,
    Completed,
}

/// Why a completion or failure report was not accepted.
#[derive(Clone, Copy, Debug, PartialEq, Eq, Structural)]
pub enum ClaimError {
    /// No job with that id is known to the queue.
    UnknownJob,
    /// The job is not running under the reporting worker's claim.
    NotHeld,
}

/// Retry and lease settings shared by all workers of one queue.
#[derive(Clone, Copy, Debug, PartialEq, Eq, Structural)]
pub struct DispatchConfig {
    pub max_attempts: u32,
    pub backoff_base: u64,
    pub backoff_cap: u64,
    pub visibility_timeout: u64,
}

impl DispatchConfig {
    /// A usable configuration allows at least one attempt.
    pub open spec fn wf(self) -> bool {
        self.max_attempts >= 1
    }

    /// Builds a configuration; refuses one that would allow no attempt at all.
    pub fn new(max_attempts: u32, backoff_base: u64, backoff_cap: u64, visibility_timeout: u64) -> (r: Option<DispatchConfig>)
        ensures
            r.is_some() <==> max_attempts >= 1,
            r.is_some() ==> r.unwrap() == (DispatchConfig { max_attempts, backoff_base, backoff_cap, visibility_timeout }),
    {
        if max_attempts >= 1 {
            Some(DispatchConfig { max_attempts, backoff_base, backoff_cap, visibility_timeout })
        } else {
            None
        }
    }
}

/// One unit of background work.
#[derive(Debug)]
pub struct Job {
    pub id: u64,
    pub kind: u32,
    pub payload: Vec<u8>,
    pub enqueued_at: u64,
    pub attempts: u32,
    pub run_after: u64,
    pub state: JobState,
}

impl Job {
    /// Queued and past its earliest start.
    pub open spec fn is_due(self, now: u64) -> bool {
        self.state == JobState::Queued && self.run_after <= now
    }

    /// Running under the claim of `worker`.
    pub open spec fn held_by(self, worker: u64) -> bool {
        match self.state {
            JobState::Running { worker: w, .. } => w == worker,
            _ => false,
        }
    }

    /// Running, with a claim older than the visibility timeout.
    pub open spec fn lease_expired(self, now: u64, timeout: u64) -> bool {
        match self.state {
            JobState::Running { since, .. } => since + timeout <= now,
            _ => false,
        }
    }

    /// Failed or completed: no transition leaves these states.
    pub open spec fn is_terminal(self) -> bool {
        self.state == JobState::Failed || self.state == JobState::Completed
    }

    /// A job that may still run has attempts to spare.
    pub open spec fn wf(self, cfg: DispatchConfig) -> bool {
        !self.is_terminal() ==> self.attempts < cfg.max_attempts
    }

    /// The job once `worker` has claimed it at `now`.
    pub open spec fn after_claim(self, worker: u64, now: u64) -> Job {
        Job { state: JobState::Running { worker, since: now }, ..self }
    }

    /// The job once its handler has succeeded: completed, the attempt counted.
    pub open spec fn after_success(self) -> Job {
        Job { attempts: (self.attempts + 1) as u32, state: JobState::Completed, ..self }
    }

    /// The job once its handler has failed at `now`: the attempt counted;
    /// queued again after the capped exponential delay while attempts are
    /// left, failed for good otherwise.
    pub open spec fn after_failure(self, now: u64, cfg: DispatchConfig) -> Job {
        let n = (self.attempts + 1) as u32;
        if n < cfg.max_attempts {
            Job {
                attempts: n,
                run_after: spec_sat_add(
                    now,
                    spec_backoff(cfg.backoff_base as nat, cfg.backoff_cap as nat, n as nat) as u64,
                ),
                state: JobState::Queued,
                ..self
            }
        } else {
            Job { attempts: n, state: JobState::Failed, ..self }
        }
    }

    /// The job once its abandoned claim has been released.
    pub open spec fn after_reclaim(self) -> Job {
        Job { state: JobState::Queued, ..self }
    }

    /// Queued → Running: records the claiming worker and the start of its lease.
    pub(crate) fn claim(&mut self, worker: u64, now: u64)
        requires
            old(self).state == JobState::Queued,
        ensures
            *final(self) == old(self).after_claim(worker, now),
    {
        self.state = JobState::Running { worker, since: now };
    }

    /// Running → Completed: counts the successful attempt.
    pub(crate) fn succeed(&mut self)
        requires
            old(self).attempts < u32::MAX,
        ensures
            *final(self) == old(self).after_success(),
    {
        self.attempts = self.attempts + 1;
        self.state = JobState::Completed;
    }

    /// Running → Queued with a later start, or → Failed once the attempts are used up.
    pub(crate) fn fail(&mut self, now: u64, cfg: &DispatchConfig)
        requires
            old(self).attempts < u32::MAX,
        ensures
            *final(self) == old(self).after_failure(now, *cfg),
    {
        let n: u32 = self.attempts + 1;
        self.attempts = n;
        if n < cfg.max_attempts {
            let delay: u64 = backoff_delay(cfg.backoff_base, cfg.backoff_cap, n);
            self.run_after = now.saturating_add(delay);
            self.state = JobState::Queued;
        } else {
            self.state = JobState::Failed;
        }
    }

    /// Running → Queued after an abandoned lease; attempts and schedule are kept.
    pub(crate) fn reclaim(&mut self)
        ensures
            *final(self) == old(self).after_reclaim(),
    {
        self.state = JobState::Queued;
    }

    /// Whether a claim taken at `since` has outlived `timeout` at `now`.
    pub fn lease_is_expired(&self, now: u64, timeout: u64) -> (r: bool)
        ensures
            r == self.lease_expired(now, timeout),
    {
        match self.state {
            JobState::Running { since, .. } => now >= since && now - since >= timeout,
            _ => false,
        }
    }
}


/// Ids grow with insertion order, stay below `next_id`, and every job is well formed.
pub open spec fn jobs_wf(jobs: Seq<Job>, cfg: DispatchConfig, next_id: u64) -> bool {
    &&& forall|i: int| 0 <= i < jobs.len() ==> (#[trigger] jobs[i]).wf(cfg) && jobs[i].id < next_id
    &&& forall|i: int, j: int| 0 <= i < j < jobs.len() ==> (#[trigger] jobs[i]).id < (#[trigger] jobs[j]).id
}

/// Job `i` is the one a claim at `now` must take: due, with the earliest start
/// among the due jobs, and the first inserted among those that share that start.
pub open spec fn preferred(jobs: Seq<Job>, i: int, now: u64) -> bool {
    &&& 0 <= i < jobs.len()
    &&& jobs[i].is_due(now)
    &&& forall|j: int| 0 <= j < jobs.len() && (#[trigger] jobs[j]).is_due(now) ==> {
        ||| jobs[i].run_after < jobs[j].run_after
        ||| (jobs[i].run_after == jobs[j].run_after && i <= j)
    }
}

/// Every abandoned lease released, everything else untouched.
pub open spec fn reclaimed(jobs: Seq<Job>, now: u64, timeout: u64) -> Seq<Job> {
    Seq::new(
        jobs.len(),
        |i: int| if jobs[i].lease_expired(now, timeout) { jobs[i].after_reclaim() } else { jobs[i] },
    )
}

/// The shared queue: jobs in insertion order, with the state of each.
pub struct JobQueue {
    cfg: DispatchConfig,
    jobs: Vec<Job>,
    next_id: u64,
}

impl JobQueue {
    /// The jobs, in insertion order.
    pub closed spec fn view(&self) -> Seq<Job> {
        self.jobs@
    }

    /// The retry and lease settings the queue was made with.
    pub closed spec fn config(&self) -> DispatchConfig {
        self.cfg
    }

    /// The id the next enqueued job receives.
    pub closed spec fn upcoming_id(&self) -> u64 {
        self.next_id
    }

    /// The settings are usable and the jobs are well formed under them.
    pub open spec fn wf(&self) -> bool {
        self.config().wf() && jobs_wf(self@, self.config(), self.upcoming_id())
    }

    /// An empty queue under `cfg`.
    pub fn new(cfg: DispatchConfig) -> (q: JobQueue)
        requires
            cfg.wf(),
        ensures
            q.wf(),
            q@ == Seq::<Job>::empty(),
            q.config() == cfg,
            q.upcoming_id() == 0,
    {
        JobQueue { cfg, jobs: Vec::new(), next_id: 0 }
    }

    /// Number of jobs the queue knows, terminal ones included.
    pub fn len(&self) -> (n: usize)
        ensures
            n == self@.len(),
    {
        self.jobs.len()
    }

    /// Position of the job with `id`, if the queue knows it.
    pub fn position(&self, id: u64) -> (r: Option<usize>)
        ensures
            match r {
                Some(i) => i < self@.len() && self@[i as int].id == id,
                None => forall|k: int| 0 <= k < self@.len() ==> (#[trigger] self@[k]).id != id,
            },
    {
        let mut i: usize = 0;
        while i < self.jobs.len()
            invariant
                i <= self.jobs.len(),
                forall|k: int| 0 <= k < i ==> (#[trigger] self.jobs@[k]).id != id,
            decreases self.jobs.len() - i,
        {
            if self.jobs[i].id == id {
                return Some(i);
            }
            i = i + 1;
        }
        None
    }

    /// The job with `id`, if the queue knows it.
    pub fn get(&self, id: u64) -> (r: Option<&Job>)
        ensures
            match r {
                Some(job) => job.id == id && self@.contains(*job),
                None => forall|k: int| 0 <= k < self@.len() ==> (#[trigger] self@[k]).id != id,
            },
    {
        match self.position(id) {
            Some(i) => Some(&self.jobs[i]),
            None => None,
        }
    }

    /// Appends a new queued job that may start at once. Returns its id, or
    /// `None` when the id space is used up (the queue is then unchanged).
    pub fn enqueue(&mut self, kind: u32, payload: Vec<u8>, now: u64) -> (r: Option<u64>)
        requires
            old(self).wf(),
        ensures
            final(self).wf(),
            final(self).config() == old(self).config(),
            r.is_some() <==> old(self).upcoming_id() < u64::MAX,
            match r {
                Some(id) => {
                    &&& id == old(self).upcoming_id()
                    &&& final(self).upcoming_id() == id + 1
                    &&& final(self)@ == old(self)@.push(
                        Job {
                            id,
                            kind,
                            payload,
                            enqueued_at: now,
                            attempts: 0,
                            run_after: now,
                            state: JobState::Queued,
                        },
                    )
                },
                None => final(self)@ == old(self)@ && final(self).upcoming_id() == old(self).upcoming_id(),
            },
    {
        if self.next_id == u64::MAX {
            return None;
        }
        let id: u64 = self.next_id;
        self.jobs.push(Job { id, kind, payload, enqueued_at: now, attempts: 0, run_after: now, state: JobState::Queued });
        self.next_id = id + 1;
        Some(id)
    }

    /// Position of the job that a claim at `now` takes, if any job is due.
    fn pick(&self, now: u64) -> (r: Option<usize>)
        ensures
            match r {
                Some(i) => preferred(self@, i as int, now),
                None => forall|k: int| 0 <= k < self@.len() ==> !(#[trigger] self@[k]).is_due(now),
            },
    {
        let mut best: Option<usize> = None;
        let mut i: usize = 0;
        while i < self.jobs.len()
            invariant
                i <= self.jobs.len(),
                match best {
                    Some(b) => {
                        &&& b < i
                        &&& self.jobs@[b as int].is_due(now)
                        &&& forall|j: int| 0 <= j < i && (#[trigger] self.jobs@[j]).is_due(now) ==> {
                            ||| self.jobs@[b as int].run_after < self.jobs@[j].run_after
                            ||| (self.jobs@[b as int].run_after == self.jobs@[j].run_after && b <= j)
                        }
                    },
                    None => forall|k: int| 0 <= k < i ==> !(#[trigger] self.jobs@[k]).is_due(now),
                },
            decreases self.jobs.len() - i,
        {
            let due: bool = match self.jobs[i].state {
                JobState::Queued => self.jobs[i].run_after <= now,
                _ => false,
            };
            if due {
                match best {
                    Some(b) => {
                        if self.jobs[i].run_after < self.jobs[b].run_after {
                            best = Some(i);
                        }
                    },
                    None => {
                        best = Some(i);
                    },
                }
            }
            i = i + 1;
        }
        best
    }

    /// Hands the preferred due job to `worker`: Queued → Running, for exactly
    /// one job. Returns its id, or `None` when no job is due.
    pub fn claim(&mut self, worker: u64, now: u64) -> (r: Option<u64>)
        requires
            old(self).wf(),
        ensures
            final(self).wf(),
            final(self).config() == old(self).config(),
            final(self).upcoming_id() == old(self).upcoming_id(),
            steps_permitted(old(self)@, final(self)@),
            match r {
                Some(id) => exists|i: int|
                    {
                        &&& preferred(old(self)@, i, now)
                        &&& old(self)@[i].id == id
                        &&& final(self)@ == old(self)@.update(i, old(self)@[i].after_claim(worker, now))
                    },
                None => {
                    &&& final(self)@ == old(self)@
                    &&& forall|k: int| 0 <= k < old(self)@.len() ==> !(#[trigger] old(self)@[k]).is_due(now)
                },
            },
    {
        match self.pick(now) {
            Some(i) => {
                let id: u64 = self.jobs[i].id;
                self.jobs[i].claim(worker, now);
                assert(self.jobs@ == old(self)@.update(i as int, old(self)@[i as int].after_claim(worker, now)));
                Some(id)
            },
            None => None,
        }
    }

    /// Records that `worker` finished job `id`: Running → Completed. Refused,
    /// with the queue unchanged, unless `worker` holds the claim.
    pub fn complete(&mut self, id: u64, worker: u64) -> (r: Result<(), ClaimError>)
        requires
            old(self).wf(),
        ensures
            final(self).wf(),
            final(self).config() == old(self).config(),
            final(self).upcoming_id() == old(self).upcoming_id(),
            steps_permitted(old(self)@, final(self)@),
            r.is_ok() <==> spec_held(old(self)@, id, worker),
            match r {
                Ok(()) => exists|i: int|
                    {
                        &&& 0 <= i < old(self)@.len()
                        &&& old(self)@[i].id == id
                        &&& old(self)@[i].held_by(worker)
                        &&& final(self)@ == old(self)@.update(i, old(self)@[i].after_success())
                    },
                Err(e) => {
                    &&& final(self)@ == old(self)@
                    &&& e == spec_refusal(old(self)@, id, worker)
                },
            },
    {
        match self.position(id) {
            Some(i) => {
                let held: bool = match self.jobs[i].state {
                    JobState::Running { worker: w, .. } => w == worker,
                    _ => false,
                };
                if held {
                    self.jobs[i].succeed();
                    assert(self.jobs@ == old(self)@.update(i as int, old(self)@[i as int].after_success()));
                    Ok(())
                } else {
                    proof {
                        lemma_held_at(self@, self.cfg, self.next_id, i as int, worker);
                    }
                    Err(ClaimError::NotHeld)
                }
            },
            None => Err(ClaimError::UnknownJob),
        }
    }

    /// Records that `worker`'s attempt at job `id` failed: the job is queued
    /// again with a later start, or fails for good once its attempts are used
    /// up. Returns the state it was left in. Refused, with the queue
    /// unchanged, unless `worker` holds the claim.
    pub fn fail(&mut self, id: u64, worker: u64, now: u64) -> (r: Result<JobState, ClaimError>)
        requires
            old(self).wf(),
        ensures
            final(self).wf(),
            final(self).config() == old(self).config(),
            final(self).upcoming_id() == old(self).upcoming_id(),
            steps_permitted(old(self)@, final(self)@),
            r.is_ok() <==> spec_held(old(self)@, id, worker),
            match r {
                Ok(state) => exists|i: int|
                    {
                        &&& 0 <= i < old(self)@.len()
                        &&& old(self)@[i].id == id
                        &&& old(self)@[i].held_by(worker)
                        &&& final(self)@ == old(self)@.update(i, old(self)@[i].after_failure(now, old(self).config()))
                        &&& state == old(self)@[i].after_failure(now, old(self).config()).state
                    },
                Err(e) => {
                    &&& final(self)@ == old(self)@
                    &&& e == spec_refusal(old(self)@, id, worker)
                },
            },
    {
        match self.position(id) {
            Some(i) => {
                let held: bool = match self.jobs[i].state {
                    JobState::Running { worker: w, .. } => w == worker,
                    _ => false,
                };
                if held {
                    let cfg: DispatchConfig = self.cfg;
                    self.jobs[i].fail(now, &cfg);
                    assert(self.jobs@ == old(self)@.update(i as int, old(self)@[i as int].after_failure(now, cfg)));
                    Ok(self.jobs[i].state)
                } else {
                    proof {
                        lemma_held_at(self@, self.cfg, self.next_id, i as int, worker);
                    }
                    Err(ClaimError::NotHeld)
                }
            },
            None => Err(ClaimError::UnknownJob),
        }
    }

    /// Records how `worker`'s run of job `id` ended. A handler that
    /// returned an error and one that broke off are both failures: neither
    /// reaches the caller, both go through the retry schedule. Returns the
    /// state the job was left in.
    pub fn settle(&mut self, id: u64, worker: u64, succeeded: bool, now: u64) -> (r: Result<JobState, ClaimError>)
        requires
            old(self).wf(),
        ensures
            final(self).wf(),
            final(self).config() == old(self).config(),
            final(self).upcoming_id() == old(self).upcoming_id(),
            steps_permitted(old(self)@, final(self)@),
            r.is_ok() <==> spec_held(old(self)@, id, worker),
            match r {
                Ok(state) => exists|i: int|
                    {
                        &&& 0 <= i < old(self)@.len()
                        &&& old(self)@[i].id == id
                        &&& old(self)@[i].held_by(worker)
                        &&& final(self)@ == old(self)@.update(
                            i,
                            if succeeded {
                                old(self)@[i].after_success()
                            } else {
                                old(self)@[i].after_failure(now, old(self).config())
                            },
                        )
                        &&& state == final(self)@[i].state
                    },
                Err(e) => {
                    &&& final(self)@ == old(self)@
                    &&& e == spec_refusal(old(self)@, id, worker)
                },
            },
    {
        if succeeded {
            match self.complete(id, worker) {
                Ok(()) => Ok(JobState::Completed),
                Err(e) => Err(e),
            }
        } else {
            self.fail(id, worker, now)
        }
    }

    /// Takes the completed and failed jobs out of the queue, for the
    /// archive. What is left are the jobs still to run, in their order.
    pub fn take_finished(&mut self) -> (done: Vec<Job>)
        requires
            old(self).wf(),
        ensures
            final(self).wf(),
            final(self).config() == old(self).config(),
            final(self).upcoming_id() == old(self).upcoming_id(),
            final(self)@ == unfinished(old(self)@, old(self)@.len() as int),
            done@ == finished(old(self)@, old(self)@.len() as int),
    {
        let mut done: Vec<Job> = Vec::new();
        let mut i: usize = 0;
        let ghost mut seen: int = 0;
        while i < self.jobs.len()
            invariant
                0 <= seen <= old(self)@.len(),
                i <= self.jobs@.len(),
                self.cfg == old(self).cfg,
                self.next_id == old(self).next_id,
                self.cfg.wf(),
                jobs_wf(self.jobs@, self.cfg, self.next_id),
                self.jobs@.len() - i == old(self)@.len() - seen,
                self.jobs@ == unfinished(old(self)@, seen) + old(self)@.subrange(seen, old(self)@.len() as int),
                i == unfinished(old(self)@, seen).len(),
                done@ == finished(old(self)@, seen),
            decreases self.jobs@.len() - i,
        {
            let ghost before = self.jobs@;
            assert(before[i as int] == old(self)@[seen]);
            let terminal: bool = match self.jobs[i].state {
                JobState::Failed => true,
                JobState::Completed => true,
                _ => false,
            };
            if terminal {
                let job = self.jobs.remove(i);
                done.push(job);
                proof {
                    let after = self.jobs@;
                    assert forall|a: int| 0 <= a < after.len() implies #[trigger] after[a] == before[if a < i { a } else { a + 1 }] by {}
                    assert(jobs_wf(after, self.cfg, self.next_id)) by {
                        assert forall|a: int, b: int| 0 <= a < b < after.len() implies (#[trigger] after[a]).id < (#[trigger] after[b]).id by {
                            let a0 = if a < i { a } else { a + 1 };
                            let b0 = if b < i { b } else { b + 1 };
                            assert(before[a0].id < before[b0].id);
                        }
                    }
                    assert(after =~= unfinished(old(self)@, seen + 1) + old(self)@.subrange(seen + 1, old(self)@.len() as int));
                }
            } else {
                proof {
                    assert(before =~= unfinished(old(self)@, seen + 1) + old(self)@.subrange(seen + 1, old(self)@.len() as int));
                }
                i = i + 1;
            }
            proof {
                seen = seen + 1;
            }
        }
        assert(self.jobs@ =~= unfinished(old(self)@, old(self)@.len() as int));
        done
    }

    /// Releases every claim older than the visibility timeout, so that another
    /// worker may take the job: Running → Queued.
    pub fn reclaim_expired(&mut self, now: u64)
        requires
            old(self).wf(),
        ensures
            final(self).wf(),
            final(self).config() == old(self).config(),
            final(self).upcoming_id() == old(self).upcoming_id(),
            steps_permitted(old(self)@, final(self)@),
            final(self)@ == reclaimed(old(self)@, now, old(self).config().visibility_timeout),
    {
        let timeout: u64 = self.cfg.visibility_timeout;
        let mut i: usize = 0;
        while i < self.jobs.len()
            invariant
                i <= self.jobs.len(),
                self.jobs@.len() == old(self)@.len(),
                self.cfg == old(self).cfg,
                self.next_id == old(self).next_id,
                timeout == self.cfg.visibility_timeout,
                forall|k: int| 0 <= k < i ==> (#[trigger] self.jobs@[k]) == reclaimed(old(self)@, now, timeout)[k],
                forall|k: int| i <= k < self.jobs@.len() ==> (#[trigger] self.jobs@[k]) == old(self)@[k],
            decreases self.jobs.len() - i,
        {
            if self.jobs[i].lease_is_expired(now, timeout) {
                self.jobs[i].reclaim();
            }
            i = i + 1;
        }
        assert(self.jobs@ =~= reclaimed(old(self)@, now, timeout));
    }
}

/// The jobs among the first `upto` of `jobs` that may still run, in order.
pub open spec fn unfinished(jobs: Seq<Job>, upto: int) -> Seq<Job>
    decreases upto,
{
    if upto <= 0 {
        Seq::empty()
    } else if jobs[upto - 1].is_terminal() {
        unfinished(jobs, upto - 1)
    } else {
        unfinished(jobs, upto - 1).push(jobs[upto - 1])
    }
}

/// The jobs among the first `upto` of `jobs` that completed or failed, in order.
pub open spec fn finished(jobs: Seq<Job>, upto: int) -> Seq<Job>
    decreases upto,
{
    if upto <= 0 {
        Seq::empty()
    } else if jobs[upto - 1].is_terminal() {
        finished(jobs, upto - 1).push(jobs[upto - 1])
    } else {
        finished(jobs, upto - 1)
    }
}

/// Whether `worker` holds the claim on job `id`.
pub open spec fn spec_held(jobs: Seq<Job>, id: u64, worker: u64) -> bool {
    exists|k: int| 0 <= k < jobs.len() && (#[trigger] jobs[k]).id == id && jobs[k].held_by(worker)
}

proof fn lemma_held_at(jobs: Seq<Job>, cfg: DispatchConfig, next_id: u64, i: int, worker: u64)
    requires
        jobs_wf(jobs, cfg, next_id),
        0 <= i < jobs.len(),
    ensures
        spec_held(jobs, jobs[i].id, worker) == jobs[i].held_by(worker),
{
    if spec_held(jobs, jobs[i].id, worker) {
        let k = choose|k: int| 0 <= k < jobs.len() && (#[trigger] jobs[k]).id == jobs[i].id && jobs[k].held_by(worker);
        if k < i {
            assert(jobs[k].id < jobs[i].id);
        } else if i < k {
            assert(jobs[i].id < jobs[k].id);
        }
    }
}

/// Why a report on job `id` by `worker` is refused.
pub open spec fn spec_refusal(jobs: Seq<Job>, id: u64, worker: u64) -> ClaimError {
    if exists|k: int| 0 <= k < jobs.len() && (#[trigger] jobs[k]).id == id {
        ClaimError::NotHeld
    } else {
        ClaimError::UnknownJob
    }
}

/// A job that has failed for good is never due, never held and has no lease
/// to expire: no claim, report or reclaim applies to it again.
pub proof fn lemma_failed_is_never_claimed(jobs: Seq<Job>, i: int, worker: u64, now: u64, timeout: u64)
    requires
        0 <= i < jobs.len(),
        jobs[i].is_terminal(),
    ensures
        !preferred(jobs, i, now),
        !jobs[i].is_due(now),
        !jobs[i].held_by(worker),
        !jobs[i].lease_expired(now, timeout),
        reclaimed(jobs, now, timeout)[i] == jobs[i],
{
}

/// Exhausting the attempts ends in `Failed`: a failure that brings the count
/// to the configured maximum leaves the job failed, any earlier one queues it
/// again no earlier than `now`.
pub proof fn lemma_failure_outcome(job: Job, now: u64, cfg: DispatchConfig)
    requires
        job.attempts < u32::MAX,
    ensures
        job.attempts + 1 >= cfg.max_attempts <==> job.after_failure(now, cfg).state == JobState::Failed,
        job.attempts + 1 < cfg.max_attempts <==> job.after_failure(now, cfg).state == JobState::Queued,
        job.after_failure(now, cfg).attempts == job.attempts + 1,
        job.attempts + 1 < cfg.max_attempts ==> job.after_failure(now, cfg).run_after >= now,
        job.attempts + 1 < cfg.max_attempts ==> job.after_failure(now, cfg).run_after - now <= cfg.backoff_cap,
{
}

/// Whether `after` is `before` itself or one permitted step away from it:
/// queued to running, running to completed, failed or queued again. Nothing
/// leads out of a terminal state, and no step changes more of the job than
/// its state, its attempt count and its start.
pub open spec fn permitted_step(before: Job, after: Job) -> bool {
    &&& after.id == before.id
    &&& after.kind == before.kind
    &&& after.payload == before.payload
    &&& after.enqueued_at == before.enqueued_at
    &&& after.attempts >= before.attempts
    &&& match before.state {
        JobState::Queued => after.state == JobState::Queued || after.state is Running,
        JobState::Running { .. } => after == before || !(after.state is Running),
        JobState::Failed => after == before,
        JobState::Completed => after == before,
    }
}

/// Job by job, `after` is at most one permitted step away from `before`.
pub open spec fn steps_permitted(before: Seq<Job>, after: Seq<Job>) -> bool {
    &&& after.len() == before.len()
    &&& forall|k: int| 0 <= k < before.len() ==> permitted_step(#[trigger] before[k], after[k])
}

/// Every transition the queue makes is a permitted step, and the attempt
/// count never goes down.
pub proof fn lemma_transitions_are_permitted(job: Job, worker: u64, now: u64, cfg: DispatchConfig)
    requires
        job.attempts < u32::MAX,
    ensures
        job.is_due(now) ==> permitted_step(job, job.after_claim(worker, now)),
        job.held_by(worker) ==> permitted_step(job, job.after_success()),
        job.held_by(worker) ==> permitted_step(job, job.after_failure(now, cfg)),
        job.lease_expired(now, cfg.visibility_timeout) ==> permitted_step(job, job.after_reclaim()),
        job.after_success().state == JobState::Completed,
        job.after_success().attempts == job.attempts + 1,
{
}

/// Whatever the queue does in one operation, a job that has completed or
/// failed stays exactly as it is: it is never claimed, retried or reset.
pub proof fn lemma_terminal_jobs_stay(before: Seq<Job>, after: Seq<Job>, k: int)
    requires
        steps_permitted(before, after),
        0 <= k < before.len(),
        before[k].is_terminal(),
    ensures
        after[k] == before[k],
{
}

/// Whatever the queue does in one operation, a job that is running under
/// one worker's claim is not running under another's afterwards: a claim
/// ends before the next begins.
pub proof fn lemma_claims_are_not_taken_over(before: Seq<Job>, after: Seq<Job>, k: int, worker: u64, other: u64)
    requires
        steps_permitted(before, after),
        0 <= k < before.len(),
        before[k].held_by(worker),
        after[k].held_by(other),
    ensures
        other == worker,
        after[k] == before[k],
{
}

/// A claim never takes a job that is running: whoever held a claim before
/// still holds it afterwards, and the claimed job, which was queued, is held
/// by the new worker alone.
pub proof fn lemma_claim_is_exclusive(jobs: Seq<Job>, i: int, worker: u64, now: u64, k: int, other: u64)
    requires
        preferred(jobs, i, now),
        0 <= k < jobs.len(),
    ensures
        jobs[i].state == JobState::Queued,
        jobs[k].held_by(other) ==> k != i && jobs.update(i, jobs[i].after_claim(worker, now))[k].held_by(other),
        jobs.update(i, jobs[i].after_claim(worker, now))[i].held_by(other) <==> other == worker,
{
}

/// In a well-formed queue an id names one job, so the holder of the claim on
/// an id is one worker at most.
pub proof fn lemma_one_holder_per_id(jobs: Seq<Job>, cfg: DispatchConfig, next_id: u64, a: int, b: int, wa: u64, wb: u64)
    requires
        jobs_wf(jobs, cfg, next_id),
        0 <= a < jobs.len(),
        0 <= b < jobs.len(),
        jobs[a].id == jobs[b].id,
        jobs[a].held_by(wa),
        jobs[b].held_by(wb),
    ensures
        a == b,
        wa == wb,
{
    if a < b {
        assert(jobs[a].id < jobs[b].id);
    } else if b < a {
        assert(jobs[b].id < jobs[a].id);
    }
}

} // verus!
