use fedcore::job::{backoff_delay, ClaimError, DispatchConfig, JobQueue, JobState};

fn config(max_attempts: u32) -> DispatchConfig {
    DispatchConfig::new(max_attempts, 1, 30, 60).expect("at least one attempt")
}

#[test]
fn backoff_doubles_until_the_cap() {
    assert_eq!(backoff_delay(1, 30, 0), 1);
    assert_eq!(backoff_delay(1, 30, 1), 2);
    assert_eq!(backoff_delay(1, 30, 2), 4);
    assert_eq!(backoff_delay(1, 30, 3), 8);
    assert_eq!(backoff_delay(1, 30, 4), 16);
    assert_eq!(backoff_delay(1, 30, 5), 30);
    assert_eq!(backoff_delay(1, 30, 200), 30);
    assert_eq!(backoff_delay(3, 100, 3), 24);
}

#[test]
fn backoff_survives_large_values() {
    assert_eq!(backoff_delay(u64::MAX, u64::MAX, 7), u64::MAX);
    assert_eq!(backoff_delay(u64::MAX / 2 + 1, u64::MAX, 1), u64::MAX);
    assert_eq!(backoff_delay(0, 30, 12), 0);
    assert_eq!(backoff_delay(5, 0, 3), 0);
}

#[test]
fn config_needs_one_attempt() {
    assert!(DispatchConfig::new(0, 1, 30, 60).is_none());
    let cfg = DispatchConfig::new(1, 2, 3, 4).unwrap();
    assert_eq!(cfg.max_attempts, 1);
    assert_eq!(cfg.backoff_base, 2);
    assert_eq!(cfg.backoff_cap, 3);
    assert_eq!(cfg.visibility_timeout, 4);
}

#[test]
fn three_failures_then_success() {
    let mut q = JobQueue::new(config(10));
    let id = q.enqueue(7, vec![1, 2, 3], 0).unwrap();
    let mut now: u64 = 0;
    let mut delays: Vec<u64> = Vec::new();
    for _ in 0..3 {
        assert_eq!(q.claim(1, now), Some(id));
        assert_eq!(q.fail(id, 1, now), Ok(JobState::Queued));
        let job = q.get(id).unwrap();
        delays.push(job.run_after - now);
        // not due before its new start
        assert_eq!(q.claim(1, job.run_after - 1), None);
        now = q.get(id).unwrap().run_after;
    }
    assert_eq!(delays, vec![2, 4, 8]);
    assert_eq!(q.claim(1, now), Some(id));
    assert_eq!(q.complete(id, 1), Ok(()));
    let job = q.get(id).unwrap();
    assert_eq!(job.state, JobState::Completed);
    assert_eq!(job.attempts, 4);
    assert_eq!(job.payload, vec![1, 2, 3]);
    assert_eq!(job.kind, 7);
    assert_eq!(q.claim(1, u64::MAX), None);
}

#[test]
fn retry_delay_is_capped() {
    let mut q = JobQueue::new(config(100));
    let id = q.enqueue(0, vec![], 0).unwrap();
    let mut now: u64 = 0;
    let mut delays: Vec<u64> = Vec::new();
    for _ in 0..7 {
        assert_eq!(q.claim(9, now), Some(id));
        assert_eq!(q.settle(id, 9, false, now), Ok(JobState::Queued));
        let next = q.get(id).unwrap().run_after;
        delays.push(next - now);
        now = next;
    }
    assert_eq!(delays, vec![2, 4, 8, 16, 30, 30, 30]);
}

#[test]
fn exhausted_job_fails_and_is_never_claimed() {
    let mut q = JobQueue::new(config(2));
    let id = q.enqueue(0, vec![], 5).unwrap();
    assert_eq!(q.claim(1, 5), Some(id));
    assert_eq!(q.fail(id, 1, 5), Ok(JobState::Queued));
    assert_eq!(q.get(id).unwrap().attempts, 1);
    assert_eq!(q.claim(1, 100), Some(id));
    assert_eq!(q.fail(id, 1, 100), Ok(JobState::Failed));
    let job = q.get(id).unwrap();
    assert_eq!(job.state, JobState::Failed);
    assert_eq!(job.attempts, 2);
    assert_eq!(q.claim(1, 100), None);
    assert_eq!(q.claim(2, u64::MAX), None);
    q.reclaim_expired(u64::MAX);
    assert_eq!(q.get(id).unwrap().state, JobState::Failed);
    assert_eq!(q.claim(3, u64::MAX), None);
    assert_eq!(q.complete(id, 1), Err(ClaimError::NotHeld));
}

#[test]
fn single_attempt_fails_at_once() {
    let mut q = JobQueue::new(config(1));
    let id = q.enqueue(0, vec![], 0).unwrap();
    assert_eq!(q.claim(1, 0), Some(id));
    assert_eq!(q.settle(id, 1, false, 0), Ok(JobState::Failed));
    assert_eq!(q.claim(1, 1000), None);
}

#[test]
fn one_worker_per_job() {
    let mut q = JobQueue::new(config(5));
    let id = q.enqueue(0, vec![], 0).unwrap();
    assert_eq!(q.claim(1, 0), Some(id));
    assert_eq!(q.claim(2, 0), None);
    assert_eq!(q.claim(2, 59), None);
    assert_eq!(q.get(id).unwrap().state, JobState::Running { worker: 1, since: 0 });
    assert_eq!(q.complete(id, 2), Err(ClaimError::NotHeld));
    assert_eq!(q.fail(id, 2, 10), Err(ClaimError::NotHeld));
    assert_eq!(q.get(id).unwrap().state, JobState::Running { worker: 1, since: 0 });
    assert_eq!(q.complete(id, 1), Ok(()));
    assert_eq!(q.complete(id, 1), Err(ClaimError::NotHeld));
}

#[test]
fn abandoned_lease_is_reclaimed() {
    let mut q = JobQueue::new(config(5));
    let id = q.enqueue(0, vec![], 0).unwrap();
    assert_eq!(q.claim(1, 10), Some(id));
    q.reclaim_expired(69);
    assert_eq!(q.get(id).unwrap().state, JobState::Running { worker: 1, since: 10 });
    q.reclaim_expired(70);
    assert_eq!(q.get(id).unwrap().state, JobState::Queued);
    assert_eq!(q.get(id).unwrap().attempts, 0);
    assert_eq!(q.claim(2, 70), Some(id));
    // the first worker's claim is gone
    assert_eq!(q.complete(id, 1), Err(ClaimError::NotHeld));
    assert_eq!(q.settle(id, 2, true, 71), Ok(JobState::Completed));
    assert_eq!(q.get(id).unwrap().attempts, 1);
}

#[test]
fn earliest_due_job_first_then_insertion_order() {
    let mut q = JobQueue::new(config(5));
    let a = q.enqueue(0, vec![], 10).unwrap();
    let b = q.enqueue(0, vec![], 5).unwrap();
    let c = q.enqueue(0, vec![], 5).unwrap();
    let d = q.enqueue(0, vec![], 50).unwrap();
    assert_eq!((a, b, c, d), (0, 1, 2, 3));
    assert_eq!(q.len(), 4);
    assert_eq!(q.claim(1, 4), None);
    assert_eq!(q.claim(1, 20), Some(b));
    assert_eq!(q.claim(2, 20), Some(c));
    assert_eq!(q.claim(3, 20), Some(a));
    assert_eq!(q.claim(4, 20), None);
    assert_eq!(q.claim(4, 50), Some(d));
}

#[test]
fn unknown_job_is_reported() {
    let mut q = JobQueue::new(config(5));
    assert_eq!(q.complete(3, 1), Err(ClaimError::UnknownJob));
    assert_eq!(q.fail(3, 1, 0), Err(ClaimError::UnknownJob));
    assert_eq!(q.settle(3, 1, true, 0), Err(ClaimError::UnknownJob));
    assert!(q.get(3).is_none());
    assert_eq!(q.position(3), None);
    let id = q.enqueue(1, vec![9], 0).unwrap();
    assert_eq!(q.position(id), Some(0));
    assert_eq!(q.complete(id, 1), Err(ClaimError::NotHeld));
}

#[test]
fn retry_start_saturates() {
    let mut q = JobQueue::new(DispatchConfig::new(5, 10, 1000, 60).unwrap());
    let id = q.enqueue(0, vec![], 0).unwrap();
    assert_eq!(q.claim(1, u64::MAX - 3), Some(id));
    assert_eq!(q.fail(id, 1, u64::MAX - 3), Ok(JobState::Queued));
    assert_eq!(q.get(id).unwrap().run_after, u64::MAX);
}

#[test]
fn finished_jobs_are_archived() {
    let mut q = JobQueue::new(config(1));
    let a = q.enqueue(0, vec![1], 0).unwrap();
    let b = q.enqueue(0, vec![2], 0).unwrap();
    let c = q.enqueue(0, vec![3], 0).unwrap();
    let d = q.enqueue(0, vec![4], 0).unwrap();
    assert_eq!(q.claim(1, 0), Some(a));
    assert_eq!(q.complete(a, 1), Ok(()));
    assert_eq!(q.claim(1, 0), Some(b));
    assert_eq!(q.claim(2, 0), Some(c));
    assert_eq!(q.fail(c, 2, 0), Ok(JobState::Failed));
    let done = q.take_finished();
    assert_eq!(done.iter().map(|j| (j.id, j.state)).collect::<Vec<_>>(), vec![(a, JobState::Completed), (c, JobState::Failed)]);
    assert_eq!(q.len(), 2);
    assert_eq!(q.position(b), Some(0));
    assert_eq!(q.position(d), Some(1));
    assert!(q.get(a).is_none());
    assert_eq!(q.get(b).unwrap().state, JobState::Running { worker: 1, since: 0 });
    assert_eq!(q.take_finished().len(), 0);
    assert_eq!(q.enqueue(0, vec![], 0), Some(4));
}
