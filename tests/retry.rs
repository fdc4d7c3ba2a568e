use rtes::retry::{RetryPolicy, RetryState, RetryStep};

fn run(policy: RetryPolicy, outcomes: Vec<Result<u32, String>>) -> (Option<Result<u32, String>>, Vec<u64>, usize) {
    let mut state = policy.start();
    let mut waits = Vec::new();
    let mut attempts = 0;
    for outcome in outcomes {
        attempts += 1;
        let (next, step) = policy.step(state, outcome);
        state = next;
        match step {
            RetryStep::Finish(r) => return (Some(r), waits, attempts),
            RetryStep::Wait(ms) => waits.push(ms),
        }
    }
    (None, waits, attempts)
}

#[test]
fn succeeds_on_the_third_attempt() {
    let (r, waits, attempts) =
        run(RetryPolicy::helper(), vec![Err("a".into()), Err("b".into()), Ok(7), Ok(8)]);
    assert_eq!(r, Some(Ok(7)));
    assert_eq!(attempts, 3);
    assert_eq!(waits, vec![250, 500]);
}

#[test]
fn returns_the_last_error_after_five_failures() {
    let errs: Vec<Result<u32, String>> = (1..=6).map(|i| Err(format!("e{i}"))).collect();
    let (r, waits, attempts) = run(RetryPolicy::helper(), errs);
    assert_eq!(r, Some(Err("e5".to_string())));
    assert_eq!(attempts, 5);
    assert_eq!(waits, vec![250, 500, 1000, 2000]);
}

#[test]
fn store_policies() {
    let w = RetryPolicy::node_status_write();
    assert_eq!((w.max_attempts, w.base_backoff_ms), (6, 250));
    let c = RetryPolicy::completion_backfill();
    assert_eq!((c.max_attempts, c.base_backoff_ms), (6, 1000));
    let errs: Vec<Result<u32, String>> = (1..=6).map(|i| Err(format!("e{i}"))).collect();
    let (r, waits, _) = run(c, errs);
    assert_eq!(r, Some(Err("e6".to_string())));
    assert_eq!(waits, vec![1000, 2000, 4000, 8000, 16000]);
}

#[test]
fn backoff_saturates() {
    let policy = RetryPolicy { max_attempts: 3, base_backoff_ms: u64::MAX - 1 };
    let (state, step) = policy.step(policy.start(), Err::<u32, u32>(1));
    assert!(matches!(step, RetryStep::Wait(ms) if ms == u64::MAX - 1));
    assert_eq!(state, RetryState { failures: 1, backoff_ms: u64::MAX });
}
