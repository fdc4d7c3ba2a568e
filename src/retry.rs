//! Exponential backoff as a step function: the caller performs an attempt,
//! hands its outcome to `RetryPolicy::step`, and either stops or waits.
use vstd::prelude::*;

verus! {

/// Attempts allowed by the general retry helper.
pub const HELPER_MAX_ATTEMPTS: u32 = 5;

/// Attempts allowed for the node-status repair-and-write loop and for the
/// completion backfill.
pub const STORE_MAX_ATTEMPTS: u32 = 6;

/// First backoff of the retry helper and of the node-status write, in ms.
pub const BASE_BACKOFF_MS: u64 = 250;

/// First backoff of the completion backfill, in ms.
pub const COMPLETION_BACKOFF_MS: u64 = 1000;

/// How often an operation is tried, and how long to wait before the second try.
#[derive(Clone, Copy, Debug, PartialEq, Eq)]
pub struct RetryPolicy {
    pub max_attempts: u32,
    pub base_backoff_ms: u64,
}

/// Progress of one retried operation: failed attempts so far and the wait
/// that comes after the next failure.
#[derive(Clone, Copy, Debug, PartialEq, Eq)]
pub struct RetryState {
    pub failures: u32,
    pub backoff_ms: u64,
}

/// What the caller does after an attempt.
#[derive(Debug)]
pub enum RetryStep<T, E> {
    /// Stop and hand this result back.
    Finish(Result<T, E>),
    /// Sleep this many milliseconds, then try again.
    Wait(u64),
}

/// Doubling that stops at `u64::MAX`.
pub open spec fn saturating_double(b: u64) -> u64 {
    if b > u64::MAX / 2 {
        u64::MAX
    } else {
        (b * 2) as u64
    }
}

/// The wait after the `k`-th failure (counting from zero).
pub open spec fn backoff_after(base: u64, k: nat) -> u64
    decreases k,
{
    if k == 0 {
        base
    } else {
        saturating_double(backoff_after(base, (k - 1) as nat))
    }
}

/// Outcome of feeding the attempts' results in order, from `state` on:
/// the final result, or `None` when the results ran out first.
pub open spec fn run_from<T, E>(
    policy: RetryPolicy,
    state: RetryState,
    outcomes: Seq<Result<T, E>>,
) -> Option<Result<T, E>>
    decreases outcomes.len(),
{
    if outcomes.len() == 0 {
        None
    } else {
        match outcomes[0] {
            Ok(v) => Some(Ok(v)),
            Err(e) => if state.failures + 1 >= policy.max_attempts {
                Some(Err(e))
            } else {
                run_from(
                    policy,
                    RetryState {
                        failures: (state.failures + 1) as u32,
                        backoff_ms: saturating_double(state.backoff_ms),
                    },
                    outcomes.drop_first(),
                )
            },
        }
    }
}

/// Outcome of a whole retried operation whose attempts return `outcomes`.
pub open spec fn run<T, E>(policy: RetryPolicy, outcomes: Seq<Result<T, E>>) -> Option<Result<T, E>> {
    run_from(policy, RetryState { failures: 0, backoff_ms: policy.base_backoff_ms }, outcomes)
}

impl RetryPolicy {
    /// The general helper: five attempts, 250 ms, doubling.
    pub fn helper() -> (r: RetryPolicy)
        ensures
            r.max_attempts == HELPER_MAX_ATTEMPTS,
            r.base_backoff_ms == BASE_BACKOFF_MS,
    {
        RetryPolicy { max_attempts: HELPER_MAX_ATTEMPTS, base_backoff_ms: BASE_BACKOFF_MS }
    }

    /// The node-status repair-and-write loop: six attempts, 250 ms, doubling.
    pub fn node_status_write() -> (r: RetryPolicy)
        ensures
            r.max_attempts == STORE_MAX_ATTEMPTS,
            r.base_backoff_ms == BASE_BACKOFF_MS,
    {
        RetryPolicy { max_attempts: STORE_MAX_ATTEMPTS, base_backoff_ms: BASE_BACKOFF_MS }
    }

    /// The completion backfill: six attempts, one second, doubling.
    pub fn completion_backfill() -> (r: RetryPolicy)
        ensures
            r.max_attempts == STORE_MAX_ATTEMPTS,
            r.base_backoff_ms == COMPLETION_BACKOFF_MS,
    {
        RetryPolicy { max_attempts: STORE_MAX_ATTEMPTS, base_backoff_ms: COMPLETION_BACKOFF_MS }
    }

    /// The state before the first attempt.
    pub fn start(&self) -> (r: RetryState)
        ensures
            r.failures == 0,
            r.backoff_ms == self.base_backoff_ms,
    {
        RetryState { failures: 0, backoff_ms: self.base_backoff_ms }
    }

    /// Decide what follows an attempt. A success finishes at once; a failure
    /// finishes with its error once `max_attempts` attempts have failed, and
    /// otherwise asks for a wait of the current backoff, which then doubles.
    pub fn step<T, E>(&self, state: RetryState, outcome: Result<T, E>) -> (r: (
        RetryState,
        RetryStep<T, E>,
    ))
        requires
            state.failures < self.max_attempts,
        ensures
            match outcome {
                Ok(v) => r.1 == RetryStep::<T, E>::Finish(Ok(v)) && r.0 == state,
                Err(e) => if state.failures + 1 >= self.max_attempts {
                    r.1 == RetryStep::<T, E>::Finish(Err(e)) && r.0 == state
                } else {
                    r.1 == RetryStep::<T, E>::Wait(state.backoff_ms) && r.0 == (RetryState {
                        failures: (state.failures + 1) as u32,
                        backoff_ms: saturating_double(state.backoff_ms),
                    })
                },
            },
            r.0.failures < self.max_attempts,
    {
        match outcome {
            Ok(v) => (state, RetryStep::Finish(Ok(v))),
            Err(e) => {
                if state.failures + 1 >= self.max_attempts {
                    (state, RetryStep::Finish(Err(e)))
                } else {
                    let next = if state.backoff_ms > u64::MAX / 2 {
                        u64::MAX
                    } else {
                        state.backoff_ms * 2
                    };
                    (
                        RetryState { failures: state.failures + 1, backoff_ms: next },
                        RetryStep::Wait(state.backoff_ms),
                    )
                }
            },
        }
    }
}

/// Under the general helper, an operation that fails twice and then succeeds
/// returns the success of its third attempt.
pub proof fn helper_succeeds_on_third_attempt<T, E>(e1: E, e2: E, v: T)
    ensures
        run(RetryPolicy { max_attempts: HELPER_MAX_ATTEMPTS, base_backoff_ms: BASE_BACKOFF_MS },
            seq![Err(e1), Err(e2), Ok(v)]) == Some(Ok::<T, E>(v)),
{
    let p = RetryPolicy { max_attempts: HELPER_MAX_ATTEMPTS, base_backoff_ms: BASE_BACKOFF_MS };
    let s: Seq<Result<T, E>> = seq![Err(e1), Err(e2), Ok(v)];
    assert(s.drop_first() =~= seq![Err(e2), Ok(v)]);
    assert(s.drop_first().drop_first() =~= seq![Ok::<T, E>(v)]);
    reveal_with_fuel(run_from, 4);
}

/// Under the general helper, an operation that fails five times returns the
/// error of the fifth attempt, whatever later attempts would have returned.
pub proof fn helper_returns_last_error_after_five_failures<T, E>(
    errs: Seq<E>,
    rest: Seq<Result<T, E>>,
)
    requires
        errs.len() == 5,
    ensures
        run(RetryPolicy { max_attempts: HELPER_MAX_ATTEMPTS, base_backoff_ms: BASE_BACKOFF_MS },
            errs.map_values(|e: E| Err::<T, E>(e)) + rest) == Some(Err::<T, E>(errs[4])),
{
    let p = RetryPolicy { max_attempts: HELPER_MAX_ATTEMPTS, base_backoff_ms: BASE_BACKOFF_MS };
    let s = errs.map_values(|e: E| Err::<T, E>(e)) + rest;
    assert(s[0] == Err::<T, E>(errs[0]));
    assert(s.drop_first()[0] == Err::<T, E>(errs[1]));
    assert(s.drop_first().drop_first()[0] == Err::<T, E>(errs[2]));
    assert(s.drop_first().drop_first().drop_first()[0] == Err::<T, E>(errs[3]));
    assert(s.drop_first().drop_first().drop_first().drop_first()[0] == Err::<T, E>(errs[4]));
    reveal_with_fuel(run_from, 6);
}

} // verus!
