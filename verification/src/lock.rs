//! Waiting for the package database lock.
//!
//! A driver probes the lock, hands each observation to a [`LockWaiter`], and
//! does what the returned [`WaitStep`] says: run the guarded operation, sleep
//! and probe again, or give up. The readiness signal of the step goes to the
//! caller's observer on every poll.
use vstd::prelude::*;

verus! {

/// Milliseconds between two polls of the lock, and between two polls of a
/// running child process.
pub const POLL_INTERVAL_MS: u64 = 16;

/// Polls granted to every lock-gated command: at 16 ms each, about 48 seconds.
pub const APT_LOCK_ATTEMPTS: u32 = 3000;

/// What an attempt to take the lock, without blocking, came back with.
#[derive(Debug, Clone, Copy, PartialEq, Eq, Structural)]
pub enum ProbeOutcome {
    /// The lock could be taken: nobody else holds it.
    Acquired,
    /// The attempt failed because another process holds the lock.
    WouldBlock,
    /// The attempt failed for any other reason.
    Failed,
}

/// How a probe that failed for another reason than contention is read.
#[derive(Debug, Clone, Copy, PartialEq, Eq, Structural)]
pub enum ProbePolicy {
    /// Uncertainty counts as "free": a broken probe must not block the
    /// caller forever.
    FailOpen,
    /// Uncertainty counts as "locked": the caller waits, and may time out.
    FailClosed,
}

/// Whether a probe with this outcome counts as having found the lock held.
pub open spec fn probe_locked(outcome: ProbeOutcome, policy: ProbePolicy) -> bool {
    match outcome {
        ProbeOutcome::Acquired => false,
        ProbeOutcome::WouldBlock => true,
        ProbeOutcome::Failed => policy == ProbePolicy::FailClosed,
    }
}

/// Reads a probe's outcome as a lock state: `true` when the lock is held.
pub fn lock_found(outcome: ProbeOutcome, policy: ProbePolicy) -> (locked: bool)
    ensures
        locked == probe_locked(outcome, policy),
{
    match outcome {
        ProbeOutcome::Acquired => false,
        ProbeOutcome::WouldBlock => true,
        ProbeOutcome::Failed => match policy {
            ProbePolicy::FailOpen => false,
            ProbePolicy::FailClosed => true,
        },
    }
}

/// Reads the outcomes of the probes of several locks: the package database
/// counts as locked when any of them is found held.
pub fn locks_found(outcomes: &[ProbeOutcome], policy: ProbePolicy) -> (locked: bool)
    ensures
        locked == exists|i: int|
            0 <= i < outcomes@.len() && probe_locked(#[trigger] outcomes@[i], policy),
{
    let mut i: usize = 0;
    while i < outcomes.len()
        invariant
            i <= outcomes.len(),
            forall|j: int| 0 <= j < i ==> !probe_locked(#[trigger] outcomes@[j], policy),
        decreases outcomes.len() - i,
    {
        if lock_found(outcomes[i], policy) {
            return true;
        }
        i += 1;
    }
    false
}

/// The retry budget of one wait: how many polls may find the lock held, and
/// how many already did.
#[derive(Debug, PartialEq, Eq, Structural)]
pub struct LockWaiter {
    pub max_attempts: u32,
    pub attempts: u32,
}

/// What follows one observation of the lock.
#[derive(Debug, PartialEq, Eq, Structural)]
pub enum WaitStep {
    /// The lock was free: signal readiness, then run the operation, once.
    Proceed,
    /// The lock was held: signal that, sleep for `sleep_ms` milliseconds,
    /// probe again and hand that observation to the waiter `later`.
    Retry { later: LockWaiter, sleep_ms: u64 },
    /// The lock was held and the budget is spent: signal that, and report a
    /// timeout. The operation is not run.
    TimedOut,
}

impl WaitStep {
    /// The readiness signal that the caller's observer gets for this poll.
    pub open spec fn signal(self) -> bool {
        self is Proceed
    }

    /// The readiness signal that the caller's observer gets for this poll:
    /// `true` once the lock is free, `false` while it is held.
    pub fn readiness(&self) -> (ready: bool)
        ensures
            ready == self.signal(),
    {
        match self {
            WaitStep::Proceed => true,
            WaitStep::Retry { .. } => false,
            WaitStep::TimedOut => false,
        }
    }
}

impl LockWaiter {
    /// A waiter that has seen nothing yet.
    pub open spec fn fresh(max_attempts: u32) -> LockWaiter {
        LockWaiter { max_attempts, attempts: 0 }
    }

    /// The step that follows an observation: a free lock always proceeds; a
    /// held lock counts as one more attempt, which times out as soon as the
    /// count reaches the budget.
    pub open spec fn next(self, locked: bool) -> WaitStep {
        if !locked {
            WaitStep::Proceed
        } else if self.attempts + 1 >= self.max_attempts {
            WaitStep::TimedOut
        } else {
            WaitStep::Retry {
                later: LockWaiter {
                    max_attempts: self.max_attempts,
                    attempts: (self.attempts + 1) as u32,
                },
                sleep_ms: POLL_INTERVAL_MS,
            }
        }
    }

    /// Starts a wait that gives up once `max_attempts` polls found the lock held.
    pub fn new(max_attempts: u32) -> (waiter: LockWaiter)
        ensures
            waiter == LockWaiter::fresh(max_attempts),
    {
        LockWaiter { max_attempts, attempts: 0 }
    }

    /// Takes one observation of the lock (`locked` is `true` when another
    /// process holds it) and decides what the driver does next: a free lock
    /// lets the operation run; a held lock counts as one more attempt, and
    /// the wait times out as soon as the attempts reach the budget. The
    /// waiter is used up: only [`WaitStep::Retry`] hands one back, so nothing
    /// is left to poll with once the operation has run or the wait has
    /// timed out.
    pub fn observe(self, locked: bool) -> (step: WaitStep)
        ensures
            step == self.next(locked),
    {
        if !locked {
            WaitStep::Proceed
        } else if self.max_attempts == 0 || self.attempts >= self.max_attempts - 1 {
            WaitStep::TimedOut
        } else {
            WaitStep::Retry {
                later: LockWaiter { max_attempts: self.max_attempts, attempts: self.attempts + 1 },
                sleep_ms: POLL_INTERVAL_MS,
            }
        }
    }
}

/// How a wait ended, as far as the observations reach.
pub enum WaitOutcome {
    /// The lock was seen free and the operation ran, once.
    Ran,
    /// The budget was spent; the operation did not run.
    TimedOut,
    /// The observations ended before the wait did; the operation has not run.
    Waiting,
}

/// What a driver does over a whole wait: the readiness signals it sends, one
/// per poll and in order, how often it sleeps between two polls, and how the
/// wait ended.
pub struct WaitTrace {
    pub signals: Seq<bool>,
    pub sleeps: nat,
    pub outcome: WaitOutcome,
}

/// The trace of a driver that starts with `waiter` and finds the lock in the
/// states `observations` (`true`: held), one per poll.
pub open spec fn wait_trace(waiter: LockWaiter, observations: Seq<bool>) -> WaitTrace
    decreases observations.len(),
{
    if observations.len() == 0 {
        WaitTrace { signals: Seq::empty(), sleeps: 0, outcome: WaitOutcome::Waiting }
    } else {
        match waiter.next(observations[0]) {
            WaitStep::Proceed => WaitTrace {
                signals: seq![true],
                sleeps: 0,
                outcome: WaitOutcome::Ran,
            },
            WaitStep::TimedOut => WaitTrace {
                signals: seq![false],
                sleeps: 0,
                outcome: WaitOutcome::TimedOut,
            },
            WaitStep::Retry { later, sleep_ms } => {
                let rest = wait_trace(later, observations.drop_first());
                WaitTrace {
                    signals: seq![false] + rest.signals,
                    sleeps: rest.sleeps + 1,
                    outcome: rest.outcome,
                }
            },
        }
    }
}

/// The number of polls that a budget allows before the wait times out: a
/// budget of zero is spent by the first poll that finds the lock held, like
/// a budget of one.
pub open spec fn polls_allowed(max_attempts: u32) -> nat {
    if max_attempts == 0 {
        1
    } else {
        max_attempts as nat
    }
}

proof fn lemma_free_after_locked_polls_from(waiter: LockWaiter, n: nat, rest: Seq<bool>)
    requires
        waiter.attempts + n < waiter.max_attempts,
    ensures
        wait_trace(waiter, Seq::new(n, |i: int| true) + seq![false] + rest) == (WaitTrace {
            signals: Seq::new(n, |i: int| false).push(true),
            sleeps: n,
            outcome: WaitOutcome::Ran,
        }),
    decreases n,
{
    let observations = Seq::new(n, |i: int| true) + seq![false] + rest;
    if n == 0 {
        assert(!observations[0]);
        assert(Seq::new(n, |i: int| false).push(true) =~= seq![true]);
    } else {
        assert(observations[0]);
        let later = LockWaiter {
            max_attempts: waiter.max_attempts,
            attempts: (waiter.attempts + 1) as u32,
        };
        assert(waiter.next(true) == (WaitStep::Retry { later, sleep_ms: POLL_INTERVAL_MS }));
        let shorter = Seq::new((n - 1) as nat, |i: int| true) + seq![false] + rest;
        assert(observations.drop_first() =~= shorter);
        lemma_free_after_locked_polls_from(later, (n - 1) as nat, rest);
        assert(seq![false] + Seq::new((n - 1) as nat, |i: int| false).push(true) =~= Seq::new(
            n,
            |i: int| false,
        ).push(true));
    }
}

/// When the lock is found held on `n` polls and free on the next, with `n`
/// below the budget, the observer is told `false` exactly `n` times and then
/// `true` once, and the operation runs, once; the driver has slept `n`
/// times. Whatever the lock does afterwards (`rest`) is never looked at.
pub proof fn lemma_free_after_locked_polls(max_attempts: u32, n: nat, rest: Seq<bool>)
    requires
        n < max_attempts,
    ensures
        wait_trace(
            LockWaiter::fresh(max_attempts),
            Seq::new(n, |i: int| true) + seq![false] + rest,
        ) == (WaitTrace {
            signals: Seq::new(n, |i: int| false).push(true),
            sleeps: n,
            outcome: WaitOutcome::Ran,
        }),
{
    lemma_free_after_locked_polls_from(LockWaiter::fresh(max_attempts), n, rest);
}

proof fn lemma_timeout_when_never_free_from(waiter: LockWaiter, left: nat, observations: Seq<bool>)
    requires
        left >= 1,
        waiter.attempts + left == waiter.max_attempts || (left == 1 && waiter.attempts + 1
            >= waiter.max_attempts),
        observations.len() >= left,
        forall|i: int| 0 <= i < left ==> observations[i],
    ensures
        wait_trace(waiter, observations) == (WaitTrace {
            signals: Seq::new(left, |i: int| false),
            sleeps: (left - 1) as nat,
            outcome: WaitOutcome::TimedOut,
        }),
    decreases left,
{
    assert(observations[0]);
    if left == 1 {
        assert(Seq::new(left, |i: int| false) =~= seq![false]);
    } else {
        let later = LockWaiter {
            max_attempts: waiter.max_attempts,
            attempts: (waiter.attempts + 1) as u32,
        };
        assert(waiter.next(true) == (WaitStep::Retry { later, sleep_ms: POLL_INTERVAL_MS }));
        let shorter = observations.drop_first();
        assert forall|i: int| 0 <= i < left - 1 implies shorter[i] by {
            assert(shorter[i] == observations[i + 1]);
        }
        lemma_timeout_when_never_free_from(later, (left - 1) as nat, shorter);
        assert(seq![false] + Seq::new((left - 1) as nat, |i: int| false) =~= Seq::new(
            left,
            |i: int| false,
        ));
    }
}

/// When every poll that the budget allows finds the lock held, the wait
/// times out: the observer is told `false` on each of those polls, never
/// `true`, and the operation does not run. The driver sleeps between the
/// polls, not after the last.
pub proof fn lemma_timeout_when_never_free(max_attempts: u32, observations: Seq<bool>)
    requires
        observations.len() >= polls_allowed(max_attempts),
        forall|i: int| 0 <= i < polls_allowed(max_attempts) ==> observations[i],
    ensures
        wait_trace(LockWaiter::fresh(max_attempts), observations) == (WaitTrace {
            signals: Seq::new(polls_allowed(max_attempts), |i: int| false),
            sleeps: (polls_allowed(max_attempts) - 1) as nat,
            outcome: WaitOutcome::TimedOut,
        }),
{
    lemma_timeout_when_never_free_from(
        LockWaiter::fresh(max_attempts),
        polls_allowed(max_attempts),
        observations,
    );
}

/// A budget of zero does not skip the first probe: it behaves as a budget of
/// one. A lock found held on that probe times the wait out at once, after a
/// single `false` signal and without a sleep; a lock found free lets the
/// operation run.
pub proof fn lemma_zero_budget_allows_one_poll(observations: Seq<bool>)
    ensures
        wait_trace(LockWaiter::fresh(0), observations) == wait_trace(
            LockWaiter::fresh(1),
            observations,
        ),
        observations.len() > 0 && observations[0] ==> wait_trace(
            LockWaiter::fresh(0),
            observations,
        ) == (WaitTrace { signals: seq![false], sleeps: 0, outcome: WaitOutcome::TimedOut }),
{
}

/// What holds of every wait, whatever the lock does and whatever the waiter
/// has counted so far:
///
/// * the observer gets one signal per poll, and each says whether that poll
///   found the lock free;
/// * only the last signal can be `true`, and the operation has run exactly
///   when it is: never before the lock was seen free, and never twice;
/// * a wait that has neither run the operation nor timed out has used up
///   all its observations;
/// * the driver sleeps after every poll but the one that ends the wait.
pub proof fn lemma_wait_trace_shape(waiter: LockWaiter, observations: Seq<bool>)
    ensures
        ({
            let trace = wait_trace(waiter, observations);
            &&& trace.signals.len() <= observations.len()
            &&& forall|i: int|
                0 <= i < trace.signals.len() ==> trace.signals[i] == !observations[i]
            &&& forall|i: int| 0 <= i < trace.signals.len() - 1 ==> !trace.signals[i]
            &&& trace.outcome == WaitOutcome::Ran <==> trace.signals.len() > 0
                && trace.signals.last()
            &&& trace.outcome == WaitOutcome::Waiting ==> trace.signals.len()
                == observations.len()
            &&& trace.outcome != WaitOutcome::Waiting ==> trace.signals.len() == trace.sleeps + 1
            &&& trace.outcome == WaitOutcome::Waiting ==> trace.sleeps == trace.signals.len()
        }),
    decreases observations.len(),
{
    if observations.len() > 0 {
        match waiter.next(observations[0]) {
            WaitStep::Retry { later, sleep_ms } => {
                let shorter = observations.drop_first();
                lemma_wait_trace_shape(later, shorter);
                let rest = wait_trace(later, shorter);
                let trace = wait_trace(waiter, observations);
                assert(trace.signals == seq![false] + rest.signals);
                assert forall|i: int| 0 <= i < trace.signals.len() implies trace.signals[i]
                    == !observations[i] by {
                    if i > 0 {
                        assert(trace.signals[i] == rest.signals[i - 1]);
                        assert(shorter[i - 1] == observations[i]);
                    }
                }
                assert forall|i: int| 0 <= i < trace.signals.len() - 1 implies !trace.signals[i] by {
                    if i > 0 {
                        assert(trace.signals[i] == rest.signals[i - 1]);
                    }
                }
                if rest.signals.len() > 0 {
                    assert(trace.signals.last() == rest.signals.last());
                }
            },
            _ => {},
        }
    }
}

} // verus!
