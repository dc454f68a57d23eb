use vstd::prelude::*;

use crate::errors::Error;

verus! {

/// The completion state of one supervised solver run. The flag sits behind a
/// single lock together with the process handle; the watcher task and the
/// deadline path both read and drive it. Invariant of the design: once
/// `finished` is true the handle is not to be polled again, and the flag is
/// never reset to false.
pub struct SupervisorState {
    /// True once the child is known to have exited, or once the deadline path
    /// has taken over.
    pub finished: bool,
}

/// What the watcher task does after one look at the process.
#[derive(Debug, Clone, Copy, PartialEq, Eq, Structural)]
pub enum WatcherAction {
    /// The child just exited: the flag was set and the waiter must be woken.
    Notify,
    /// Nothing happened yet: sleep one polling interval and look again.
    Sleep,
}

/// Why the bounded wait woke up.
#[derive(Debug, Clone, Copy, PartialEq, Eq, Structural)]
pub enum WakeReason {
    /// The watcher notified the condition after setting the flag.
    Notified,
    /// An unrelated notification or a spurious wake-up.
    Spurious,
    /// The deadline elapsed.
    Timeout,
}

impl SupervisorState {
    /// A fresh supervision: the child is presumed running.
    pub fn new() -> (s: SupervisorState)
        ensures
            !s.finished,
    {
        SupervisorState { finished: false }
    }

    /// The watcher's first look under the lock: when the flag is already set,
    /// the supervision is over and the handle must not be polled again.
    pub fn watcher_should_stop(&self) -> (b: bool)
        ensures
            b == self.finished,
    {
        self.finished
    }

    /// The watcher observed one non-blocking exit probe. On a detected exit
    /// it sets the flag and asks for a notification; otherwise it leaves the
    /// state alone and sleeps one interval.
    pub fn watcher_observe(&mut self, poll_exited: bool) -> (a: WatcherAction)
        requires
            !old(self).finished,
        ensures
            final(self).finished == poll_exited,
            a == (if poll_exited {
                WatcherAction::Notify
            } else {
                WatcherAction::Sleep
            }),
    {
        if poll_exited {
            self.finished = true;
            WatcherAction::Notify
        } else {
            WatcherAction::Sleep
        }
    }

    /// The predicate of the bounded wait: keep blocking while not finished.
    /// Re-checked under the lock on every wake, so a wake-up releases the
    /// waiter only when the flag is really set or the deadline elapsed.
    pub fn wait_should_block(&self) -> (b: bool)
        ensures
            b == !self.finished,
    {
        !self.finished
    }

    /// Whether one wake of the bounded wait releases the waiter.
    pub fn wait_releases(&self, reason: WakeReason) -> (b: bool)
        ensures
            b == wake_releases(*self, reason),
    {
        self.finished || matches!(reason, WakeReason::Timeout)
    }

    /// The deadline path has returned from the wait: the flag is set
    /// unconditionally, so the watcher stops at its next look. Idempotent and
    /// monotone.
    pub fn mark_finished(&mut self)
        ensures
            final(self).finished,
    {
        self.finished = true;
    }
}

/// A wake releases the waiter only on a set flag or an elapsed deadline.
pub open spec fn wake_releases(s: SupervisorState, reason: WakeReason) -> bool {
    s.finished || reason == WakeReason::Timeout
}

/// Law: the condition wait does not return early on spurious wake-ups. While
/// the flag is false, any number of wake-ups that are not the deadline - in
/// particular unrelated notifications - leaves the waiter blocked.
pub proof fn lemma_no_spurious_release(s: SupervisorState, reasons: Seq<WakeReason>)
    requires
        !s.finished,
        forall|i: int| 0 <= i < reasons.len() ==> reasons[i] != WakeReason::Timeout,
    ensures
        forall|i: int| 0 <= i < reasons.len() ==> !wake_releases(s, reasons[i]),
{
}

/// The moment the watcher detects a natural exit: the first poll at or after
/// the exit. Polls run at every multiple of the polling interval, all times
/// counted in milliseconds from the start of the supervision.
pub open spec fn detection_time(runtime: nat, interval: nat) -> nat {
    ((runtime + interval - 1) / interval as int * interval as int) as nat
}

/// When the bounded-wait call returns: at the detected natural exit or at the
/// deadline, whichever comes first.
pub open spec fn return_time(runtime: nat, deadline: nat, interval: nat) -> nat {
    if detection_time(runtime, interval) < deadline {
        detection_time(runtime, interval)
    } else {
        deadline
    }
}

/// Whether the deadline path kills the tree: only when the final non-blocking
/// exit probe, made right after the wait returns, still sees the process
/// running. A process that exited between the timeout and that probe is not
/// killed.
pub open spec fn kill_fires(runtime: nat, deadline: nat, interval: nat) -> bool {
    runtime > return_time(runtime, deadline, interval)
}

/// Law: the watcher's polling interval bounds the detection latency of a
/// natural exit: detection happens at or after the exit and strictly less
/// than one interval later, whatever the deadline.
pub proof fn lemma_detection_latency(runtime: nat, interval: nat)
    requires
        interval >= 1,
    ensures
        runtime <= detection_time(runtime, interval),
        detection_time(runtime, interval) < runtime + interval,
{
    let x: int = runtime as int + interval as int - 1;
    let i: int = interval as int;
    vstd::arithmetic::div_mod::lemma_fundamental_div_mod(x, i);
    let q: int = x / i;
    let r: int = x % i;
    assert(x == i * q + r);
    assert(0 <= r < i);
    assert(q * i == x - r) by (nonlinear_arith)
        requires
            x == i * q + r,
    ;
    assert(detection_time(runtime, interval) == (q * i) as nat);
}

/// Law: the outcome of the bounded wait. A solver that finishes before the
/// deadline releases the call within one polling interval of its exit and no
/// termination signal is sent; otherwise the call returns at the deadline,
/// and the tree is killed exactly when the process is still running then.
pub proof fn lemma_deadline_outcome(runtime: nat, deadline: nat, interval: nat)
    requires
        interval >= 1,
    ensures
        runtime < deadline ==> {
            &&& !kill_fires(runtime, deadline, interval)
            &&& runtime <= return_time(runtime, deadline, interval) < runtime + interval
        },
        runtime >= deadline ==> {
            &&& return_time(runtime, deadline, interval) == deadline
            &&& (kill_fires(runtime, deadline, interval) <==> runtime > deadline)
        },
{
    lemma_detection_latency(runtime, interval);
}

/// The processes one termination broadcast must reach: every enumerated
/// descendant, and the root itself in front when the enumeration did not
/// already include it, so that the whole tree of the root plus its
/// descendants is targeted.
pub fn kill_targets(root: usize, descendants: &Vec<usize>) -> (targets: Vec<usize>)
    ensures
        targets@ == if descendants@.contains(root) {
            descendants@
        } else {
            seq![root] + descendants@
        },
{
    let mut found = false;
    let mut i: usize = 0;
    while i < descendants.len()
        invariant
            0 <= i <= descendants@.len(),
            found == exists|t: int| 0 <= t < i && descendants@[t] == root,
        decreases descendants@.len() - i,
    {
        if descendants[i] == root {
            found = true;
        }
        i += 1;
    }
    proof {
        assert(found == descendants@.contains(root));
    }
    let mut targets: Vec<usize> = Vec::new();
    if !found {
        targets.push(root);
    }
    let ghost base = targets@;
    let mut k: usize = 0;
    while k < descendants.len()
        invariant
            0 <= k <= descendants@.len(),
            targets@ == base + descendants@.subrange(0, k as int),
        decreases descendants@.len() - k,
    {
        targets.push(descendants[k]);
        proof {
            assert(targets@ =~= base + descendants@.subrange(0, k as int + 1));
        }
        k += 1;
    }
    proof {
        assert(descendants@.subrange(0, descendants@.len() as int) =~= descendants@);
        if found {
            assert(targets@ =~= descendants@);
        } else {
            assert(targets@ =~= seq![root] + descendants@);
        }
    }
    targets
}

/// The outcome of signalling one member of the descendant tree.
pub enum KillOutcome {
    /// The termination signal was delivered.
    Signalled,
    /// The process was already gone when signalled; tolerated, since exiting
    /// on its own is exactly what the signal was for.
    AlreadyGone,
    /// Enumerating or signalling failed in a way that must be reported.
    Failed(String),
}

/// Broadcasts one termination signal per target through the given signalling
/// function and collects every outcome, in order: a failure on one target
/// never stops the attempts on the others.
pub fn signal_each<F: Fn(usize) -> KillOutcome>(targets: &Vec<usize>, send: &F) -> (outcomes: Vec<
    KillOutcome,
>)
    requires
        forall|p: usize| call_requires(*send, (p,)),
    ensures
        outcomes@.len() == targets@.len(),
        forall|i: int|
            0 <= i < outcomes@.len() ==> call_ensures(*send, (targets@[i],), #[trigger] outcomes@[i]),
{
    let mut outcomes: Vec<KillOutcome> = Vec::new();
    let mut k: usize = 0;
    while k < targets.len()
        invariant
            0 <= k <= targets@.len(),
            outcomes@.len() == k,
            forall|i: int|
                0 <= i < k ==> call_ensures(*send, (targets@[i],), #[trigger] outcomes@[i]),
            forall|p: usize| call_requires(*send, (p,)),
        decreases targets@.len() - k,
    {
        let o = send(targets[k]);
        outcomes.push(o);
        k += 1;
    }
    outcomes
}

/// The position of the first reportable failure, if any.
pub open spec fn first_failure(outcomes: Seq<KillOutcome>) -> Option<int>
    decreases outcomes.len(),
{
    if outcomes.len() == 0 {
        None
    } else if outcomes.first() is Failed {
        Some(0)
    } else {
        match first_failure(outcomes.drop_first()) {
            Some(k) => Some(k + 1),
            None => None,
        }
    }
}

/// Characterizes `first_failure`: it points at the first `Failed` entry and
/// is `None` exactly when no entry failed.
pub proof fn lemma_first_failure(outcomes: Seq<KillOutcome>)
    ensures
        match first_failure(outcomes) {
            Some(k) => {
                &&& 0 <= k < outcomes.len()
                &&& outcomes[k] is Failed
                &&& forall|j: int| 0 <= j < k ==> !(outcomes[j] is Failed)
            },
            None => forall|j: int| 0 <= j < outcomes.len() ==> !(outcomes[j] is Failed),
        },
    decreases outcomes.len(),
{
    if outcomes.len() > 0 {
        lemma_first_failure(outcomes.drop_first());
        if outcomes.first() is Failed {
        } else {
            match first_failure(outcomes.drop_first()) {
                Some(k) => {
                    assert(outcomes.drop_first()[k] == outcomes[k + 1]);
                    assert forall|j: int| 0 <= j < k + 1 implies !(outcomes[j] is Failed) by {
                        if j > 0 {
                            assert(outcomes.drop_first()[j - 1] == outcomes[j]);
                            assert(!(outcomes.drop_first()[j - 1] is Failed));
                        }
                    }
                },
                None => {
                    assert forall|j: int| 0 <= j < outcomes.len() implies !(outcomes[j]
                        is Failed) by {
                        if j > 0 {
                            assert(outcomes.drop_first()[j - 1] == outcomes[j]);
                            assert(!(outcomes.drop_first()[j - 1] is Failed));
                        }
                    }
                },
            }
        }
    }
}

/// Folds the outcomes of one termination broadcast into the caller's result:
/// success when every signal was delivered or found its target already gone,
/// and the first reportable failure otherwise. Failures never stop the
/// broadcast itself; they are collected by the caller and judged here.
pub fn summarize_kill_outcomes(outcomes: &Vec<KillOutcome>) -> (r: Result<(), Error>)
    ensures
        match r {
            Ok(()) => first_failure(outcomes@) is None,
            Err(e) => {
                &&& first_failure(outcomes@) is Some
                &&& e is Kill
                &&& (outcomes@[first_failure(outcomes@).unwrap()] matches KillOutcome::Failed(m)
                    ==> (e matches Error::Kill(em) ==> em@ == m@))
            },
        },
{
    proof {
        lemma_first_failure(outcomes@);
    }
    let mut k: usize = 0;
    while k < outcomes.len()
        invariant
            0 <= k <= outcomes@.len(),
            forall|j: int| 0 <= j < k ==> !(outcomes@[j] is Failed),
        decreases outcomes@.len() - k,
    {
        match &outcomes[k] {
            KillOutcome::Failed(m) => {
                proof {
                    lemma_first_failure_prefix(outcomes@, k as int);
                }
                return Err(Error::Kill(m.clone()));
            },
            _ => {},
        }
        k += 1;
    }
    proof {
        lemma_first_failure(outcomes@);
    }
    Ok(())
}

/// If nothing failed before `k` and `k` failed, then `k` is the first failure.
proof fn lemma_first_failure_prefix(outcomes: Seq<KillOutcome>, k: int)
    requires
        0 <= k < outcomes.len(),
        outcomes[k] is Failed,
        forall|j: int| 0 <= j < k ==> !(outcomes[j] is Failed),
    ensures
        first_failure(outcomes) == Some(k),
    decreases outcomes.len(),
{
    if k == 0 {
    } else {
        assert(forall|j: int| 0 <= j < k - 1 ==> outcomes.drop_first()[j] == outcomes[j + 1]);
        lemma_first_failure_prefix(outcomes.drop_first(), k - 1);
    }
}

} // verus!
