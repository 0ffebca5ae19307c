//! Decisions of the polling worker loop: which claimed task to run first,
//! how the idle backoff evolves, which status transitions are legal, and how a
//! failure cascades over the sibling tasks of a flow instance.
//!
//! The loop itself (timers, wake signal, spawned units of work) lives outside
//! the library; it feeds each poll result and event into these functions and
//! performs what they decide.
use vstd::prelude::*;
use crate::types::{Task, TaskStatus};

verus! {

/// Floor of the idle backoff delay, in milliseconds.
pub const BACKOFF_FLOOR_MS: u64 = 200;

/// Cap of the idle backoff delay, in milliseconds.
pub const BACKOFF_CAP_MS: u64 = 60000;

/// The idle delay after one polling cycle: reset to the floor when the cycle
/// found a task, else doubled up to the cap.
pub open spec fn spec_next_backoff(cur: int, found: bool) -> int {
    if found {
        BACKOFF_FLOOR_MS as int
    } else if 2 * cur <= BACKOFF_CAP_MS as int {
        2 * cur
    } else {
        BACKOFF_CAP_MS as int
    }
}

/// Computes the idle delay for the next cycle from the current one.
pub fn next_backoff(cur_ms: u64, found: bool) -> (r: u64)
    ensures
        r == spec_next_backoff(cur_ms as int, found),
{
    if found {
        BACKOFF_FLOOR_MS
    } else if cur_ms <= BACKOFF_CAP_MS / 2 {
        2 * cur_ms
    } else {
        BACKOFF_CAP_MS
    }
}

/// An idle cycle strictly doubles the delay while the doubled value stays
/// under the cap.
pub proof fn lemma_backoff_strictly_doubles(cur: int)
    requires
        0 < cur,
        2 * cur <= BACKOFF_CAP_MS as int,
    ensures
        spec_next_backoff(cur, false) == 2 * cur,
        spec_next_backoff(cur, false) > cur,
{
}

/// The delay never leaves the band between floor and cap.
pub proof fn lemma_backoff_bounded(cur: int, found: bool)
    requires
        BACKOFF_FLOOR_MS as int <= cur <= BACKOFF_CAP_MS as int,
    ensures
        BACKOFF_FLOOR_MS as int <= spec_next_backoff(cur, found) <= BACKOFF_CAP_MS as int,
{
}

/// A cycle that finds a task resets the delay to the floor.
pub proof fn lemma_backoff_resets(cur: int)
    ensures
        spec_next_backoff(cur, true) == BACKOFF_FLOOR_MS as int,
{
}

/// Between the two stage polls of one cycle, a `Testing` result is preferred
/// over a `Production` one.
pub fn prefer_testing(testing: Option<Task>, production: Option<Task>) -> (r: Option<Task>)
    ensures
        testing is Some ==> r == testing,
        testing is None ==> r == production,
{
    match testing {
        Some(t) => Some(t),
        None => production,
    }
}

/// One polling cycle's decision, from what the two stage polls returned and
/// the current idle delay: the task to run, a `Testing` find preferred, and
/// the delay for the next cycle — reset to the floor when anything was found,
/// else doubled up to the cap.
pub fn poll_cycle(testing: Option<Task>, production: Option<Task>, backoff_ms: u64) -> (r: (
    Option<Task>,
    u64,
))
    ensures
        testing is Some ==> r.0 == testing,
        testing is None ==> r.0 == production,
        r.1 == spec_next_backoff(backoff_ms as int, testing is Some || production is Some),
{
    let found = testing.is_some() || production.is_some();
    (prefer_testing(testing, production), next_backoff(backoff_ms, found))
}

/// Whether a status is terminal: a terminal task is never transitioned again.
pub open spec fn is_terminal(s: TaskStatus) -> bool {
    s is Completed || s is Error || s is Cancelled
}

/// The legal status transitions: a pending task may be claimed or cancelled,
/// a claimed task may complete or fail; nothing leaves a terminal status.
pub open spec fn can_transition(from: TaskStatus, to: TaskStatus) -> bool {
    match from {
        TaskStatus::Pending => to is Processing || to is Cancelled,
        TaskStatus::Processing => to is Completed || to is Error,
        _ => false,
    }
}

/// Decides whether a transition is legal; the store write is made only when
/// this returns `true`.
pub fn check_transition(from: TaskStatus, to: TaskStatus) -> (r: bool)
    ensures
        r == can_transition(from, to),
{
    match from {
        TaskStatus::Pending => matches!(to, TaskStatus::Processing | TaskStatus::Cancelled),
        TaskStatus::Processing => matches!(to, TaskStatus::Completed | TaskStatus::Error),
        _ => false,
    }
}

/// No transition leaves a terminal status.
pub proof fn lemma_terminal_is_absorbing(from: TaskStatus, to: TaskStatus)
    requires
        is_terminal(from),
    ensures
        !can_transition(from, to),
{
}

/// Rank of a status along the lifecycle; transitions only move forward.
pub open spec fn status_rank(s: TaskStatus) -> int {
    match s {
        TaskStatus::Pending => 0,
        TaskStatus::Processing => 1,
        _ => 2,
    }
}

/// Status transitions are monotonic: a legal transition strictly raises the
/// lifecycle rank, so no task ever moves backward.
pub proof fn lemma_transitions_monotonic(from: TaskStatus, to: TaskStatus)
    requires
        can_transition(from, to),
    ensures
        status_rank(from) < status_rank(to),
{
}

/// What one task's failure leaves behind across its flow instance: the failing
/// task moves to `Error`, every sibling still `Pending` moves to `Cancelled`,
/// everything else (in particular anything `Completed`) keeps its status.
pub open spec fn spec_cascade(statuses: Seq<TaskStatus>, failed: int) -> Seq<TaskStatus> {
    statuses.map(
        |i: int, s: TaskStatus|
            if i == failed {
                TaskStatus::Error
            } else if s is Pending {
                TaskStatus::Cancelled
            } else {
                s
            },
    )
}

/// Applies the failure cascade to the statuses of one flow instance's tasks,
/// listed in processing order. The failing task must have been claimed.
pub fn cascade_statuses(statuses: &Vec<TaskStatus>, failed: usize) -> (r: Vec<TaskStatus>)
    requires
        failed < statuses.len(),
        statuses[failed as int] is Processing,
    ensures
        r@ == spec_cascade(statuses@, failed as int),
{
    let mut out: Vec<TaskStatus> = Vec::new();
    let n = statuses.len();
    let mut i: usize = 0;
    while i < n
        invariant
            i <= n,
            n == statuses.len(),
            out@ == spec_cascade(statuses@, failed as int).take(i as int),
        decreases n - i,
    {
        let s = statuses[i];
        let next = if i == failed {
            TaskStatus::Error
        } else if matches!(s, TaskStatus::Pending) {
            TaskStatus::Cancelled
        } else {
            s
        };
        out.push(next);
        proof {
            assert(out@ =~= spec_cascade(statuses@, failed as int).take(i as int + 1));
        }
        i = i + 1;
    }
    proof {
        assert(out@ =~= spec_cascade(statuses@, failed as int));
    }
    out
}

/// A cascade never touches a completed task, marks the failing task `Error`,
/// cancels exactly the pending siblings, and makes every status terminal:
/// the flow instance is finished.
pub proof fn lemma_cascade_settles_flow(statuses: Seq<TaskStatus>, failed: int)
    requires
        0 <= failed < statuses.len(),
        statuses[failed] is Processing,
        forall|i: int|
            0 <= i < statuses.len() && i != failed ==> !(#[trigger] statuses[i] is Processing),
    ensures
        spec_cascade(statuses, failed).len() == statuses.len(),
        spec_cascade(statuses, failed)[failed] is Error,
        forall|i: int|
            0 <= i < statuses.len() && statuses[i] is Completed ==> #[trigger] spec_cascade(
                statuses,
                failed,
            )[i] is Completed,
        forall|i: int|
            0 <= i < statuses.len() && i != failed && statuses[i] is Pending ==> #[trigger] spec_cascade(
                statuses,
                failed,
            )[i] is Cancelled,
        forall|i: int|
            0 <= i < statuses.len() ==> is_terminal(#[trigger] spec_cascade(statuses, failed)[i]),
{
}

/// The cascade respects the lifecycle: wherever it changes a status, the
/// change is a legal transition — the claimed task fails, pending siblings are
/// cancelled, and nothing else moves.
pub proof fn lemma_cascade_transitions_are_legal(statuses: Seq<TaskStatus>, failed: int)
    requires
        0 <= failed < statuses.len(),
        statuses[failed] is Processing,
    ensures
        forall|i: int|
            0 <= i < statuses.len() && #[trigger] spec_cascade(statuses, failed)[i] != statuses[i]
                ==> can_transition(statuses[i], spec_cascade(statuses, failed)[i]),
{
}

/// Index of the first still-pending task of a flow instance, in the given
/// (processing) order; `None` when nothing is left to run.
pub fn next_pending_index(tasks: &Vec<Task>) -> (r: Option<usize>)
    ensures
        match r {
            Some(i) => i < tasks.len() && tasks[i as int].task_status is Pending && forall|j: int|
                0 <= j < i ==> !(#[trigger] tasks[j].task_status is Pending),
            None => forall|j: int|
                0 <= j < tasks.len() ==> !(#[trigger] tasks[j].task_status is Pending),
        },
{
    let n = tasks.len();
    let mut i: usize = 0;
    while i < n
        invariant
            i <= n,
            n == tasks.len(),
            forall|j: int| 0 <= j < i ==> !(#[trigger] tasks[j].task_status is Pending),
        decreases n - i,
    {
        if matches!(tasks[i].task_status, TaskStatus::Pending) {
            return Some(i);
        }
        i = i + 1;
    }
    None
}

/// Ledger of the fixed-capacity admission semaphore: how many units of flow
/// work are in flight against the configured bound. The runtime semaphore is
/// outside the library; this ledger carries its counting discipline.
pub struct Admission {
    pub capacity: u64,
    pub in_flight: u64,
}

impl Admission {
    /// The admission invariant: never more in-flight work than the capacity.
    pub open spec fn wf(&self) -> bool {
        self.in_flight <= self.capacity
    }

    pub fn new(capacity: u64) -> (r: Admission)
        ensures
            r.wf(),
            r.capacity == capacity,
            r.in_flight == 0,
    {
        Admission { capacity, in_flight: 0 }
    }

    /// Admits one unit of work when a permit is free; refused exactly when the
    /// bound is reached, so a further unit starts only after a release.
    pub fn try_acquire(&mut self) -> (r: bool)
        requires
            old(self).wf(),
        ensures
            final(self).wf(),
            final(self).capacity == old(self).capacity,
            r == (old(self).in_flight < old(self).capacity),
            r ==> final(self).in_flight == old(self).in_flight + 1,
            !r ==> final(self).in_flight == old(self).in_flight,
    {
        if self.in_flight < self.capacity {
            self.in_flight = self.in_flight + 1;
            true
        } else {
            false
        }
    }

    /// Releases one permit when its unit of work finishes, whatever its outcome.
    pub fn release(&mut self)
        requires
            old(self).wf(),
            old(self).in_flight > 0,
        ensures
            final(self).wf(),
            final(self).capacity == old(self).capacity,
            final(self).in_flight == old(self).in_flight - 1,
    {
        self.in_flight = self.in_flight - 1;
    }
}

/// However acquisitions and releases interleave, the admission ledger never
/// exceeds its capacity: the invariant holds in every reachable state, since
/// `new` establishes it and both operations preserve it.
pub proof fn lemma_admission_bounded(a: Admission)
    requires
        a.wf(),
    ensures
        a.in_flight <= a.capacity,
{
}

} // verus!
