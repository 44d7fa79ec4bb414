//! The task store: owns the collection of tasks and runs one review
//! transaction.
//!
//! The store owns every task it holds; tasks are keyed by their index in
//! the collection and only the review transaction mutates a task's
//! scheduling fields. Among several due tasks the one with the earliest
//! due time is selected, ties going to the lowest index, so selection is
//! deterministic. A review whose answers the collaborator never delivers
//! (the user cancelled) changes nothing at all.

use vstd::prelude::*;
use crate::blocks::ParsedItem;
use crate::recall::{correct_count, quality_of};
use crate::recall::verify_answers;
use crate::schedule::{SchedState, spec_reschedule, reschedule};
use vstd::string::StringExecFns;

verus! {

/// A persisted study item: immutable content plus scheduling state.
#[derive(Debug, PartialEq, Eq)]
pub struct Task {
    /// The parsed content; never changes after insertion.
    pub content: ParsedItem,
    /// The scheduling state the scheduler transitions.
    pub sched: SchedState,
    /// Absolute time (seconds) at which the task next becomes due.
    pub due_at: u64,
}

impl Task {
    /// Validity of a stored task: structurally sound content with at
    /// least one interactive block.
    pub open spec fn wf(self) -> bool {
        &&& self.content.wf()
        &&& self.content.spec_has_interactive()
    }
}

/// Rejection of an item at creation time.
#[derive(Debug, Clone, Copy, PartialEq, Eq, Structural)]
pub enum ValidationError {
    /// The item holds no blank and no choice, so it cannot be studied.
    NoInteractiveElements,
}

impl ValidationError {
    /// The user-facing description of the rejection.
    pub fn message(&self) -> (r: String)
        ensures
            r@ == "task must contain interactive elements"@,
    {
        String::from_str("task must contain interactive elements")
    }
}

/// Outcome of one review transaction.
#[derive(Debug, Clone, Copy, PartialEq, Eq, Structural)]
pub enum ReviewOutcome {
    /// Nothing was due, so nothing happened.
    NoTaskDue,
    /// The user cancelled; no task changed.
    Cancelled,
    /// One task was reviewed and rescheduled with this recall quality.
    Completed { quality: u8 },
}

/// Indices, in ascending order, of the tasks among the first `n` that are
/// due at `now`.
pub open spec fn due_prefix(tasks: Seq<Task>, now: u64, n: int) -> Seq<usize>
    decreases n,
{
    if n <= 0 {
        Seq::empty()
    } else if tasks[n - 1].due_at <= now {
        due_prefix(tasks, now, n - 1).push((n - 1) as usize)
    } else {
        due_prefix(tasks, now, n - 1)
    }
}

/// Indices of all tasks due at `now`, in ascending order.
pub open spec fn spec_due_tasks(tasks: Seq<Task>, now: u64) -> Seq<usize> {
    due_prefix(tasks, now, tasks.len() as int)
}

/// Index of the review candidate among the first `n` tasks: the due task
/// with the earliest due time, ties going to the lowest index.
pub open spec fn pick_prefix(tasks: Seq<Task>, now: u64, n: int) -> Option<int>
    decreases n,
{
    if n <= 0 {
        Option::None
    } else {
        match pick_prefix(tasks, now, n - 1) {
            Option::None => if tasks[n - 1].due_at <= now {
                Option::Some(n - 1)
            } else {
                Option::None
            },
            Option::Some(b) => if tasks[n - 1].due_at <= now && tasks[n - 1].due_at
                < tasks[b].due_at {
                Option::Some(n - 1)
            } else {
                Option::Some(b)
            },
        }
    }
}

/// Index of the task the next review works on, if any is due.
pub open spec fn spec_pick_due(tasks: Seq<Task>, now: u64) -> Option<int> {
    pick_prefix(tasks, now, tasks.len() as int)
}

/// Minimum due time among the first `n` tasks.
pub open spec fn min_due_prefix(tasks: Seq<Task>, n: int) -> Option<u64>
    decreases n,
{
    if n <= 0 {
        Option::None
    } else {
        match min_due_prefix(tasks, n - 1) {
            Option::None => Option::Some(tasks[n - 1].due_at),
            Option::Some(m) => if tasks[n - 1].due_at < m {
                Option::Some(tasks[n - 1].due_at)
            } else {
                Option::Some(m)
            },
        }
    }
}

/// Time until the next task becomes due: nothing when the store is empty
/// or something is already due.
pub open spec fn spec_time_until_next(tasks: Seq<Task>, now: u64) -> Option<u64> {
    match min_due_prefix(tasks, tasks.len() as int) {
        Option::None => Option::None,
        Option::Some(m) => if m <= now {
            Option::None
        } else {
            Option::Some((m - now) as u64)
        },
    }
}

/// The recall quality a review of task `t` with answers `ans` yields.
pub open spec fn review_quality(t: Task, ans: Vec<String>) -> int {
    quality_of(
        correct_count(t.content.answers.deep_view(), ans.deep_view()),
        t.content.answers@.len() as int,
    )
}

/// Task `t` after a review with answers `ans` at time `now`: content
/// untouched, scheduling state and due time from the scheduler.
pub open spec fn reviewed_task(t: Task, ans: Vec<String>, now: u64) -> Task {
    let p = spec_reschedule(t.sched, review_quality(t, ans), now as int);
    Task { content: t.content, sched: p.0, due_at: p.1 }
}

/// A membership of the due list: exactly the in-range indices of due
/// tasks appear. With `due_tasks`'s contract this gives idempotence of
/// the due-check: the result is a function of the collection and the time
/// alone, so two calls without an intervening mutation or time change
/// return the same list.
pub proof fn lemma_due_prefix_membership(tasks: Seq<Task>, now: u64, n: int)
    requires
        n <= tasks.len(),
        tasks.len() <= usize::MAX,
    ensures
        forall|x: usize|
            #[trigger] due_prefix(tasks, now, n).contains(x) <==> (x < n && tasks[x as int].due_at
                <= now),
    decreases n,
{
    if n > 0 {
        lemma_due_prefix_membership(tasks, now, n - 1);
        let prev = due_prefix(tasks, now, n - 1);
        let cur = due_prefix(tasks, now, n);
        if tasks[n - 1].due_at <= now {
            assert(cur == prev.push((n - 1) as usize));
            assert forall|x: usize| #[trigger] cur.contains(x) implies (x < n && tasks[x as int].due_at
                <= now) by {
                let k = choose|k: int| 0 <= k < cur.len() && cur[k] == x;
                if k < prev.len() {
                    assert(prev[k] == x);
                    assert(prev.contains(x));
                } else {
                    assert(x == (n - 1) as usize);
                }
            }
            assert forall|x: usize| (x < n && tasks[x as int].due_at <= now) implies #[trigger] cur.contains(
                x,
            ) by {
                if (x as int) < n - 1 {
                    assert(prev.contains(x));
                    let k = choose|k: int| 0 <= k < prev.len() && prev[k] == x;
                    assert(cur[k] == x);
                } else {
                    assert(cur[cur.len() - 1] == x);
                }
            }
        } else {
            assert(cur == prev);
        }
    }
}

/// Idempotence of the due-check: two results of `due_tasks` over the
/// same collection at the same time are the same list, because the
/// contract pins each to a function of the collection and the time
/// alone.
pub proof fn lemma_due_check_idempotent(tasks: Seq<Task>, now: u64, r1: Seq<usize>, r2: Seq<usize>)
    requires
        r1 == spec_due_tasks(tasks, now),
        r2 == spec_due_tasks(tasks, now),
    ensures
        r1 == r2,
{
}

/// The picked task is due, and no due task has an earlier due time; when
/// nothing is picked, nothing is due.
pub proof fn lemma_pick_prefix_sound(tasks: Seq<Task>, now: u64, n: int)
    requires
        n <= tasks.len(),
    ensures
        match pick_prefix(tasks, now, n) {
            Option::Some(b) => 0 <= b < n && tasks[b].due_at <= now && forall|i: int|
                0 <= i < n && #[trigger] tasks[i].due_at <= now ==> tasks[b].due_at
                    <= tasks[i].due_at,
            Option::None => forall|i: int| 0 <= i < n ==> #[trigger] tasks[i].due_at > now,
        },
    decreases n,
{
    if n > 0 {
        lemma_pick_prefix_sound(tasks, now, n - 1);
    }
}

/// The collection of tasks under study, with its display name.
#[derive(Debug, PartialEq, Eq)]
pub struct TaskStore {
    /// The display name of the collection.
    pub name: String,
    /// The owned tasks, keyed by index.
    pub tasks: Vec<Task>,
}

impl TaskStore {
    /// Validity: every stored task is valid.
    pub open spec fn wf(self) -> bool {
        forall|i: int| 0 <= i < self.tasks@.len() ==> #[trigger] self.tasks@[i].wf()
    }

    /// Creates an empty store with the given display name.
    pub fn new(name: String) -> (r: TaskStore)
        ensures
            r.name == name,
            r.tasks@.len() == 0,
            r.wf(),
    {
        TaskStore { name: name, tasks: Vec::new() }
    }

    /// Inserts a parsed item as a fresh task, due immediately at `now`.
    /// An item without any interactive block is rejected and the store is
    /// left unchanged.
    pub fn insert(&mut self, item: ParsedItem, now: u64) -> (r: Result<(), ValidationError>)
        requires
            old(self).wf(),
            item.wf(),
        ensures
            final(self).wf(),
            final(self).name == old(self).name,
            match r {
                Result::Ok(()) => item.spec_has_interactive() && final(self).tasks@
                    == old(self).tasks@.push(
                    Task { content: item, sched: SchedState::spec_initial(), due_at: now },
                ),
                Result::Err(e) => !item.spec_has_interactive() && e
                    == ValidationError::NoInteractiveElements && *final(self) == *old(self),
            },
    {
        if !item.has_interactive() {
            return Result::Err(ValidationError::NoInteractiveElements);
        }
        let task = Task { content: item, sched: SchedState::initial(), due_at: now };
        self.tasks.push(task);
        Result::Ok(())
    }

    /// Indices of the tasks due at `now`, in ascending order.
    pub fn due_tasks(&self, now: u64) -> (r: Vec<usize>)
        ensures
            r@ == spec_due_tasks(self.tasks@, now),
    {
        let mut r: Vec<usize> = Vec::new();
        let mut i: usize = 0;
        while i < self.tasks.len()
            invariant
                0 <= i <= self.tasks@.len(),
                r@ == due_prefix(self.tasks@, now, i as int),
            decreases self.tasks@.len() - i,
        {
            let t = &self.tasks[i];
            if t.due_at <= now {
                r.push(i);
            }
            i = i + 1;
        }
        r
    }

    /// Index of the task the next review would work on: the due task with
    /// the earliest due time, ties going to the lowest index.
    pub fn next_due(&self, now: u64) -> (r: Option<usize>)
        ensures
            match spec_pick_due(self.tasks@, now) {
                Option::Some(b) => 0 <= b < self.tasks@.len() && (r matches Option::Some(x)
                    && x as int == b),
                Option::None => r is None,
            },
    {
        let mut best: Option<usize> = Option::None;
        let mut i: usize = 0;
        while i < self.tasks.len()
            invariant
                0 <= i <= self.tasks@.len(),
                match pick_prefix(self.tasks@, now, i as int) {
                    Option::Some(b) => best == Option::Some(b as usize) && 0 <= b < i,
                    Option::None => best is None,
                },
            decreases self.tasks@.len() - i,
        {
            proof {
                lemma_pick_prefix_sound(self.tasks@, now, i as int);
            }
            let t = &self.tasks[i];
            if t.due_at <= now {
                best = match best {
                    Option::None => Option::Some(i),
                    Option::Some(b) => {
                        let tb = &self.tasks[b];
                        if t.due_at < tb.due_at {
                            Option::Some(i)
                        } else {
                            Option::Some(b)
                        }
                    },
                };
            }
            i = i + 1;
        }
        best
    }

    /// If nothing is due at `now`, the time until the next task becomes
    /// due; nothing when the store is empty or a task is already due.
    pub fn time_until_next(&self, now: u64) -> (r: Option<u64>)
        ensures
            r == spec_time_until_next(self.tasks@, now),
    {
        let mut min: Option<u64> = Option::None;
        let mut i: usize = 0;
        while i < self.tasks.len()
            invariant
                0 <= i <= self.tasks@.len(),
                min == min_due_prefix(self.tasks@, i as int),
            decreases self.tasks@.len() - i,
        {
            let t = &self.tasks[i];
            min = match min {
                Option::None => Option::Some(t.due_at),
                Option::Some(m) => {
                    if t.due_at < m {
                        Option::Some(t.due_at)
                    } else {
                        Option::Some(m)
                    }
                },
            };
            i = i + 1;
        }
        match min {
            Option::None => Option::None,
            Option::Some(m) => {
                if m <= now {
                    Option::None
                } else {
                    Option::Some(m - now)
                }
            },
        }
    }

    /// Runs one review transaction at time `now`. If no task is due this
    /// is a no-op. Otherwise the due task with the earliest due time is
    /// the subject; `submitted` carries the answers the presentation
    /// collaborator obtained for it, or nothing if the user cancelled, in
    /// which case no task changes and the task stays due. On submitted
    /// answers the task is verified and rescheduled; this is the only
    /// path that mutates a task's scheduling fields.
    pub fn complete_one(&mut self, now: u64, submitted: Option<Vec<String>>) -> (r: ReviewOutcome)
        requires
            old(self).wf(),
        ensures
            final(self).wf(),
            final(self).name == old(self).name,
            match spec_pick_due(old(self).tasks@, now) {
                Option::None => r == ReviewOutcome::NoTaskDue && *final(self) == *old(self),
                Option::Some(b) => match submitted {
                    Option::None => r == ReviewOutcome::Cancelled && *final(self) == *old(self),
                    Option::Some(ans) => {
                        &&& r == (ReviewOutcome::Completed {
                            quality: review_quality(old(self).tasks@[b], ans) as u8,
                        })
                        &&& final(self).tasks@ == old(self).tasks@.update(
                            b,
                            reviewed_task(old(self).tasks@[b], ans, now),
                        )
                    },
                },
            },
    {
        let picked = self.next_due(now);
        match picked {
            Option::None => ReviewOutcome::NoTaskDue,
            Option::Some(b) => {
                match submitted {
                    Option::None => ReviewOutcome::Cancelled,
                    Option::Some(ans) => {
                        let ghost old_tasks = self.tasks@;
                        let t = &mut self.tasks[b];
                        let verdict = verify_answers(&t.content.answers, &ans);
                        let (ns, nd) = reschedule(&t.sched, verdict.1, now);
                        t.sched = ns;
                        t.due_at = nd;
                        proof {
                            assert(self.tasks@ =~= old_tasks.update(
                                b as int,
                                reviewed_task(old_tasks[b as int], ans, now),
                            ));
                            assert forall|i: int|
                                0 <= i < self.tasks@.len() implies #[trigger] self.tasks@[i].wf() by {
                                assert(old_tasks[i].wf());
                            }
                        }
                        ReviewOutcome::Completed { quality: verdict.1 }
                    },
                }
            },
        }
    }
}

} // verus!
