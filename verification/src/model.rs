//! The mathematical model of the task registry: what it holds, when that is
//! valid, and where a task stands in it.

use crate::error::SchedulerError;
use crate::task::{Disposition, NewTask, Selector, Task, TaskName};
use vstd::prelude::*;

verus! {

/// What a registry is: the current execution point, the next sequence number
/// to hand out, and the pending tasks in firing order.
pub struct RegistryView {
    pub now: u32,
    pub next_index: u64,
    pub pending: Seq<Task>,
}

/// Tasks stand in ascending order of `(due_point, priority)`.
pub open spec fn ordered(s: Seq<Task>) -> bool {
    forall|i: int, j: int|
        0 <= i < j < s.len() ==> (#[trigger] s[i]).not_after(
            (#[trigger] s[j]).due_point,
            s[j].priority,
        )
}

/// No two tasks share a sequence number, and no two share a name.
pub open spec fn distinct(s: Seq<Task>) -> bool {
    forall|i: int, j: int|
        0 <= i < s.len() && 0 <= j < s.len() && i != j ==> (#[trigger] s[i]).index != (
        #[trigger] s[j]).index && (s[i].name is Some ==> s[i].name != s[j].name)
}

/// A periodic task has a positive interval.
pub open spec fn sound(t: Task) -> bool {
    t.period matches Some((interval, _)) ==> interval >= 1
}

/// Some task of `s` has the sequence number `index`.
pub open spec fn index_taken(s: Seq<Task>, index: u64) -> bool {
    exists|i: int| 0 <= i < s.len() && (#[trigger] s[i]).index == index
}

/// Some task of `s` has the name `name`.
pub open spec fn name_taken(s: Seq<Task>, name: TaskName) -> bool {
    exists|i: int| 0 <= i < s.len() && (#[trigger] s[i]).name == Some(name)
}

/// Some task of `s` is addressed by `selector`.
pub open spec fn has_match(s: Seq<Task>, selector: Selector) -> bool {
    exists|i: int| 0 <= i < s.len() && (#[trigger] s[i]).answers(selector)
}

/// `i` is the position of the first task of `s` that `selector` addresses.
pub open spec fn is_first_match(s: Seq<Task>, selector: Selector, i: int) -> bool {
    &&& 0 <= i < s.len()
    &&& s[i].answers(selector)
    &&& forall|j: int| 0 <= j < i ==> !(#[trigger] s[j]).answers(selector)
}

/// The position of the first task of `s` that `selector` addresses, where
/// there is one.
pub open spec fn first_match(s: Seq<Task>, selector: Selector) -> int {
    choose|i: int| is_first_match(s, selector, i)
}

/// The number of tasks of `s` that stand at or before the key
/// `(due_point, priority)`: the position at which a new task with that key
/// is placed, behind every task that was there before it with the same key.
pub open spec fn slot(s: Seq<Task>, due_point: u32, priority: u8) -> nat
    decreases s.len(),
{
    if s.len() == 0 {
        0
    } else {
        slot(s.drop_last(), due_point, priority) + if s.last().not_after(due_point, priority) {
            1nat
        } else {
            0nat
        }
    }
}

/// The tasks of `s` that are due at `point`, in their order.
pub open spec fn due_at(s: Seq<Task>, point: u32) -> Seq<Task>
    decreases s.len(),
{
    if s.len() == 0 {
        Seq::empty()
    } else if s.last().due_point == point {
        due_at(s.drop_last(), point).push(s.last())
    } else {
        due_at(s.drop_last(), point)
    }
}

/// The tasks of `s` that are not due at `point`, in their order.
pub open spec fn not_due_at(s: Seq<Task>, point: u32) -> Seq<Task>
    decreases s.len(),
{
    if s.len() == 0 {
        Seq::empty()
    } else if s.last().due_point != point {
        not_due_at(s.drop_last(), point).push(s.last())
    } else {
        not_due_at(s.drop_last(), point)
    }
}

impl RegistryView {
    /// The registry's invariant.
    pub open spec fn valid(self) -> bool {
        &&& ordered(self.pending)
        &&& distinct(self.pending)
        &&& forall|i: int|
            0 <= i < self.pending.len() ==> (#[trigger] self.pending[i]).index < self.next_index
                && sound(self.pending[i])
    }

    /// The empty registry at execution point `now`.
    pub open spec fn empty(now: u32) -> RegistryView {
        RegistryView { now, next_index: 0, pending: Seq::empty() }
    }

    /// The registry with `task` placed at the position of its key.
    pub open spec fn with_task(self, task: Task) -> RegistryView {
        RegistryView {
            pending: self.pending.insert(
                slot(self.pending, task.due_point, task.priority) as int,
                task,
            ),
            ..self
        }
    }

    /// The registry without the task at position `i`.
    pub open spec fn without(self, i: int) -> RegistryView {
        RegistryView { pending: self.pending.remove(i), ..self }
    }

    /// Why `request` is refused, if it is. A point that is not in the future
    /// is named first, then a name that is taken; a zero interval and an
    /// exhausted supply of sequence numbers are failures to schedule.
    pub open spec fn admission_error(self, request: NewTask) -> Option<SchedulerError> {
        if request.due_point <= self.now {
            Some(SchedulerError::TargetBlockNumberInPast)
        } else if request.name matches Some(name) && name_taken(self.pending, name) {
            Some(SchedulerError::Named)
        } else if request.period matches Some((interval, _)) && interval == 0 {
            Some(SchedulerError::FailedToSchedule)
        } else if self.next_index == u64::MAX {
            Some(SchedulerError::FailedToSchedule)
        } else {
            None
        }
    }

    /// The task that admitting `request` creates.
    pub open spec fn admitted_task(self, request: NewTask) -> Task {
        Task {
            index: self.next_index,
            name: request.name,
            origin: request.origin,
            account: request.account,
            due_point: request.due_point,
            period: request.period,
            priority: request.priority,
            payload: request.payload,
        }
    }

    /// The registry after `request` was admitted.
    pub open spec fn enrolled(self, request: NewTask) -> RegistryView {
        RegistryView { next_index: (self.next_index + 1) as u64, ..self }.with_task(
            self.admitted_task(request),
        )
    }

    /// Why a task cannot be taken out through `selector`, if it cannot: no
    /// pending task answers, or a position addresses a named task.
    pub open spec fn removal_error(self, selector: Selector) -> Option<SchedulerError> {
        if !has_match(self.pending, selector) {
            Some(SchedulerError::NotFound)
        } else if selector is Position && self.pending[first_match(
            self.pending,
            selector,
        )].name is Some {
            Some(SchedulerError::Named)
        } else {
            None
        }
    }

    /// The registry after the task that `selector` addresses was cancelled.
    pub open spec fn cancelled(self, selector: Selector) -> RegistryView {
        self.without(first_match(self.pending, selector))
    }

    /// Why the task that `selector` addresses cannot be moved to
    /// `new_due_point`, if it cannot.
    pub open spec fn reschedule_error(
        self,
        selector: Selector,
        new_due_point: u32,
    ) -> Option<SchedulerError> {
        if self.removal_error(selector) is Some {
            self.removal_error(selector)
        } else if self.pending[first_match(self.pending, selector)].due_point == new_due_point {
            Some(SchedulerError::RescheduleNoChange)
        } else if new_due_point <= self.now {
            Some(SchedulerError::TargetBlockNumberInPast)
        } else {
            None
        }
    }

    /// The registry after the task that `selector` addresses was moved to
    /// `new_due_point`: taken out, and placed again as the last of its new
    /// key, with nothing else about it changed.
    pub open spec fn rescheduled(self, selector: Selector, new_due_point: u32) -> RegistryView {
        let i = first_match(self.pending, selector);
        self.without(i).with_task(Task { due_point: new_due_point, ..self.pending[i] })
    }

    /// The registry after the tasks due at `point` were taken out. The
    /// current point moves up to `point`, never back.
    pub open spec fn popped(self, point: u32) -> RegistryView {
        RegistryView {
            now: if point > self.now { point } else { self.now },
            pending: not_due_at(self.pending, point),
            ..self
        }
    }

    /// Whether the identity of `task` is free: its sequence number was handed
    /// out, and no pending task has it or the task's name.
    pub open spec fn vacant(self, task: Task) -> bool {
        &&& task.index < self.next_index
        &&& !index_taken(self.pending, task.index)
        &&& task.name matches Some(name) ==> !name_taken(self.pending, name)
    }

    /// What becomes of `task` once it has fired at the current point.
    pub open spec fn disposition(self, task: Task) -> Disposition {
        if task.period is None {
            Disposition::Completed
        } else if task.period matches Some((_, remaining)) && remaining < 2 {
            Disposition::Exhausted
        } else if task.next_occurrence(self.now) is Some && self.vacant(task) {
            Disposition::ReEnrolled(task.next_occurrence(self.now)->0.due_point)
        } else {
            Disposition::Dropped
        }
    }

    /// The registry after `task` has fired at the current point: where the
    /// task is re-enrolled, its next occurrence is placed.
    pub open spec fn settled(self, task: Task) -> RegistryView {
        if self.disposition(task) is ReEnrolled {
            self.with_task(task.next_occurrence(self.now)->0)
        } else {
            self
        }
    }
}

/// In an ordered sequence the slot of a key is the boundary between the
/// tasks at or before the key and those after it.
pub proof fn lemma_slot_boundary(s: Seq<Task>, due_point: u32, priority: u8, i: int)
    requires
        0 <= i <= s.len(),
        forall|j: int| 0 <= j < i ==> (#[trigger] s[j]).not_after(due_point, priority),
        forall|j: int| i <= j < s.len() ==> !(#[trigger] s[j]).not_after(due_point, priority),
    ensures
        slot(s, due_point, priority) == i,
    decreases s.len(),
{
    if s.len() > 0 {
        let t = s.drop_last();
        if i == s.len() {
            lemma_slot_boundary(t, due_point, priority, i - 1);
        } else {
            lemma_slot_boundary(t, due_point, priority, i);
        }
    }
}

/// The slot of a key lies within the sequence, every task before it stands
/// at or before the key, and in an ordered sequence every task from it on
/// stands after the key.
pub proof fn lemma_slot_splits(s: Seq<Task>, due_point: u32, priority: u8)
    requires
        ordered(s),
    ensures
        slot(s, due_point, priority) <= s.len(),
        forall|j: int|
            0 <= j < slot(s, due_point, priority) ==> (#[trigger] s[j]).not_after(
                due_point,
                priority,
            ),
        forall|j: int|
            slot(s, due_point, priority) <= j < s.len() ==> !(#[trigger] s[j]).not_after(
                due_point,
                priority,
            ),
    decreases s.len(),
{
    if s.len() > 0 {
        let t = s.drop_last();
        assert(ordered(t)) by {
            assert forall|i: int, j: int| 0 <= i < j < t.len() implies (#[trigger] t[i]).not_after(
                (#[trigger] t[j]).due_point,
                t[j].priority,
            ) by {
                assert(t[i] == s[i] && t[j] == s[j]);
            }
        }
        lemma_slot_splits(t, due_point, priority);
        let k = slot(t, due_point, priority) as int;
        assert forall|j: int| 0 <= j < slot(s, due_point, priority) implies (#[trigger] s[j]).not_after(
            due_point,
            priority,
        ) by {
            if j < t.len() {
                assert(s[j] == t[j]);
                if j >= k {
                    // the last task is at or before the key, and s[j] precedes it
                    assert(s.last().not_after(due_point, priority));
                    if j < s.len() - 1 {
                        assert(s[j].not_after(s[s.len() - 1].due_point, s[s.len() - 1].priority));
                    }
                }
            }
        }
        assert forall|j: int| slot(s, due_point, priority) <= j < s.len() implies !(
        #[trigger] s[j]).not_after(due_point, priority) by {
            if j < t.len() {
                assert(s[j] == t[j]);
            }
        }
    }
}

/// Placing a sound task with a fresh sequence number and a fresh name at
/// its slot keeps a registry valid.
pub proof fn lemma_with_task_valid(v: RegistryView, task: Task)
    requires
        v.valid(),
        sound(task),
        task.index < v.next_index,
        !index_taken(v.pending, task.index),
        task.name matches Some(name) ==> !name_taken(v.pending, name),
    ensures
        v.with_task(task).valid(),
{
    let s = v.pending;
    let k = slot(s, task.due_point, task.priority) as int;
    lemma_slot_splits(s, task.due_point, task.priority);
    let r = s.insert(k, task);
    assert forall|i: int, j: int| 0 <= i < j < r.len() implies (#[trigger] r[i]).not_after(
        (#[trigger] r[j]).due_point,
        r[j].priority,
    ) by {
        if j < k {
            assert(r[i] == s[i] && r[j] == s[j]);
        } else if j == k {
            assert(r[i] == s[i]);
        } else if i == k {
            assert(r[j] == s[j - 1]);
            assert(!s[j - 1].not_after(task.due_point, task.priority));
        } else if i < k {
            assert(r[i] == s[i] && r[j] == s[j - 1]);
        } else {
            assert(r[i] == s[i - 1] && r[j] == s[j - 1]);
        }
    }
    assert forall|i: int, j: int| 0 <= i < r.len() && 0 <= j < r.len() && i != j implies (
    #[trigger] r[i]).index != (#[trigger] r[j]).index && (r[i].name is Some ==> r[i].name
        != r[j].name) by {
        let a = if i < k { i } else { i - 1 };
        let b = if j < k { j } else { j - 1 };
        if i == k {
            assert(r[j] == s[b]);
        } else if j == k {
            assert(r[i] == s[a]);
        } else {
            assert(r[i] == s[a] && r[j] == s[b]);
        }
    }
    assert forall|i: int| 0 <= i < r.len() implies (#[trigger] r[i]).index < v.next_index && sound(
        r[i],
    ) by {
        if i < k {
            assert(r[i] == s[i]);
        } else if i > k {
            assert(r[i] == s[i - 1]);
        }
    }
}

/// Taking a task out keeps a registry valid.
pub proof fn lemma_without_valid(v: RegistryView, i: int)
    requires
        v.valid(),
        0 <= i < v.pending.len(),
    ensures
        v.without(i).valid(),
{
    let s = v.pending;
    let r = s.remove(i);
    assert forall|a: int| 0 <= a < r.len() implies #[trigger] r[a] == s[if a < i { a } else { a + 1 }] by {}
    assert forall|a: int, b: int| 0 <= a < b < r.len() implies (#[trigger] r[a]).not_after(
        (#[trigger] r[b]).due_point,
        r[b].priority,
    ) by {
        let a2 = if a < i { a } else { a + 1 };
        let b2 = if b < i { b } else { b + 1 };
        assert(r[a] == s[a2] && r[b] == s[b2]);
    }
    assert forall|a: int, b: int| 0 <= a < r.len() && 0 <= b < r.len() && a != b implies (
    #[trigger] r[a]).index != (#[trigger] r[b]).index && (r[a].name is Some ==> r[a].name
        != r[b].name) by {
        let a2 = if a < i { a } else { a + 1 };
        let b2 = if b < i { b } else { b + 1 };
        assert(r[a] == s[a2] && r[b] == s[b2]);
    }
    assert forall|a: int| 0 <= a < r.len() implies (#[trigger] r[a]).index < v.next_index && sound(
        r[a],
    ) by {
        let a2 = if a < i { a } else { a + 1 };
        assert(r[a] == s[a2]);
    }
}

/// Once the task at position `i` is taken out of a valid registry, its
/// identity is free there, whatever its due point is set to.
pub proof fn lemma_removed_is_vacant(v: RegistryView, i: int, due_point: u32)
    requires
        v.valid(),
        0 <= i < v.pending.len(),
    ensures
        v.without(i).vacant(Task { due_point, ..v.pending[i] }),
        sound(Task { due_point, ..v.pending[i] }),
{
    let s = v.pending;
    let r = s.remove(i);
    assert forall|a: int| 0 <= a < r.len() implies (#[trigger] r[a]).index != s[i].index && (
    s[i].name is Some ==> r[a].name != s[i].name) by {
        let a2 = if a < i { a } else { a + 1 };
        assert(r[a] == s[a2]);
        assert(s[i].index != s[a2].index && (s[i].name is Some ==> s[i].name != s[a2].name));
    }
    assert(sound(s[i]));
}

/// The position of the first task of `s` that is due at `point` or later.
pub open spec fn due_from(s: Seq<Task>, point: u32) -> nat {
    if point == 0 {
        0
    } else {
        slot(s, (point - 1) as u32, 255)
    }
}

/// The position behind the last task of `s` that is due at `point` or
/// earlier.
pub open spec fn due_until(s: Seq<Task>, point: u32) -> nat {
    slot(s, point, 255)
}

/// Where the tasks due at `point` are exactly those at the positions from
/// `lo` up to `hi`, they are that stretch of `s`, and the others are what
/// stands before and behind it.
pub proof fn lemma_due_stretch(s: Seq<Task>, point: u32, lo: int, hi: int)
    requires
        0 <= lo <= hi <= s.len(),
        forall|j: int| 0 <= j < s.len() ==> ((#[trigger] s[j]).due_point == point <==> lo <= j < hi),
    ensures
        due_at(s, point) =~= s.subrange(lo, hi),
        not_due_at(s, point) =~= s.subrange(0, lo) + s.subrange(hi, s.len() as int),
    decreases s.len(),
{
    if s.len() > 0 {
        let n = s.len() as int;
        let t = s.drop_last();
        assert forall|j: int| 0 <= j < t.len() implies #[trigger] t[j] == s[j] by {}
        if s.last().due_point == point {
            assert(s[n - 1].due_point == point);
            lemma_due_stretch(t, point, lo, n - 1);
        } else if hi <= n - 1 {
            lemma_due_stretch(t, point, lo, hi);
        } else {
            assert(s[n - 1].due_point != point);
            lemma_due_stretch(t, point, n - 1, n - 1);
        }
    }
}

/// In an ordered sequence the tasks due at a point stand together.
pub proof fn lemma_due_range(s: Seq<Task>, point: u32)
    requires
        ordered(s),
    ensures
        due_from(s, point) <= due_until(s, point) <= s.len(),
        forall|j: int|
            0 <= j < s.len() ==> ((#[trigger] s[j]).due_point == point <==> due_from(s, point) <= j
                < due_until(s, point)),
        due_at(s, point) =~= s.subrange(due_from(s, point) as int, due_until(s, point) as int),
        not_due_at(s, point) =~= s.subrange(0, due_from(s, point) as int) + s.subrange(
            due_until(s, point) as int,
            s.len() as int,
        ),
{
    let lo = due_from(s, point) as int;
    let hi = due_until(s, point) as int;
    lemma_slot_splits(s, point, 255);
    if point > 0 {
        lemma_slot_splits(s, (point - 1) as u32, 255);
    }
    assert forall|j: int| 0 <= j < s.len() implies ((#[trigger] s[j]).due_point == point <==> lo
        <= j < hi) by {
        if point > 0 {
            assert(s[j].not_after((point - 1) as u32, 255) <==> j < lo);
        }
        assert(s[j].not_after(point, 255) <==> j < hi);
    }
    if hi < lo {
        assert(s[hi].due_point == point <==> lo <= hi < hi);
        assert(!s[hi].not_after(point, 255));
        assert(s[hi].not_after((point - 1) as u32, 255));
    }
    lemma_due_stretch(s, point, lo, hi);
}

/// Taking out the tasks due at a point keeps a registry valid.
pub proof fn lemma_popped_valid(v: RegistryView, point: u32)
    requires
        v.valid(),
    ensures
        v.popped(point).valid(),
{
    let s = v.pending;
    lemma_due_range(s, point);
    let lo = due_from(s, point) as int;
    let hi = due_until(s, point) as int;
    let r = not_due_at(s, point);
    assert(r =~= s.subrange(0, lo) + s.subrange(hi, s.len() as int));
    assert forall|a: int| 0 <= a < r.len() implies #[trigger] r[a] == s[if a < lo {
        a
    } else {
        a + (hi - lo)
    }] by {}
    assert forall|a: int, b: int| 0 <= a < b < r.len() implies (#[trigger] r[a]).not_after(
        (#[trigger] r[b]).due_point,
        r[b].priority,
    ) by {
        let a2 = if a < lo { a } else { a + (hi - lo) };
        let b2 = if b < lo { b } else { b + (hi - lo) };
        assert(r[a] == s[a2] && r[b] == s[b2]);
    }
    assert forall|a: int, b: int| 0 <= a < r.len() && 0 <= b < r.len() && a != b implies (
    #[trigger] r[a]).index != (#[trigger] r[b]).index && (r[a].name is Some ==> r[a].name
        != r[b].name) by {
        let a2 = if a < lo { a } else { a + (hi - lo) };
        let b2 = if b < lo { b } else { b + (hi - lo) };
        assert(r[a] == s[a2] && r[b] == s[b2]);
    }
    assert forall|a: int| 0 <= a < r.len() implies (#[trigger] r[a]).index < v.next_index && sound(
        r[a],
    ) by {
        let a2 = if a < lo { a } else { a + (hi - lo) };
        assert(r[a] == s[a2]);
    }
}

/// In a valid registry a selector addresses at most one task, so the first
/// match is the only one.
pub proof fn lemma_match_unique(v: RegistryView, selector: Selector, i: int)
    requires
        v.valid(),
        0 <= i < v.pending.len(),
        v.pending[i].answers(selector),
    ensures
        has_match(v.pending, selector),
        first_match(v.pending, selector) == i,
        is_first_match(v.pending, selector, i),
{
    let s = v.pending;
    assert forall|j: int| 0 <= j < s.len() && j != i implies !(#[trigger] s[j]).answers(
        selector,
    ) by {
        if s[j].answers(selector) {
            assert(s[i].index != s[j].index && (s[i].name is Some ==> s[i].name != s[j].name));
        }
    }
    assert(is_first_match(s, selector, i));
    let c = first_match(s, selector);
    assert(is_first_match(s, selector, c));
}

} // verus!
