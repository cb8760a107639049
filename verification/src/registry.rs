//! The task registry: the ordered store of pending tasks.

use crate::error::SchedulerError;
use crate::model::{
    due_at, has_match, index_taken, is_first_match, lemma_match_unique, lemma_slot_boundary,
    lemma_with_task_valid, lemma_without_valid, name_taken, not_due_at, RegistryView,
};
use crate::task::{same_bytes, Disposition, NewTask, Selector, Task, TaskId, TaskName};
use vstd::prelude::*;

verus! {

/// The pending tasks, kept in firing order.
pub struct Registry {
    now: u32,
    next_index: u64,
    tasks: Vec<Task>,
}

impl View for Registry {
    type V = RegistryView;

    closed spec fn view(&self) -> RegistryView {
        RegistryView { now: self.now, next_index: self.next_index, pending: self.tasks@ }
    }
}

impl Registry {
    /// The registry's invariant holds.
    pub open spec fn wf(&self) -> bool {
        self@.valid()
    }

    /// An empty registry whose current execution point is `now`.
    pub fn new(now: u32) -> (registry: Registry)
        ensures
            registry.wf(),
            registry@ == RegistryView::empty(now),
    {
        Registry { now, next_index: 0, tasks: Vec::new() }
    }

    /// The current execution point.
    pub fn now(&self) -> (now: u32)
        ensures
            now == self@.now,
    {
        self.now
    }

    /// The number of pending tasks.
    pub fn len(&self) -> (len: usize)
        ensures
            len == self@.pending.len(),
    {
        self.tasks.len()
    }

    /// Whether no task is pending.
    pub fn is_empty(&self) -> (empty: bool)
        ensures
            empty == (self@.pending.len() == 0),
    {
        self.tasks.len() == 0
    }

    /// The pending task at position `i` of the firing order.
    pub fn task_at(&self, i: usize) -> (task: &Task)
        requires
            i < self@.pending.len(),
        ensures
            *task == self@.pending[i as int],
    {
        &self.tasks[i]
    }

    /// The position of the pending task that `selector` addresses.
    pub fn position(&self, selector: &Selector) -> (found: Option<usize>)
        ensures
            match found {
                Some(i) => is_first_match(self@.pending, *selector, i as int),
                None => !has_match(self@.pending, *selector),
            },
    {
        let mut i: usize = 0;
        while i < self.tasks.len()
            invariant
                i <= self.tasks.len(),
                forall|j: int| 0 <= j < i ==> !(#[trigger] self.tasks@[j]).answers(*selector),
            decreases self.tasks.len() - i,
        {
            if self.tasks[i].is_addressed_by(selector) {
                return Some(i);
            }
            i = i + 1;
        }
        None
    }

    /// The pending task that `selector` addresses.
    pub fn find(&self, selector: &Selector) -> (found: Option<&Task>)
        ensures
            match found {
                Some(task) => has_match(self@.pending, *selector) && exists|i: int|
                    is_first_match(self@.pending, *selector, i) && *task == self@.pending[i],
                None => !has_match(self@.pending, *selector),
            },
    {
        match self.position(selector) {
            Some(i) => Some(&self.tasks[i]),
            None => None,
        }
    }

    /// Whether a pending task has the name `name`.
    pub fn name_in_use(&self, name: &TaskName) -> (taken: bool)
        ensures
            taken == name_taken(self@.pending, *name),
    {
        let mut i: usize = 0;
        while i < self.tasks.len()
            invariant
                i <= self.tasks.len(),
                forall|j: int| 0 <= j < i ==> (#[trigger] self.tasks@[j]).name != Some(*name),
            decreases self.tasks.len() - i,
        {
            if let Some(own) = &self.tasks[i].name {
                if same_bytes(&own.bytes, &name.bytes) {
                    return true;
                }
            }
            i = i + 1;
        }
        false
    }

    /// Whether a pending task has the sequence number `index`.
    pub fn index_in_use(&self, index: u64) -> (taken: bool)
        ensures
            taken == index_taken(self@.pending, index),
    {
        let mut i: usize = 0;
        while i < self.tasks.len()
            invariant
                i <= self.tasks.len(),
                forall|j: int| 0 <= j < i ==> (#[trigger] self.tasks@[j]).index != index,
            decreases self.tasks.len() - i,
        {
            if self.tasks[i].index == index {
                return true;
            }
            i = i + 1;
        }
        false
    }

    /// Places `task` behind every pending task that stands at or before its
    /// key.
    fn place(&mut self, task: Task)
        requires
            old(self).wf(),
            old(self)@.vacant(task),
            crate::model::sound(task),
        ensures
            final(self).wf(),
            final(self)@ == old(self)@.with_task(task),
    {
        let mut i: usize = 0;
        while i < self.tasks.len() && (self.tasks[i].due_point < task.due_point || (
            self.tasks[i].due_point == task.due_point && self.tasks[i].priority <= task.priority))
            invariant
                i <= self.tasks.len(),
                forall|j: int|
                    0 <= j < i ==> (#[trigger] self.tasks@[j]).not_after(
                        task.due_point,
                        task.priority,
                    ),
            decreases self.tasks.len() - i,
        {
            i = i + 1;
        }
        proof {
            let s = self.tasks@;
            assert forall|j: int| i <= j < s.len() implies !(#[trigger] s[j]).not_after(
                task.due_point,
                task.priority,
            ) by {
                if j > i {
                    assert(s[i as int].not_after(s[j].due_point, s[j].priority));
                }
            }
            lemma_slot_boundary(s, task.due_point, task.priority, i as int);
            lemma_with_task_valid(self@, task);
        }
        self.tasks.insert(i, task);
    }

    /// Admits a task. On success the task is pending under the next
    /// sequence number, placed by its key behind the tasks already there;
    /// on refusal nothing changes.
    pub fn insert(&mut self, request: NewTask) -> (outcome: Result<TaskId, SchedulerError>)
        requires
            old(self).wf(),
        ensures
            final(self).wf(),
            match old(self)@.admission_error(request) {
                Some(e) => outcome == Err::<TaskId, SchedulerError>(e) && final(self)@ == old(
                    self,
                )@,
                None => outcome == Ok::<TaskId, SchedulerError>(
                    old(self)@.admitted_task(request).id_spec(),
                ) && final(self)@ == old(self)@.enrolled(request),
            },
    {
        if request.due_point <= self.now {
            return Err(SchedulerError::TargetBlockNumberInPast);
        }
        if let Some(name) = &request.name {
            if self.name_in_use(name) {
                return Err(SchedulerError::Named);
            }
        }
        if let Some((interval, _)) = request.period {
            if interval == 0 {
                return Err(SchedulerError::FailedToSchedule);
            }
        }
        if self.next_index == u64::MAX {
            return Err(SchedulerError::FailedToSchedule);
        }
        let task = Task {
            index: self.next_index,
            name: request.name,
            origin: request.origin,
            account: request.account,
            due_point: request.due_point,
            period: request.period,
            priority: request.priority,
            payload: request.payload,
        };
        let id = task.id();
        self.next_index = self.next_index + 1;
        self.place(task);
        Ok(id)
    }

    /// Cancels the pending task that `selector` addresses. The task is
    /// taken out whole; on refusal nothing changes.
    pub fn cancel(&mut self, selector: Selector) -> (outcome: Result<(), SchedulerError>)
        requires
            old(self).wf(),
        ensures
            final(self).wf(),
            match old(self)@.removal_error(selector) {
                Some(e) => outcome == Err::<(), SchedulerError>(e) && final(self)@ == old(self)@,
                None => outcome == Ok::<(), SchedulerError>(()) && final(self)@ == old(
                    self,
                )@.cancelled(selector),
            },
    {
        match self.position(&selector) {
            None => Err(SchedulerError::NotFound),
            Some(i) => {
                proof {
                    lemma_match_unique(self@, selector, i as int);
                    lemma_without_valid(self@, i as int);
                }
                let named = self.tasks[i].name.is_some();
                let positional = match selector {
                    Selector::Position { .. } => true,
                    Selector::Name(_) => false,
                };
                if positional && named {
                    return Err(SchedulerError::Named);
                }
                let _ = self.tasks.remove(i);
                Ok(())
            },
        }
    }

    /// Moves the pending task that `selector` addresses to `new_due_point`.
    /// The task keeps everything but its point and stands behind the tasks
    /// already at its new key; on refusal nothing changes.
    pub fn reschedule(&mut self, selector: Selector, new_due_point: u32) -> (outcome: Result<
        (),
        SchedulerError,
    >)
        requires
            old(self).wf(),
        ensures
            final(self).wf(),
            match old(self)@.reschedule_error(selector, new_due_point) {
                Some(e) => outcome == Err::<(), SchedulerError>(e) && final(self)@ == old(self)@,
                None => outcome == Ok::<(), SchedulerError>(()) && final(self)@ == old(
                    self,
                )@.rescheduled(selector, new_due_point),
            },
    {
        match self.position(&selector) {
            None => Err(SchedulerError::NotFound),
            Some(i) => {
                proof {
                    lemma_match_unique(self@, selector, i as int);
                    lemma_without_valid(self@, i as int);
                }
                let named = self.tasks[i].name.is_some();
                let positional = match selector {
                    Selector::Position { .. } => true,
                    Selector::Name(_) => false,
                };
                if positional && named {
                    return Err(SchedulerError::Named);
                }
                if self.tasks[i].due_point == new_due_point {
                    return Err(SchedulerError::RescheduleNoChange);
                }
                if new_due_point <= self.now {
                    return Err(SchedulerError::TargetBlockNumberInPast);
                }
                let ghost before = self@;
                let mut task = self.tasks.remove(i);
                task.due_point = new_due_point;
                proof {
                    crate::model::lemma_removed_is_vacant(before, i as int, new_due_point);
                }
                self.place(task);
                Ok(())
            },
        }
    }

    /// Takes out the tasks that are due at `point` and hands them over in
    /// firing order: ascending priority value, and among equals the one that
    /// was placed first. The current point moves up to `point`.
    pub fn pop_due(&mut self, point: u32) -> (batch: Vec<Task>)
        requires
            old(self).wf(),
        ensures
            final(self).wf(),
            batch@ == due_at(old(self)@.pending, point),
            final(self)@ == old(self)@.popped(point),
    {
        let ghost orig = self.tasks@;
        let ghost mut k: int = 0;
        let mut batch: Vec<Task> = Vec::new();
        let mut i: usize = 0;
        while i < self.tasks.len()
            invariant
                0 <= i <= self.tasks.len(),
                0 <= k <= orig.len(),
                k == i + batch.len(),
                batch@ == due_at(orig.take(k), point),
                self.tasks@.take(i as int) == not_due_at(orig.take(k), point),
                self.tasks@.skip(i as int) == orig.skip(k),
                self.now == old(self).now,
                self.next_index == old(self).next_index,
            decreases self.tasks.len() - i,
        {
            proof {
                assert(self.tasks@.skip(i as int).len() == orig.skip(k).len());
                assert(k < orig.len());
                assert(self.tasks@.skip(i as int)[0] == orig.skip(k)[0]);
                assert(orig.take(k + 1).drop_last() =~= orig.take(k));
                assert(orig.take(k + 1).last() == orig[k]);
            }
            let ghost before = self.tasks@;
            if self.tasks[i].due_point == point {
                let task = self.tasks.remove(i);
                batch.push(task);
                proof {
                    assert(self.tasks@.take(i as int) =~= before.take(i as int));
                    assert(self.tasks@.skip(i as int) =~= before.skip(i as int).skip(1));
                    assert(orig.skip(k).skip(1) =~= orig.skip(k + 1));
                }
            } else {
                i = i + 1;
                proof {
                    assert(self.tasks@.take(i as int) =~= before.take(i - 1).push(before[i - 1]));
                    assert(self.tasks@.skip(i as int) =~= before.skip(i - 1).skip(1));
                    assert(orig.skip(k).skip(1) =~= orig.skip(k + 1));
                }
            }
            proof {
                k = k + 1;
            }
        }
        proof {
            assert(self.tasks@.skip(i as int).len() == 0);
            assert(k == orig.len());
            assert(orig.take(k) =~= orig);
            assert(self.tasks@.take(i as int) =~= self.tasks@);
            crate::model::lemma_popped_valid(old(self)@, point);
        }
        if point > self.now {
            self.now = point;
        }
        batch
    }

    /// Settles a task that has fired at the current point: a periodic task
    /// with repeats left becomes pending again one interval later, with one
    /// repeat fewer and as the last of its key; any other task is let go.
    pub fn settle(&mut self, task: Task) -> (disposition: Disposition)
        requires
            old(self).wf(),
        ensures
            final(self).wf(),
            disposition == old(self)@.disposition(task),
            final(self)@ == old(self)@.settled(task),
    {
        match task.period {
            None => Disposition::Completed,
            Some((interval, remaining)) => {
                if remaining < 2 {
                    return Disposition::Exhausted;
                }
                if interval == 0 {
                    return Disposition::Dropped;
                }
                let due_point = match self.now.checked_add(interval) {
                    Some(point) => point,
                    None => {
                        return Disposition::Dropped;
                    },
                };
                if task.index >= self.next_index || self.index_in_use(task.index) {
                    return Disposition::Dropped;
                }
                if let Some(name) = &task.name {
                    if self.name_in_use(name) {
                        return Disposition::Dropped;
                    }
                }
                let mut next = task;
                next.due_point = due_point;
                next.period = Some((interval, remaining - 1));
                self.place(next);
                Disposition::ReEnrolled(due_point)
            },
        }
    }

    /// Settles the tasks of a batch in order, once all of them were
    /// dispatched.
    pub fn settle_all(&mut self, batch: Vec<Task>) -> (dispositions: Vec<Disposition>)
        requires
            old(self).wf(),
        ensures
            final(self).wf(),
            final(self)@ == crate::drive::settled_all(old(self)@, batch@),
            dispositions@ == crate::drive::dispositions_of(old(self)@, batch@),
    {
        let ghost start = self@;
        let ghost all = batch@;
        let mut dispositions: Vec<Disposition> = Vec::new();
        proof {
            assert(all.skip(0) =~= all);
        }
        for task in it: batch
            invariant
                self.wf(),
                it.seq() == all,
                dispositions@ + crate::drive::dispositions_of(self@, all.skip(it.index() as int))
                    == crate::drive::dispositions_of(start, all),
                crate::drive::settled_all(self@, all.skip(it.index() as int))
                    == crate::drive::settled_all(start, all),
        {
            proof {
                assert(all.skip(it.index() as int)[0] == task);
                assert(all.skip(it.index() as int).skip(1) =~= all.skip(it.index() + 1));
            }
            let ghost before = dispositions@;
            let ghost state = self@;
            let disposition = self.settle(task);
            dispositions.push(disposition);
            proof {
                assert(before.push(disposition) + crate::drive::dispositions_of(
                    self@,
                    all.skip(it.index() + 1),
                ) =~= before + crate::drive::dispositions_of(state, all.skip(it.index() as int)));
            }
        }
        proof {
            assert(all.skip(all.len() as int) =~= Seq::<Task>::empty());
            assert(dispositions@ + Seq::<Disposition>::empty() =~= dispositions@);
        }
        dispositions
    }
}

} // verus!
