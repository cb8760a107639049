//! What driving the registry through execution points does to it, as
//! mathematics: the due tasks leave, fire in order, and the periodic ones
//! come back.

use crate::model::{
    distinct, due_at, due_from, due_until, index_taken, lemma_due_range, lemma_popped_valid,
    lemma_slot_splits, lemma_with_task_valid, slot, sound, RegistryView,
};
use crate::task::{Disposition, Task};
use vstd::prelude::*;

verus! {

/// The registry after every task of `batch` was settled, in order.
pub open spec fn settled_all(v: RegistryView, batch: Seq<Task>) -> RegistryView
    decreases batch.len(),
{
    if batch.len() == 0 {
        v
    } else {
        settled_all(v.settled(batch[0]), batch.skip(1))
    }
}

/// What becomes of each task of `batch` as they are settled in order.
pub open spec fn dispositions_of(v: RegistryView, batch: Seq<Task>) -> Seq<Disposition>
    decreases batch.len(),
{
    if batch.len() == 0 {
        Seq::empty()
    } else {
        seq![v.disposition(batch[0])] + dispositions_of(v.settled(batch[0]), batch.skip(1))
    }
}

/// The registry after the driver has reached `point`: the tasks due there
/// were taken out and settled in firing order, with no other request in
/// between.
pub open spec fn after_point(v: RegistryView, point: u32) -> RegistryView {
    settled_all(v.popped(point), due_at(v.pending, point))
}

/// The registry after the driver has reached, one by one, every point
/// behind the current one up to `last`.
pub open spec fn after_run(v: RegistryView, last: u32) -> RegistryView
    decreases last,
{
    if last <= v.now {
        v
    } else {
        after_point(after_run(v, (last - 1) as u32), last)
    }
}

/// How often the task with sequence number `index` fires while the driver
/// goes from the current point up to `last`.
pub open spec fn firings(v: RegistryView, index: u64, last: u32) -> nat
    decreases last,
{
    if last <= v.now {
        0
    } else {
        firings(v, index, (last - 1) as u32) + if index_taken(
            due_at(after_run(v, (last - 1) as u32).pending, last),
            index,
        ) {
            1nat
        } else {
            0nat
        }
    }
}

/// A sequence with a task put in holds that task and what it held before.
pub proof fn lemma_insert_contains(s: Seq<Task>, k: int, task: Task)
    requires
        0 <= k <= s.len(),
    ensures
        s.insert(k, task).contains(task),
        forall|t: Task| s.contains(t) ==> #[trigger] s.insert(k, task).contains(t),
        forall|t: Task| #[trigger] s.insert(k, task).contains(t) ==> s.contains(t) || t == task,
{
    let r = s.insert(k, task);
    assert(r[k] == task);
    assert forall|t: Task| s.contains(t) implies #[trigger] r.contains(t) by {
        let i = choose|i: int| 0 <= i < s.len() && s[i] == t;
        if i < k {
            assert(r[i] == t);
        } else {
            assert(r[i + 1] == t);
        }
    }
    assert forall|t: Task| #[trigger] r.contains(t) implies s.contains(t) || t == task by {
        let i = choose|i: int| 0 <= i < r.len() && r[i] == t;
        if i < k {
            assert(s[i] == t);
        } else if i > k {
            assert(s[i - 1] == t);
        }
    }
}

/// Every task of `batch` can be settled into `w` without meeting its own
/// identity there: the tasks are distinct and sound, and the identity of
/// each is free in `w`.
pub open spec fn settles_cleanly(w: RegistryView, batch: Seq<Task>) -> bool {
    &&& distinct(batch)
    &&& forall|k: int| 0 <= k < batch.len() ==> sound(#[trigger] batch[k]) && w.vacant(batch[k])
}

/// Settling a batch whose tasks are not pending keeps the registry valid,
/// keeps every task that was pending, and adds exactly the next occurrences
/// of the batch's tasks.
pub proof fn lemma_settled_all(w: RegistryView, batch: Seq<Task>)
    requires
        w.valid(),
        settles_cleanly(w, batch),
    ensures
        settled_all(w, batch).valid(),
        settled_all(w, batch).now == w.now,
        settled_all(w, batch).next_index == w.next_index,
        forall|t: Task| w.pending.contains(t) ==> #[trigger] settled_all(w, batch).pending.contains(t),
        forall|k: int|
            0 <= k < batch.len() && (#[trigger] batch[k]).next_occurrence(w.now) is Some
                ==> settled_all(w, batch).pending.contains(batch[k].next_occurrence(w.now)->0),
        forall|t: Task| #[trigger]
            settled_all(w, batch).pending.contains(t) ==> w.pending.contains(t) || exists|k: int|
                0 <= k < batch.len() && (#[trigger] batch[k]).next_occurrence(w.now) == Some(t),
    decreases batch.len(),
{
    if batch.len() > 0 {
        let first = batch[0];
        let rest = batch.skip(1);
        let w1 = w.settled(first);
        assert(sound(first) && w.vacant(first));
        assert forall|k: int| 0 <= k < rest.len() implies #[trigger] rest[k] == batch[k + 1] by {}
        if first.next_occurrence(w.now) is Some {
            let next = first.next_occurrence(w.now)->0;
            assert(w.disposition(first) is ReEnrolled);
            assert(w1 == w.with_task(next));
            lemma_slot_splits(w.pending, next.due_point, next.priority);
            lemma_with_task_valid(w, next);
            lemma_insert_contains(
                w.pending,
                slot(w.pending, next.due_point, next.priority) as int,
                next,
            );
            assert forall|k: int| 0 <= k < rest.len() implies w1.vacant(#[trigger] rest[k]) by {
                let t = rest[k];
                assert(t == batch[k + 1]);
                assert(w.vacant(t));
                assert(batch[0].index != batch[k + 1].index);
                assert(batch[k + 1].name is Some ==> batch[k + 1].name != batch[0].name);
                if index_taken(w1.pending, t.index) {
                    let i = choose|i: int| 0 <= i < w1.pending.len() && w1.pending[i].index == t.index;
                    assert(w1.pending.contains(w1.pending[i]));
                    assert(w.pending.contains(w1.pending[i]) || w1.pending[i] == next);
                    if w.pending.contains(w1.pending[i]) {
                        let j = choose|j: int| 0 <= j < w.pending.len() && w.pending[j] == w1.pending[i];
                        assert(w.pending[j].index == t.index);
                    }
                }
                if t.name is Some && crate::model::name_taken(w1.pending, t.name->0) {
                    let i = choose|i: int| 0 <= i < w1.pending.len() && w1.pending[i].name == Some(t.name->0);
                    assert(w1.pending.contains(w1.pending[i]));
                    assert(w.pending.contains(w1.pending[i]) || w1.pending[i] == next);
                    if w.pending.contains(w1.pending[i]) {
                        let j = choose|j: int| 0 <= j < w.pending.len() && w.pending[j] == w1.pending[i];
                        assert(w.pending[j].name == Some(t.name->0));
                    }
                }
            }
        } else {
            assert(w1 == w);
            assert forall|k: int| 0 <= k < rest.len() implies w1.vacant(#[trigger] rest[k]) by {
                assert(rest[k] == batch[k + 1]);
            }
        }
        assert(distinct(rest)) by {
            assert forall|i: int, j: int| 0 <= i < rest.len() && 0 <= j < rest.len() && i != j implies (
            #[trigger] rest[i]).index != (#[trigger] rest[j]).index && (rest[i].name is Some
                ==> rest[i].name != rest[j].name) by {
                assert(rest[i] == batch[i + 1] && rest[j] == batch[j + 1]);
            }
        }
        assert forall|k: int| 0 <= k < rest.len() implies sound(#[trigger] rest[k]) by {
            assert(rest[k] == batch[k + 1]);
        }
        lemma_settled_all(w1, rest);
        let r = settled_all(w, batch);
        assert(r == settled_all(w1, rest));
        assert forall|k: int|
            0 <= k < batch.len() && (#[trigger] batch[k]).next_occurrence(w.now) is Some implies r.pending.contains(
            batch[k].next_occurrence(w.now)->0,
        ) by {
            if k > 0 {
                assert(rest[k - 1] == batch[k]);
            }
        }
        assert forall|t: Task| #[trigger] r.pending.contains(t) implies w.pending.contains(t)
            || exists|k: int|
            0 <= k < batch.len() && (#[trigger] batch[k]).next_occurrence(w.now) == Some(t) by {
            if w1.pending.contains(t) {
                if !w.pending.contains(t) {
                    assert(batch[0].next_occurrence(w.now) == Some(t));
                }
            } else {
                let k = choose|k: int|
                    0 <= k < rest.len() && (#[trigger] rest[k]).next_occurrence(w1.now) == Some(t);
                assert(batch[k + 1].next_occurrence(w.now) == Some(t));
            }
        }
    }
}

/// What reaching a point does: the pending tasks due there, and no others,
/// make up the batch; every other pending task stays; each task of the
/// batch that has a next occurrence is pending again as that; and nothing
/// else is pending afterwards.
pub proof fn lemma_after_point(v: RegistryView, point: u32)
    requires
        v.valid(),
        point > v.now,
    ensures
        after_point(v, point).valid(),
        after_point(v, point).now == point,
        after_point(v, point).next_index == v.next_index,
        distinct(due_at(v.pending, point)),
        forall|t: Task| #[trigger]
            due_at(v.pending, point).contains(t) <==> v.pending.contains(t) && t.due_point
                == point,
        forall|t: Task|
            v.pending.contains(t) && t.due_point != point ==> #[trigger] after_point(
                v,
                point,
            ).pending.contains(t),
        forall|t: Task|
            #![trigger v.pending.contains(t)]
            v.pending.contains(t) && t.due_point == point && t.next_occurrence(point) is Some
                ==> after_point(v, point).pending.contains(t.next_occurrence(point)->0),
        forall|u: Task| #[trigger]
            after_point(v, point).pending.contains(u) ==> (v.pending.contains(u) && u.due_point
                != point) || exists|t: Task| #[trigger]
                v.pending.contains(t) && t.due_point == point && t.next_occurrence(point) == Some(
                    u,
                ),
{
    let s = v.pending;
    let n = s.len() as int;
    lemma_due_range(s, point);
    lemma_popped_valid(v, point);
    let lo = due_from(s, point) as int;
    let hi = due_until(s, point) as int;
    let batch = due_at(s, point);
    let w = v.popped(point);
    let r = after_point(v, point);
    assert(batch =~= s.subrange(lo, hi));
    assert(w.pending =~= s.subrange(0, lo) + s.subrange(hi, n));
    assert forall|k: int| 0 <= k < batch.len() implies #[trigger] batch[k] == s[lo + k] by {}
    assert forall|a: int| 0 <= a < w.pending.len() implies #[trigger] w.pending[a] == s[if a < lo {
        a
    } else {
        a + (hi - lo)
    }] by {}
    assert(distinct(batch)) by {
        assert forall|i: int, j: int|
            0 <= i < batch.len() && 0 <= j < batch.len() && i != j implies (#[trigger] batch[i]).index
            != (#[trigger] batch[j]).index && (batch[i].name is Some ==> batch[i].name
            != batch[j].name) by {
            assert(batch[i] == s[lo + i] && batch[j] == s[lo + j]);
        }
    }
    assert forall|k: int| 0 <= k < batch.len() implies sound(#[trigger] batch[k]) && w.vacant(
        batch[k],
    ) by {
        let t = batch[k];
        assert(t == s[lo + k]);
        assert forall|a: int| 0 <= a < w.pending.len() implies (#[trigger] w.pending[a]).index
            != t.index && (t.name is Some ==> w.pending[a].name != t.name) by {
            let a2 = if a < lo { a } else { a + (hi - lo) };
            assert(w.pending[a] == s[a2]);
            assert(s[lo + k].index != s[a2].index && (s[lo + k].name is Some ==> s[lo + k].name
                != s[a2].name));
        }
    }
    lemma_settled_all(w, batch);
    assert forall|t: Task| #[trigger] batch.contains(t) <==> s.contains(t) && t.due_point
        == point by {
        if batch.contains(t) {
            let k = choose|k: int| 0 <= k < batch.len() && batch[k] == t;
            assert(s[lo + k] == t);
        }
        if s.contains(t) && t.due_point == point {
            let i = choose|i: int| 0 <= i < s.len() && s[i] == t;
            assert(batch[i - lo] == t);
        }
    }
    assert forall|t: Task| s.contains(t) && t.due_point != point implies #[trigger] r.pending.contains(
        t,
    ) by {
        let i = choose|i: int| 0 <= i < s.len() && s[i] == t;
        if i < lo {
            assert(w.pending[i] == t);
        } else {
            assert(w.pending[i - (hi - lo)] == t);
        }
        assert(w.pending.contains(t));
    }
    assert forall|t: Task|
        #![trigger s.contains(t)]
        s.contains(t) && t.due_point == point && t.next_occurrence(point) is Some implies r.pending.contains(
        t.next_occurrence(point)->0,
    ) by {
        let i = choose|i: int| 0 <= i < s.len() && s[i] == t;
        assert(batch[i - lo] == t);
    }
    assert forall|u: Task| #[trigger] r.pending.contains(u) implies (s.contains(u) && u.due_point
        != point) || exists|t: Task| #[trigger]
        s.contains(t) && t.due_point == point && t.next_occurrence(point) == Some(u) by {
        if w.pending.contains(u) {
            let a = choose|a: int| 0 <= a < w.pending.len() && w.pending[a] == u;
            let a2 = if a < lo { a } else { a + (hi - lo) };
            assert(s[a2] == u);
        } else {
            let k = choose|k: int|
                0 <= k < batch.len() && (#[trigger] batch[k]).next_occurrence(w.now) == Some(u);
            assert(s[lo + k] == batch[k]);
            assert(s.contains(batch[k]));
        }
    }
}

/// A task that is pending after a point goes back, by its sequence number,
/// to a task that was pending before: one that was not due at the point,
/// or one that was due there and has a next occurrence.
pub proof fn lemma_pending_goes_back(w: RegistryView, point: u32, index: u64) -> (source: Task)
    requires
        w.valid(),
        point > w.now,
        index_taken(after_point(w, point).pending, index),
    ensures
        w.pending.contains(source),
        index_taken(w.pending, index),
        source.index == index,
        source.due_point != point || source.next_occurrence(point) is Some,
{
    lemma_after_point(w, point);
    let r = after_point(w, point);
    let a = choose|a: int| 0 <= a < r.pending.len() && r.pending[a].index == index;
    let u = r.pending[a];
    assert(r.pending.contains(u));
    let source = if w.pending.contains(u) && u.due_point != point {
        u
    } else {
        choose|t: Task| #[trigger]
            w.pending.contains(t) && t.due_point == point && t.next_occurrence(point) == Some(u)
    };
    let b = choose|b: int| 0 <= b < w.pending.len() && w.pending[b] == source;
    assert(w.pending[b].index == index);
    source
}

/// A task in the batch of a point was pending and due at the point.
pub proof fn lemma_fired_was_pending(w: RegistryView, point: u32, index: u64) -> (source: Task)
    requires
        w.valid(),
        point > w.now,
        index_taken(due_at(w.pending, point), index),
    ensures
        w.pending.contains(source),
        index_taken(w.pending, index),
        source.index == index,
        source.due_point == point,
{
    lemma_after_point(w, point);
    let batch = due_at(w.pending, point);
    let k = choose|k: int| 0 <= k < batch.len() && batch[k].index == index;
    let source = batch[k];
    assert(batch.contains(source));
    let b = choose|b: int| 0 <= b < w.pending.len() && w.pending[b] == source;
    assert(w.pending[b].index == index);
    source
}

} // verus!
