//! What holds of the scheduler as a whole, proved from the contracts of its
//! parts.

use crate::drive::{
    after_point, after_run, firings, lemma_after_point, lemma_fired_was_pending,
    lemma_pending_goes_back,
};
use crate::error::SchedulerError;
use crate::model::{
    due_at, due_from, due_until, first_match, index_taken, lemma_due_range, lemma_due_stretch,
    lemma_match_unique,
    lemma_slot_splits, lemma_with_task_valid, lemma_without_valid, slot, sound,
    RegistryView,
};
use crate::auth::{attribution, CallContext};
use crate::extension::{effect_of, outcome_of};
use crate::task::{ContractCallInput, NewTask, Origin, Selector, Task, TaskName};
use crate::wire::Request;
use vstd::prelude::*;

verus! {

/// The number of the points `first`, `first + interval`,
/// `first + 2 * interval`, ... that are at most `last`: having counted those
/// up to the point before `last`, the next of them is counted if it is
/// `last`.
pub open spec fn reached(first: u32, interval: u32, last: u32) -> nat
    decreases last,
{
    if last < first {
        0
    } else if last == 0 {
        1
    } else {
        let before = reached(first, interval, (last - 1) as u32);
        if first + before * interval == last {
            before + 1
        } else {
            before
        }
    }
}

/// The interval at which a task repeats; a one-shot task counts as
/// repeating every point.
pub open spec fn stride(t: Task) -> u32 {
    match t.period {
        Some((interval, _)) => interval,
        None => 1,
    }
}

/// How often a task fires if the driver reaches all its points: once for a
/// one-shot task and for a periodic task with fewer than two repeats,
/// else as often as it has repeats.
pub open spec fn shots(t: Task) -> nat {
    match t.period {
        Some((_, remaining)) => if remaining < 2 {
            1
        } else {
            remaining as nat
        },
        None => 1,
    }
}

/// The repeats that a periodic task was admitted with; none for a one-shot
/// task.
pub open spec fn repeats(t: Task) -> nat {
    match t.period {
        Some((_, remaining)) => remaining as nat,
        None => 0,
    }
}

/// The pending form of a task after it has fired `j` times.
pub open spec fn occurrence(t: Task, j: nat) -> Task {
    match t.period {
        Some((interval, remaining)) => Task {
            due_point: (t.due_point + j * interval) as u32,
            period: Some((interval, (remaining - j) as u32)),
            ..t
        },
        None => t,
    }
}

/// The lesser of two numbers.
pub open spec fn least(a: nat, b: nat) -> nat {
    if a <= b {
        a
    } else {
        b
    }
}

/// In a valid registry two pending tasks with one sequence number are one
/// task.
pub proof fn lemma_index_names_one(v: RegistryView, a: Task, b: Task)
    requires
        v.valid(),
        v.pending.contains(a),
        v.pending.contains(b),
        a.index == b.index,
    ensures
        a == b,
{
    let i = choose|i: int| 0 <= i < v.pending.len() && v.pending[i] == a;
    let j = choose|j: int| 0 <= j < v.pending.len() && v.pending[j] == b;
    if i != j {
        assert(v.pending[i].index != v.pending[j].index);
    }
}

/// A task whose repeats are not used up after `j` firings fires next as its
/// `j`-th occurrence and is then pending as the one after it, if that has
/// repeats left and its point can be written; otherwise it has no next
/// occurrence.
pub proof fn lemma_next_occurrence(t: Task, j: nat)
    requires
        sound(t),
        j < shots(t),
        t.due_point + j * stride(t) <= u32::MAX,
    ensures
        occurrence(t, j).index == t.index,
        occurrence(t, j).due_point == t.due_point + j * stride(t),
        occurrence(t, 0) == t,
        if j + 1 < shots(t) && t.due_point + (j + 1) * stride(t) <= u32::MAX {
            occurrence(t, j).next_occurrence(occurrence(t, j).due_point) == Some(
                occurrence(t, j + 1),
            )
        } else {
            occurrence(t, j).next_occurrence(occurrence(t, j).due_point) is None
        },
{
    let k = stride(t);
    assert((j + 1) * k == j * k + k) by (nonlinear_arith);
    assert(0 * k == 0) by (nonlinear_arith);
    match t.period {
        Some((interval, remaining)) => {
            let o = occurrence(t, j);
            assert(o.period == Some((interval, (remaining - j) as u32)));
            if j + 1 < shots(t) && t.due_point + (j + 1) * k <= u32::MAX {
                assert(remaining >= 2);
                assert(remaining - j >= 2);
                assert(o.next_occurrence(o.due_point) == Some(occurrence(t, j + 1)));
            }
        },
        None => {},
    }
}

/// The state of a pending task, and the number of its firings, after the
/// driver has gone up to `last`.
pub proof fn lemma_run(v: RegistryView, t: Task, last: u32)
    requires
        v.valid(),
        v.pending.contains(t),
        t.due_point > v.now,
    ensures
        after_run(v, last).valid(),
        after_run(v, last).now == (if last > v.now {
            last
        } else {
            v.now
        }),
        after_run(v, last).next_index == v.next_index,
        t.due_point + reached(t.due_point, stride(t), last) * stride(t) > last,
        reached(t.due_point, stride(t), last) >= 1 ==> t.due_point + (reached(
            t.due_point,
            stride(t),
            last,
        ) - 1) * stride(t) <= last,
        firings(v, t.index, last) == least(shots(t), reached(t.due_point, stride(t), last)),
        if reached(t.due_point, stride(t), last) < shots(t) && t.due_point + reached(
            t.due_point,
            stride(t),
            last,
        ) * stride(t) <= u32::MAX {
            after_run(v, last).pending.contains(
                occurrence(t, reached(t.due_point, stride(t), last)),
            )
        } else {
            !index_taken(after_run(v, last).pending, t.index)
        },
        last > v.now ==> (index_taken(
            due_at(after_run(v, (last - 1) as u32).pending, last),
            t.index,
        ) <==> reached(t.due_point, stride(t), last) <= shots(t) && reached(
            t.due_point,
            stride(t),
            last,
        ) >= 1 && t.due_point + (reached(t.due_point, stride(t), last) - 1) * stride(t) == last),
    decreases last,
{
    let first = t.due_point;
    let k = stride(t);
    let x = t.index;
    let i0 = choose|i: int| 0 <= i < v.pending.len() && v.pending[i] == t;
    assert(sound(v.pending[i0]));
    assert(k >= 1);
    assert(0 * k == 0) by (nonlinear_arith);
    if last <= v.now {
        assert(reached(first, k, last) == 0);
        lemma_next_occurrence(t, 0);
    } else {
        let prev = (last - 1) as u32;
        lemma_run(v, t, prev);
        let w = after_run(v, prev);
        let c0 = reached(first, k, prev);
        let c = reached(first, k, last);
        let d = first + c0 * k;
        let r = after_run(v, last);
        let batch = due_at(w.pending, last);
        assert(r == after_point(w, last));
        assert(w.now == prev);
        lemma_after_point(w, last);
        assert((c0 + 1) * k == c0 * k + k) by (nonlinear_arith);
        assert(c0 >= 1 ==> (c0 - 1) * k + k == c0 * k) by (nonlinear_arith);
        assert(c == if d == last {
            c0 + 1
        } else {
            c0
        });
        if c0 < shots(t) && d <= u32::MAX {
            let o = occurrence(t, c0);
            lemma_next_occurrence(t, c0);
            assert(w.pending.contains(o));
            if d == last {
                assert(batch.contains(o));
                let kb = choose|kb: int| 0 <= kb < batch.len() && batch[kb] == o;
                assert(batch[kb].index == x);
                assert(index_taken(batch, x));
                if c < shots(t) && first + c * k <= u32::MAX {
                    assert(r.pending.contains(occurrence(t, c)));
                } else {
                    assert(o.next_occurrence(last) is None);
                    if index_taken(r.pending, x) {
                        let source = lemma_pending_goes_back(w, last, x);
                        lemma_index_names_one(w, source, o);
                    }
                }
            } else {
                assert(r.pending.contains(o));
                if index_taken(batch, x) {
                    let source = lemma_fired_was_pending(w, last, x);
                    lemma_index_names_one(w, source, o);
                }
            }
        } else {
            assert(!index_taken(w.pending, x));
            if index_taken(batch, x) {
                let _ = lemma_fired_was_pending(w, last, x);
            }
            if index_taken(r.pending, x) {
                let _ = lemma_pending_goes_back(w, last, x);
            }
        }
    }
}

/// The `j`-th point of a task: `j` intervals behind the point at which it
/// is first due.
pub open spec fn point_of(t: Task, j: nat) -> int {
    t.due_point + j * stride(t)
}

/// A request for a point that is not in the future is refused as being in
/// the past, whatever else holds of it. A refused request leaves the
/// registry as it was.
pub proof fn past_point_is_refused(v: RegistryView, request: NewTask)
    requires
        request.due_point <= v.now,
    ensures
        v.admission_error(request) == Some(SchedulerError::TargetBlockNumberInPast),
{
}

/// An admitted task is pending, every task that was pending still is, and
/// the registry stays valid.
pub proof fn admitted_task_is_pending(v: RegistryView, request: NewTask)
    requires
        v.valid(),
        v.admission_error(request) is None,
    ensures
        v.enrolled(request).valid(),
        v.enrolled(request).now == v.now,
        v.enrolled(request).pending.contains(v.admitted_task(request)),
        forall|t: Task| v.pending.contains(t) ==> #[trigger] v.enrolled(request).pending.contains(t),
{
    let task = v.admitted_task(request);
    let u = RegistryView { next_index: (v.next_index + 1) as u64, ..v };
    assert(request.period matches Some((interval, _)) ==> interval != 0);
    assert(sound(task));
    assert(u.valid());
    assert(!index_taken(v.pending, task.index));
    lemma_with_task_valid(u, task);
    lemma_slot_splits(v.pending, task.due_point, task.priority);
    crate::drive::lemma_insert_contains(
        v.pending,
        slot(v.pending, task.due_point, task.priority) as int,
        task,
    );
}

/// Driving a valid registry keeps it valid; the current point is then the
/// last point reached, and no sequence number was handed out.
pub proof fn run_keeps_valid(v: RegistryView, last: u32)
    requires
        v.valid(),
    ensures
        after_run(v, last).valid(),
        after_run(v, last).now == (if last > v.now {
            last
        } else {
            v.now
        }),
        after_run(v, last).next_index == v.next_index,
    decreases last,
{
    if last > v.now {
        run_keeps_valid(v, (last - 1) as u32);
        lemma_after_point(after_run(v, (last - 1) as u32), last);
    }
}

/// A one-shot task fires exactly once, when the driver reaches its point,
/// and is not pending afterwards; until then it is pending and has not
/// fired.
pub proof fn one_shot_fires_exactly_once(v: RegistryView, t: Task, last: u32)
    requires
        v.valid(),
        v.pending.contains(t),
        t.due_point > v.now,
        t.period is None,
    ensures
        firings(v, t.index, last) == (if last >= t.due_point {
            1nat
        } else {
            0nat
        }),
        last >= t.due_point ==> !index_taken(after_run(v, last).pending, t.index),
        last < t.due_point ==> after_run(v, last).pending.contains(t),
{
    lemma_run(v, t, last);
    let c = reached(t.due_point, 1, last);
    assert(0 * 1 == 0 && c * 1 == c && (c - 1) * 1 == c - 1) by (nonlinear_arith);
}

/// When the driver reaches the point of a one-shot task, the batch of that
/// point holds the task, no task of a batch shares its sequence number with
/// another, and the task is not pending afterwards.
pub proof fn one_shot_fires_at_its_point(v: RegistryView, t: Task)
    requires
        v.valid(),
        v.pending.contains(t),
        t.due_point > v.now,
        t.period is None,
    ensures
        due_at(v.pending, t.due_point).contains(t),
        crate::model::distinct(due_at(v.pending, t.due_point)),
        !index_taken(after_point(v, t.due_point).pending, t.index),
{
    let point = t.due_point;
    let r = after_point(v, point);
    lemma_after_point(v, point);
    if index_taken(r.pending, t.index) {
        let source = lemma_pending_goes_back(v, point, t.index);
        lemma_index_names_one(v, source, t);
    }
}

/// A periodic task with fewer than two repeats, none included, fires as a
/// one-shot task does: exactly once, when the driver reaches its point,
/// and it is not pending afterwards.
pub proof fn task_with_under_two_repeats_fires_once(v: RegistryView, t: Task, last: u32)
    requires
        v.valid(),
        v.pending.contains(t),
        t.due_point > v.now,
        t.period matches Some((_, n)) && n < 2,
    ensures
        firings(v, t.index, last) == (if last >= t.due_point {
            1nat
        } else {
            0nat
        }),
        last >= t.due_point ==> !index_taken(after_run(v, last).pending, t.index),
        last < t.due_point ==> after_run(v, last).pending.contains(t),
{
    lemma_run(v, t, last);
    let i = choose|i: int| 0 <= i < v.pending.len() && v.pending[i] == t;
    assert(sound(v.pending[i]));
    reached_counts_points(t.due_point, stride(t), last);
    assert(0 * stride(t) == 0) by (nonlinear_arith);
    lemma_next_occurrence(t, 0);
}

/// A periodic task with `n >= 1` repeats, first due at `P` with interval
/// `k`, has fired, once the driver has gone up to `last`, as often as the
/// lesser of `n` and the number of the points `P`, `P + k`, `P + 2k`, ...
/// that the driver has reached; after `n` firings it is not pending.
pub proof fn periodic_task_fires_its_count(v: RegistryView, t: Task, last: u32)
    requires
        v.valid(),
        v.pending.contains(t),
        t.due_point > v.now,
        t.period matches Some((_, n)) && n >= 1,
    ensures
        firings(v, t.index, last) == least(
            repeats(t),
            reached(t.due_point, stride(t), last),
        ),
        reached(t.due_point, stride(t), last) >= repeats(t) ==> !index_taken(
            after_run(v, last).pending,
            t.index,
        ),
{
    lemma_run(v, t, last);
}

/// A periodic task with `n >= 1` repeats fires at a point that the driver
/// reaches if and only if the point is one of its first `n` points.
pub proof fn periodic_task_fires_at_its_points(v: RegistryView, t: Task, point: u32)
    requires
        v.valid(),
        v.pending.contains(t),
        t.due_point > v.now,
        t.period matches Some((_, n)) && n >= 1,
        point > v.now,
    ensures
        index_taken(due_at(after_run(v, (point - 1) as u32).pending, point), t.index)
            <==> exists|j: nat| j < repeats(t) && #[trigger] point_of(t, j) == point,
{
    lemma_run(v, t, point);
    let k = stride(t) as int;
    let n = repeats(t);
    let c = reached(t.due_point, stride(t), point) as int;
    let first = t.due_point as int;
    if index_taken(due_at(after_run(v, (point - 1) as u32).pending, point), t.index) {
        let j = (c - 1) as nat;
        assert(point_of(t, j) == point);
    }
    if exists|j: nat| j < n && #[trigger] point_of(t, j) == point {
        let j = choose|j: nat| j < n && #[trigger] point_of(t, j) == point;
        let ji = j as int;
        assert(first + ji * k == point);
        assert(0 * k == 0) by (nonlinear_arith);
        assert(c >= 1);
        assert(c - 1 <= ji) by (nonlinear_arith)
            requires
                (c - 1) * k <= ji * k,
                k >= 1,
        ;
        assert(ji < c) by (nonlinear_arith)
            requires
                ji * k < c * k,
                k >= 1,
        ;
    }
}

/// A task that is not pending does not fire, whatever points the driver
/// reaches, and does not become pending.
pub proof fn absent_task_never_fires(v: RegistryView, index: u64, last: u32)
    requires
        v.valid(),
        !index_taken(v.pending, index),
    ensures
        firings(v, index, last) == 0,
        !index_taken(after_run(v, last).pending, index),
    decreases last,
{
    if last > v.now {
        let prev = (last - 1) as u32;
        absent_task_never_fires(v, index, prev);
        run_keeps_valid(v, prev);
        let w = after_run(v, prev);
        let r = after_run(v, last);
        let batch = due_at(w.pending, last);
        lemma_after_point(w, last);
        if index_taken(batch, index) {
            let _ = lemma_fired_was_pending(w, last, index);
        }
        if index_taken(r.pending, index) {
            let _ = lemma_pending_goes_back(w, last, index);
        }
    }
}

/// A cancelled task is gone: it is not pending, it never fires, and a
/// second attempt to cancel it finds nothing.
pub proof fn cancelled_task_never_fires(v: RegistryView, selector: Selector, last: u32)
    requires
        v.valid(),
        v.removal_error(selector) is None,
    ensures
        v.cancelled(selector).valid(),
        !index_taken(
            v.cancelled(selector).pending,
            v.pending[first_match(v.pending, selector)].index,
        ),
        firings(
            v.cancelled(selector),
            v.pending[first_match(v.pending, selector)].index,
            last,
        ) == 0,
        v.cancelled(selector).removal_error(selector) == Some(SchedulerError::NotFound),
{
    let s = v.pending;
    let w = choose|i: int| 0 <= i < s.len() && (#[trigger] s[i]).answers(selector);
    lemma_match_unique(v, selector, w);
    let i = first_match(s, selector);
    let c = v.cancelled(selector);
    lemma_without_valid(v, i);
    let r = c.pending;
    assert forall|a: int| 0 <= a < r.len() implies (#[trigger] r[a]).index != s[i].index && !r[a].answers(
        selector,
    ) by {
        let a2 = if a < i { a } else { a + 1 };
        assert(r[a] == s[a2]);
        assert(s[i].index != s[a2].index && (s[i].name is Some ==> s[i].name != s[a2].name));
    }
    absent_task_never_fires(c, s[i].index, last);
}

/// Cancelling by position a task that is not pending finds nothing.
pub proof fn cancel_of_absent_is_not_found(v: RegistryView, due_point: u32, index: u64)
    requires
        !index_taken(v.pending, index),
    ensures
        v.removal_error(Selector::Position { due_point, index }) == Some(
            SchedulerError::NotFound,
        ),
{
}

/// The batch of a point is handed out once: after it was taken, no pending
/// task is due at that point.
pub proof fn batch_is_handed_out_once(v: RegistryView, point: u32)
    requires
        v.valid(),
    ensures
        due_at(v.popped(point).pending, point) == Seq::<Task>::empty(),
{
    let s = v.pending;
    lemma_due_range(s, point);
    let lo = due_from(s, point) as int;
    let hi = due_until(s, point) as int;
    let r = v.popped(point).pending;
    assert(r =~= s.subrange(0, lo) + s.subrange(hi, s.len() as int));
    assert forall|a: int| 0 <= a < r.len() implies ((#[trigger] r[a]).due_point == point <==> 0 <= a
        < 0) by {
        let a2 = if a < lo { a } else { a + (hi - lo) };
        assert(r[a] == s[a2]);
    }
    lemma_due_stretch(r, point, 0, 0);
    assert(due_at(r, point) =~= Seq::<Task>::empty());
}

/// Of two tasks in the batch of a point, the one with the lower priority
/// value fires first, wherever admission has put it.
pub proof fn lower_priority_value_fires_first(v: RegistryView, point: u32, a: int, b: int)
    requires
        v.valid(),
        0 <= a < due_at(v.pending, point).len(),
        0 <= b < due_at(v.pending, point).len(),
        due_at(v.pending, point)[a].priority < due_at(v.pending, point)[b].priority,
    ensures
        a < b,
{
    let s = v.pending;
    lemma_due_range(s, point);
    let lo = due_from(s, point) as int;
    let batch = due_at(s, point);
    assert(batch[a] == s[lo + a] && batch[b] == s[lo + b]);
    if b < a {
        assert(s[lo + b].not_after(s[lo + a].due_point, s[lo + a].priority));
    }
}

/// Of two tasks of equal priority in the batch of a point, the one that
/// stands first in the registry fires first: admission puts a task behind
/// those of its key, so that is the one placed earlier.
pub proof fn batch_keeps_registry_order(v: RegistryView, point: u32, a: int, b: int)
    requires
        v.valid(),
        0 <= a < b < due_at(v.pending, point).len(),
    ensures
        exists|i: int, j: int|
            0 <= i < j < v.pending.len() && #[trigger] v.pending[i] == due_at(v.pending, point)[a]
                && #[trigger] v.pending[j] == due_at(v.pending, point)[b],
{
    let s = v.pending;
    lemma_due_range(s, point);
    let lo = due_from(s, point) as int;
    let batch = due_at(s, point);
    assert(batch[a] == s[lo + a] && batch[b] == s[lo + b]);
}

/// A task admitted later but with a lower priority value than another due
/// at the same point fires before it: the batch of that point holds both,
/// the later one in front.
pub proof fn priority_beats_insertion_order(v: RegistryView, earlier: NewTask, later: NewTask)
    requires
        v.valid(),
        v.admission_error(earlier) is None,
        v.enrolled(earlier).admission_error(later) is None,
        earlier.due_point == later.due_point,
        later.priority < earlier.priority,
    ensures
        due_at(v.enrolled(earlier).enrolled(later).pending, later.due_point).contains(
            v.enrolled(earlier).admitted_task(later),
        ),
        due_at(v.enrolled(earlier).enrolled(later).pending, later.due_point).contains(
            v.admitted_task(earlier),
        ),
        forall|a: int, b: int|
            #![trigger
                due_at(v.enrolled(earlier).enrolled(later).pending, later.due_point)[a],
                due_at(v.enrolled(earlier).enrolled(later).pending, later.due_point)[b]
            ]
            0 <= a < due_at(v.enrolled(earlier).enrolled(later).pending, later.due_point).len()
                && 0 <= b < due_at(
                v.enrolled(earlier).enrolled(later).pending,
                later.due_point,
            ).len() && due_at(v.enrolled(earlier).enrolled(later).pending, later.due_point)[a]
                == v.enrolled(earlier).admitted_task(later) && due_at(
                v.enrolled(earlier).enrolled(later).pending,
                later.due_point,
            )[b] == v.admitted_task(earlier) ==> a < b,
{
    let v1 = v.enrolled(earlier);
    let v2 = v1.enrolled(later);
    let batch = due_at(v2.pending, later.due_point);
    admitted_task_is_pending(v, earlier);
    admitted_task_is_pending(v1, later);
    lemma_after_point(v2, later.due_point);
    assert forall|a: int, b: int|
        #![trigger batch[a], batch[b]]
        0 <= a < batch.len() && 0 <= b < batch.len() && batch[a] == v1.admitted_task(later)
            && batch[b] == v.admitted_task(earlier) implies a < b by {
        lower_priority_value_fires_first(v2, later.due_point, a, b);
    }
}

/// A request to schedule for a point that is not in the future, named or
/// not, made with an origin that resolves, is refused as being in the past and leaves the
/// registry as it was.
pub proof fn past_point_is_refused_at_the_boundary(
    v: RegistryView,
    context: CallContext,
    name: TaskName,
    origin: Origin,
    due_point: u32,
    maybe_periodic: Option<(u32, u32)>,
    priority: u8,
    call_input: ContractCallInput,
)
    requires
        attribution(origin, context) is Ok,
        due_point <= v.now,
    ensures
        outcome_of(
            v,
            context,
            Request::Schedule { origin, when: due_point, maybe_periodic, priority, call_input },
        ) == Err::<(), SchedulerError>(SchedulerError::TargetBlockNumberInPast),
        effect_of(
            v,
            context,
            Request::Schedule { origin, when: due_point, maybe_periodic, priority, call_input },
        ) == v,
        outcome_of(
            v,
            context,
            Request::ScheduleNamed {
                name,
                origin,
                when: due_point,
                maybe_periodic,
                priority,
                call_input,
            },
        ) == Err::<(), SchedulerError>(SchedulerError::TargetBlockNumberInPast),
        effect_of(
            v,
            context,
            Request::ScheduleNamed {
                name,
                origin,
                when: due_point,
                maybe_periodic,
                priority,
                call_input,
            },
        ) == v,
{
}

/// `reached` counts the points of a task that are at most `last`: the
/// point behind the last one counted lies beyond `last`, the last one
/// counted does not, and the first point is counted as soon as it is
/// reached.
pub proof fn reached_counts_points(first: u32, interval: u32, last: u32)
    requires
        interval >= 1,
    ensures
        first + reached(first, interval, last) * interval > last,
        reached(first, interval, last) >= 1 ==> first + (reached(first, interval, last) - 1)
            * interval <= last,
        last >= first <==> reached(first, interval, last) >= 1,
    decreases last,
{
    let k = interval as int;
    assert(0 * k == 0) by (nonlinear_arith);
    if last >= first && last > 0 {
        reached_counts_points(first, interval, (last - 1) as u32);
        let c0 = reached(first, interval, (last - 1) as u32) as int;
        assert((c0 + 1) * k == c0 * k + k) by (nonlinear_arith);
        assert(c0 >= 1 ==> (c0 - 1) * k + k == c0 * k) by (nonlinear_arith);
    } else if last >= first {
        assert(1 * k == k) by (nonlinear_arith);
    }
}

} // verus!
