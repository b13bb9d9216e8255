//! What keeps stride scheduling fair: under the dispatch loop the passes of
//! the queued tasks stay within one largest stride of each other, so the
//! comparison across the wraparound never misreads them.

use vstd::prelude::*;
use vstd::arithmetic::div_mod::lemma_div_is_ordered_by_denominator;
use crate::manager::{lemma_stride_pick_in_range, queue_wf, stride_pick};
use crate::order::{
    lemma_behind_in_window, lemma_front_picked_iff_none_behind, lemma_pick_is_front_most_least,
    within_window,
};
use crate::schedule::{
    pass_after, pass_distance, stride_of, ScheduleView, BIG_STRIDE, MAX_STRIDE, MIN_PRIORITY,
};
use crate::task::TaskView;

verus! {

/// The queue after one round of the dispatch loop: the task that stride
/// scheduling selects runs, and comes back to the back of the queue.
pub open spec fn dispatch(q: Seq<TaskView>) -> Seq<TaskView> {
    q.remove(stride_pick(q)).push(q[stride_pick(q)].advanced())
}

/// No pass in `q` is more than the largest stride ahead of the pass of the
/// task that stride scheduling selects.
pub open spec fn spread_bounded(q: Seq<TaskView>) -> bool {
    q.len() > 0 ==> within_window(q, q[stride_pick(q)].pass(), MAX_STRIDE as int)
}

/// Every task in `q` has the priority `priority`, and each task is at most
/// one stride of that priority ahead of every task that stands before it.
pub open spec fn round_robin_ready(q: Seq<TaskView>, priority: isize) -> bool {
    &&& forall|i: int| 0 <= i < q.len() ==> (#[trigger] q[i]).schedule.priority == priority
    &&& forall|i: int, j: int|
        0 <= i < j < q.len() ==> pass_distance((#[trigger] q[j]).pass(), (#[trigger] q[i]).pass())
            <= stride_of(priority)
}

/// A valid priority gives a stride that is positive and at most
/// `MAX_STRIDE`: every scheduling event moves the pass, by less than half
/// the range.
pub proof fn lemma_stride_bounds(s: ScheduleView)
    requires
        s.wf(),
    ensures
        0 < s.stride <= MAX_STRIDE,
{
    lemma_div_is_ordered_by_denominator(BIG_STRIDE as int, MIN_PRIORITY as int, s.priority as int);
    lemma_div_is_ordered_by_denominator(BIG_STRIDE as int, s.priority as int, BIG_STRIDE as int);
}

/// The dispatch loop keeps a queue valid.
pub proof fn lemma_dispatch_keeps_queue_valid(q: Seq<TaskView>)
    requires
        queue_wf(q),
        q.len() > 0,
    ensures
        queue_wf(dispatch(q)),
        dispatch(q).len() == q.len(),
{
    lemma_stride_pick_in_range(q);
    let at = stride_pick(q);
    let next = dispatch(q);
    let last = q.len() - 1;
    assert(next[last] == q[at].advanced());
    assert(q[at].wf());
    assert forall|i: int| 0 <= i < next.len() implies (#[trigger] next[i]).wf() by {
        if i < last {
            assert(next[i] == if i < at { q[i] } else { q[i + 1] });
        }
    }
    assert forall|i: int, j: int| 0 <= i < j < next.len() implies (#[trigger] next[i]).pid != (
    #[trigger] next[j]).pid by {
        assert(next[i] == if i < at { q[i] } else { q[i + 1] });
        if j < last {
            assert(next[j] == if j < at { q[j] } else { q[j + 1] });
        }
    }
}

/// A queue whose tasks all have the same pass has a bounded spread.
pub proof fn lemma_equal_passes_bound_spread(q: Seq<TaskView>)
    requires
        forall|i: int| 0 <= i < q.len() ==> (#[trigger] q[i]).pass() == q[0].pass(),
    ensures
        spread_bounded(q),
{
    if q.len() > 0 {
        lemma_stride_pick_in_range(q);
        assert(q[stride_pick(q)].pass() == q[0].pass());
    }
}

/// The dispatch loop keeps the spread bounded: where no queued pass was
/// more than the largest stride ahead of the least one, none is after the
/// selected task has run and come back.
pub proof fn lemma_dispatch_keeps_spread(q: Seq<TaskView>)
    requires
        queue_wf(q),
        q.len() > 0,
        spread_bounded(q),
    ensures
        spread_bounded(dispatch(q)),
{
    lemma_stride_pick_in_range(q);
    let at = stride_pick(q);
    let base = q[at].pass();
    let next = dispatch(q);
    assert(q[at].wf());
    lemma_stride_bounds(q[at].schedule);
    assert forall|i: int| 0 <= i < next.len() implies pass_distance(
        (#[trigger] next[i]).pass(),
        base,
    ) <= MAX_STRIDE by {
        if i < at {
            assert(next[i] == q[i]);
        } else if i < q.len() - 1 {
            assert(next[i] == q[i + 1]);
        } else {
            assert(next[i] == q[at].advanced());
        }
    }
    lemma_pick_is_front_most_least(next, base);
    let least = next[stride_pick(next)].pass();
    assert forall|i: int| 0 <= i < next.len() implies pass_distance(
        (#[trigger] next[i]).pass(),
        least,
    ) <= MAX_STRIDE by {
        lemma_behind_in_window(next[i].pass(), least, base);
    }
}

/// Tasks of one priority are served in turn: in a queue that is ready for
/// round robin, stride scheduling selects the front task, as first in, first
/// out would, and after that task has run and come back the queue is ready
/// for round robin again.
pub proof fn lemma_equal_priority_is_round_robin(q: Seq<TaskView>, priority: isize)
    requires
        queue_wf(q),
        q.len() > 0,
        round_robin_ready(q, priority),
    ensures
        stride_pick(q) == 0,
        dispatch(q) == q.drop_first().push(q[0].advanced()),
        round_robin_ready(dispatch(q), priority),
{
    let stride = stride_of(priority);
    assert(q[0].wf());
    lemma_stride_bounds(q[0].schedule);
    lemma_front_picked_iff_none_behind(q);
    assert(stride_pick(q) == 0);
    let next = dispatch(q);
    assert(next =~= q.drop_first().push(q[0].advanced()));
    assert forall|i: int| 0 <= i < next.len() implies (#[trigger] next[i]).schedule.priority
        == priority by {
        if i < q.len() - 1 {
            assert(next[i] == q[i + 1]);
        }
    }
    assert forall|i: int, j: int| 0 <= i < j < next.len() implies pass_distance(
        (#[trigger] next[j]).pass(),
        (#[trigger] next[i]).pass(),
    ) <= stride by {
        assert(next[i] == q[i + 1]);
        if j < q.len() - 1 {
            assert(next[j] == q[j + 1]);
        } else {
            assert(next[j] == q[0].advanced());
            assert(pass_distance(q[i + 1].pass(), q[0].pass()) <= stride);
        }
    }
}

/// The queue after `rounds` rounds of the dispatch loop.
pub open spec fn dispatched(q: Seq<TaskView>, rounds: nat) -> Seq<TaskView>
    decreases rounds,
{
    if rounds == 0 {
        q
    } else {
        dispatch(dispatched(q, (rounds - 1) as nat))
    }
}

/// How often the task that goes by `pid` is selected in the first `rounds`
/// rounds of the dispatch loop.
pub open spec fn times_selected(q: Seq<TaskView>, rounds: nat, pid: usize) -> nat
    decreases rounds,
{
    if rounds == 0 {
        0
    } else {
        let before = dispatched(q, (rounds - 1) as nat);
        let earlier = times_selected(q, (rounds - 1) as nat, pid);
        if before[stride_pick(before)].pid == pid {
            earlier + 1
        } else {
            earlier
        }
    }
}

/// The service that `task` has had in the first `rounds` rounds, each of
/// its selections counted by its stride.
pub open spec fn service(q: Seq<TaskView>, rounds: nat, task: TaskView) -> int {
    times_selected(q, rounds, task.pid) * task.schedule.stride
}

/// `x` holds the task `task`, whatever its pass has come to.
pub open spec fn holds_task(x: Seq<TaskView>, task: TaskView) -> bool {
    exists|i: int|
        0 <= i < x.len() && (#[trigger] x[i]).pid == task.pid && x[i].schedule.priority
            == task.schedule.priority && x[i].schedule.stride == task.schedule.stride
}

/// The pass that is reached from `start` once `service` has been had.
spec fn pass_reached(start: u64, service: int) -> int {
    (start + service) % 0x1_0000_0000_0000_0000
}

/// What holds of a queue whose tasks started level, after any number of
/// rounds: each pass is the start moved on by the service of its task, and
/// the services lie within one largest stride of each other.
spec fn level_run(q: Seq<TaskView>, rounds: nat) -> bool {
    let now = dispatched(q, rounds);
    &&& queue_wf(now)
    &&& now.len() == q.len()
    &&& spread_bounded(now)
    &&& forall|i: int|
        0 <= i < now.len() ==> (#[trigger] now[i]).pass() == pass_reached(
            q[0].pass(),
            service(q, rounds, now[i]),
        )
    &&& forall|i: int, j: int|
        0 <= i < now.len() && 0 <= j < now.len() ==> service(q, rounds, #[trigger] now[i])
            - service(q, rounds, #[trigger] now[j]) <= MAX_STRIDE
}

/// One more stride of service moves the pass reached on by that stride.
proof fn lemma_reached_moves_on(start: u64, service: int, pass: u64, stride: u64)
    requires
        pass == pass_reached(start, service),
    ensures
        pass_after(pass, stride) == pass_reached(start, service + stride),
{
}

/// Where two tasks have had nearly the same service and the pass of the one
/// is not far ahead of the pass of the other, the difference of the services
/// is the distance of the passes: no wraparound hides between them.
proof fn lemma_service_is_distance(start: u64, service_a: int, service_b: int, a: u64, b: u64)
    requires
        a == pass_reached(start, service_a),
        b == pass_reached(start, service_b),
        -MAX_STRIDE <= service_a - service_b <= MAX_STRIDE,
        pass_distance(a, b) <= MAX_STRIDE,
    ensures
        service_a - service_b == pass_distance(a, b),
{
}

/// One more selection adds one stride to the service.
proof fn lemma_one_more_selection(times: nat, stride: u64)
    ensures
        (times + 1) * stride == times * stride + stride,
{
    assert((times + 1) * stride == times * stride + stride) by (nonlinear_arith);
}

/// A queue whose tasks start level stays as `level_run` says, round after
/// round.
proof fn lemma_level_run(q: Seq<TaskView>, rounds: nat)
    requires
        queue_wf(q),
        q.len() > 0,
        forall|i: int| 0 <= i < q.len() ==> (#[trigger] q[i]).pass() == q[0].pass(),
    ensures
        level_run(q, rounds),
    decreases rounds,
{
    let start = q[0].pass();
    if rounds == 0 {
        lemma_equal_passes_bound_spread(q);
        assert forall|i: int| 0 <= i < q.len() implies service(q, 0, #[trigger] q[i]) == 0 by {
            assert(times_selected(q, 0, q[i].pid) * q[i].schedule.stride == 0) by (nonlinear_arith)
                requires
                    times_selected(q, 0, q[i].pid) == 0,
            ;
        }
    } else {
        let earlier = (rounds - 1) as nat;
        lemma_level_run(q, earlier);
        let before = dispatched(q, earlier);
        let now = dispatched(q, rounds);
        let at = stride_pick(before);
        lemma_stride_pick_in_range(before);
        lemma_dispatch_keeps_queue_valid(before);
        lemma_dispatch_keeps_spread(before);
        let picked = before[at];
        let stride = picked.schedule.stride;
        assert(picked.wf());
        lemma_stride_bounds(picked.schedule);
        // The task selected is one that has had the least service.
        assert forall|k: int| 0 <= k < before.len() implies service(q, earlier, picked) <= service(
            q,
            earlier,
            #[trigger] before[k],
        ) by {
            lemma_service_is_distance(
                start,
                service(q, earlier, before[k]),
                service(q, earlier, picked),
                before[k].pass(),
                picked.pass(),
            );
        }
        // What each place of the queue holds now, and the service of its task.
        assert forall|i: int| 0 <= i < now.len() implies {
            let from = if i < at {
                i
            } else if i < now.len() - 1 {
                i + 1
            } else {
                at
            };
            &&& 0 <= from < before.len()
            &&& (#[trigger] now[i]).pass() == pass_reached(start, service(q, rounds, now[i]))
            &&& service(q, rounds, now[i]) == service(q, earlier, before[from]) + (if i
                < now.len() - 1 {
                0
            } else {
                stride as int
            })
        } by {
            if i < now.len() - 1 {
                let from = if i < at { i } else { i + 1 };
                assert(now[i] == before[from]);
                assert(before[from].pid != picked.pid);
                assert(times_selected(q, rounds, now[i].pid) == times_selected(
                    q,
                    earlier,
                    now[i].pid,
                ));
            } else {
                assert(now[i] == picked.advanced());
                assert(times_selected(q, rounds, picked.pid) == times_selected(
                    q,
                    earlier,
                    picked.pid,
                ) + 1);
                lemma_one_more_selection(times_selected(q, earlier, picked.pid), stride);
                lemma_reached_moves_on(start, service(q, earlier, picked), picked.pass(), stride);
            }
        }
        assert forall|i: int, j: int| 0 <= i < now.len() && 0 <= j < now.len() implies service(
            q,
            rounds,
            #[trigger] now[i],
        ) - service(q, rounds, #[trigger] now[j]) <= MAX_STRIDE by {
            let from_i = if i < at {
                i
            } else if i < now.len() - 1 {
                i + 1
            } else {
                at
            };
            let from_j = if j < at {
                j
            } else if j < now.len() - 1 {
                j + 1
            } else {
                at
            };
            assert(service(q, earlier, before[from_i]) - service(q, earlier, before[from_j])
                <= MAX_STRIDE);
            assert(service(q, earlier, picked) <= service(q, earlier, before[from_j]));
            assert(service(q, earlier, picked) <= service(q, earlier, before[from_i]));
        }
    }
}

/// The dispatch loop keeps every task in the queue, with its priority and
/// its stride.
pub proof fn lemma_dispatch_keeps_the_tasks(q: Seq<TaskView>, rounds: nat, task: TaskView)
    requires
        q.len() > 0,
        holds_task(q, task),
    ensures
        dispatched(q, rounds).len() == q.len(),
        holds_task(dispatched(q, rounds), task),
    decreases rounds,
{
    if rounds > 0 {
        lemma_dispatch_keeps_the_tasks(q, (rounds - 1) as nat, task);
        let before = dispatched(q, (rounds - 1) as nat);
        let now = dispatch(before);
        let at = stride_pick(before);
        lemma_stride_pick_in_range(before);
        let i = choose|i: int|
            0 <= i < before.len() && (#[trigger] before[i]).pid == task.pid
                && before[i].schedule.priority == task.schedule.priority
                && before[i].schedule.stride == task.schedule.stride;
        if i == at {
            assert(now[now.len() - 1] == before[at].advanced());
        } else if i < at {
            assert(now[i] == before[i]);
        } else {
            assert(now[i - 1] == before[i]);
        }
    }
}

/// Tasks that start level share the processor in proportion to their
/// priorities. Count each selection of a task by its stride: after any
/// number of rounds of the dispatch loop, no task of the queue has had more
/// than one largest stride of service more than any other.
pub proof fn lemma_fair_share(q: Seq<TaskView>, rounds: nat, a: int, b: int)
    requires
        queue_wf(q),
        forall|i: int| 0 <= i < q.len() ==> (#[trigger] q[i]).pass() == q[0].pass(),
        0 <= a < q.len(),
        0 <= b < q.len(),
    ensures
        service(q, rounds, q[a]) - service(q, rounds, q[b]) <= MAX_STRIDE,
{
    lemma_level_run(q, rounds);
    let now = dispatched(q, rounds);
    assert(holds_task(q, q[a]));
    assert(holds_task(q, q[b]));
    lemma_dispatch_keeps_the_tasks(q, rounds, q[a]);
    lemma_dispatch_keeps_the_tasks(q, rounds, q[b]);
    let i = choose|i: int|
        0 <= i < now.len() && (#[trigger] now[i]).pid == q[a].pid && now[i].schedule.priority
            == q[a].schedule.priority && now[i].schedule.stride == q[a].schedule.stride;
    let j = choose|j: int|
        0 <= j < now.len() && (#[trigger] now[j]).pid == q[b].pid && now[j].schedule.priority
            == q[b].schedule.priority && now[j].schedule.stride == q[b].schedule.stride;
    assert(service(q, rounds, now[i]) - service(q, rounds, now[j]) <= MAX_STRIDE);
}

/// The same holds of every stretch of the loop, with twice the bound: from
/// round `from` to round `to`, no task of a queue that started level is
/// selected so much more often than another that, counted by the strides,
/// the one is more than `BIG_STRIDE` ahead of the other.
pub proof fn lemma_fair_share_in_any_window(q: Seq<TaskView>, from: nat, to: nat, a: int, b: int)
    requires
        queue_wf(q),
        forall|i: int| 0 <= i < q.len() ==> (#[trigger] q[i]).pass() == q[0].pass(),
        0 <= a < q.len(),
        0 <= b < q.len(),
        from <= to,
    ensures
        (times_selected(q, to, q[a].pid) - times_selected(q, from, q[a].pid)) * q[a].schedule.stride
            - (times_selected(q, to, q[b].pid) - times_selected(q, from, q[b].pid))
            * q[b].schedule.stride <= BIG_STRIDE,
{
    lemma_fair_share(q, to, a, b);
    lemma_fair_share(q, from, b, a);
    let (a_to, a_from) = (times_selected(q, to, q[a].pid), times_selected(q, from, q[a].pid));
    let (b_to, b_from) = (times_selected(q, to, q[b].pid), times_selected(q, from, q[b].pid));
    let (a_stride, b_stride) = (q[a].schedule.stride, q[b].schedule.stride);
    assert((a_to - a_from) * a_stride == a_to * a_stride - a_from * a_stride) by (nonlinear_arith);
    assert((b_to - b_from) * b_stride == b_to * b_stride - b_from * b_stride) by (nonlinear_arith);
}

} // verus!
