//! The order in which stride scheduling hands out the tasks of a queue.

use vstd::prelude::*;
use vstd::seq_lib::{to_multiset_insert, to_multiset_remove};
use crate::manager::{lemma_stride_pick_in_range, queue_contains, queue_wf, stride_pick};
use crate::schedule::{pass_after, pass_behind, pass_distance};
use crate::task::TaskView;

verus! {

/// Every pass in `q` lies at most `width` steps ahead of `base`.
pub open spec fn within_window(q: Seq<TaskView>, base: u64, width: int) -> bool {
    forall|i: int| 0 <= i < q.len() ==> pass_distance((#[trigger] q[i]).pass(), base) <= width
}

/// No task in `q` is behind a task that stands before it.
pub open spec fn in_pass_order(q: Seq<TaskView>) -> bool {
    forall|i: int, j: int|
        0 <= i < j < q.len() ==> !pass_behind((#[trigger] q[j]).pass(), (#[trigger] q[i]).pass())
}

/// Every task of `q` after one scheduling event, in the order of `q`.
pub open spec fn all_advanced(q: Seq<TaskView>) -> Seq<TaskView> {
    q.map_values(|t: TaskView| t.advanced())
}

/// The tasks that stride scheduling returns when it is called on `q` until
/// the queue is empty and nothing is added meanwhile, first call first.
pub open spec fn stride_order(q: Seq<TaskView>) -> Seq<TaskView>
    decreases q.len(),
    via stride_order_decreases
{
    if q.len() == 0 {
        Seq::empty()
    } else {
        seq![q[stride_pick(q)].advanced()] + stride_order(q.remove(stride_pick(q)))
    }
}

#[via_fn]
proof fn stride_order_decreases(q: Seq<TaskView>) {
    if q.len() != 0 {
        lemma_stride_pick_in_range(q);
    }
}

/// A pass that lies less than half the range ahead of another one compares
/// as ahead of it, also where the addition wrapped past the largest value:
/// the other one is behind it, and it is not behind the other one.
pub proof fn lemma_behind_across_wraparound(pass: u64, steps: u64)
    requires
        0 < steps < 0x8000_0000_0000_0000,
    ensures
        pass_behind(pass, pass_after(pass, steps)),
        !pass_behind(pass_after(pass, steps), pass),
{
}

/// Passes that lie within half the range ahead of a common base compare as
/// their distances from that base do.
pub proof fn lemma_behind_in_window(a: u64, b: u64, base: u64)
    requires
        pass_distance(a, base) < 0x8000_0000_0000_0000,
        pass_distance(b, base) < 0x8000_0000_0000_0000,
    ensures
        pass_behind(a, b) <==> pass_distance(a, base) < pass_distance(b, base),
        pass_distance(a, base) >= pass_distance(b, base) ==> pass_distance(a, b) == pass_distance(
            a,
            base,
        ) - pass_distance(b, base),
{
}

/// Stride scheduling selects the front of the queue exactly when no task is
/// behind the front one.
pub proof fn lemma_front_picked_iff_none_behind(q: Seq<TaskView>)
    requires
        q.len() > 0,
    ensures
        stride_pick(q) == 0 <==> forall|j: int|
            0 < j < q.len() ==> !pass_behind((#[trigger] q[j]).pass(), q[0].pass()),
    decreases q.len(),
{
    if q.len() > 1 {
        let front = q.drop_last();
        lemma_front_picked_iff_none_behind(front);
        lemma_stride_pick_in_range(front);
        if stride_pick(front) == 0 {
            if stride_pick(q) == 0 {
                assert forall|j: int| 0 < j < q.len() implies !pass_behind(
                    (#[trigger] q[j]).pass(),
                    q[0].pass(),
                ) by {
                    if j < q.len() - 1 {
                        assert(front[j] == q[j]);
                    }
                }
            } else {
                assert(pass_behind(q[q.len() - 1].pass(), q[0].pass()));
            }
        } else {
            let j = choose|j: int|
                0 < j < front.len() && pass_behind((#[trigger] front[j]).pass(), front[0].pass());
            assert(pass_behind(q[j].pass(), q[0].pass()));
        }
    }
}

/// Two tasks with the same pass, whatever their priorities: the one that
/// was added first is selected first.
pub proof fn lemma_tie_goes_to_first_added(a: TaskView, b: TaskView)
    requires
        a.pass() == b.pass(),
    ensures
        stride_pick(seq![a, b]) == 0,
{
    let q = seq![a, b];
    lemma_front_picked_iff_none_behind(q);
}

/// Where the passes of a queue lie within half the range ahead of a common
/// base, stride scheduling selects a task whose pass is least, and among
/// those the one nearest the front: every task before it is strictly ahead.
pub proof fn lemma_pick_is_front_most_least(q: Seq<TaskView>, base: u64)
    requires
        q.len() > 0,
        within_window(q, base, 0x7fff_ffff_ffff_ffff),
    ensures
        0 <= stride_pick(q) < q.len(),
        forall|j: int|
            0 <= j < q.len() ==> pass_distance(q[stride_pick(q)].pass(), base) <= pass_distance(
                (#[trigger] q[j]).pass(),
                base,
            ),
        forall|j: int|
            0 <= j < stride_pick(q) ==> pass_distance(q[stride_pick(q)].pass(), base)
                < pass_distance((#[trigger] q[j]).pass(), base),
    decreases q.len(),
{
    if q.len() > 1 {
        let front = q.drop_last();
        assert forall|i: int| 0 <= i < front.len() implies pass_distance(
            (#[trigger] front[i]).pass(),
            base,
        ) <= 0x7fff_ffff_ffff_ffff by {
            assert(front[i] == q[i]);
        }
        lemma_pick_is_front_most_least(front, base);
        let best = stride_pick(front);
        lemma_behind_in_window(q.last().pass(), q[best].pass(), base);
        assert(front[best] == q[best]);
        assert forall|j: int| 0 <= j < q.len() implies pass_distance(
            q[stride_pick(q)].pass(),
            base,
        ) <= pass_distance((#[trigger] q[j]).pass(), base) by {
            if j < q.len() - 1 {
                assert(front[j] == q[j]);
            }
        }
        assert forall|j: int| 0 <= j < stride_pick(q) implies pass_distance(
            q[stride_pick(q)].pass(),
            base,
        ) < pass_distance((#[trigger] q[j]).pass(), base) by {
            assert(front[j] == q[j]);
        }
    }
}

/// Tasks in pass order leave the queue in the order in which they stand in
/// it. Tasks of one priority that were added when none of them had run, or
/// when all had run equally often, are such a queue: stride scheduling then
/// returns them in the order in which they were added.
pub proof fn lemma_pass_order_is_fifo(q: Seq<TaskView>)
    requires
        in_pass_order(q),
    ensures
        stride_order(q) == all_advanced(q),
    decreases q.len(),
{
    if q.len() == 0 {
        assert(stride_order(q) =~= all_advanced(q));
    } else {
        lemma_front_picked_iff_none_behind(q);
        let rest = q.remove(0);
        assert forall|i: int, j: int| 0 <= i < j < rest.len() implies !pass_behind(
            (#[trigger] rest[j]).pass(),
            (#[trigger] rest[i]).pass(),
        ) by {
            assert(rest[i] == q[i + 1]);
            assert(rest[j] == q[j + 1]);
        }
        lemma_pass_order_is_fifo(rest);
        assert(stride_order(q) =~= all_advanced(q));
    }
}

/// Nothing else leaves in the order of the queue: where the tasks go by
/// different identifiers and stride scheduling returns them as they stand,
/// they stand in pass order.
pub proof fn lemma_fifo_only_in_pass_order(q: Seq<TaskView>)
    requires
        queue_wf(q),
        stride_order(q) == all_advanced(q),
    ensures
        in_pass_order(q),
    decreases q.len(),
{
    if q.len() > 0 {
        lemma_stride_pick_in_range(q);
        let at = stride_pick(q);
        assert(stride_order(q)[0] == q[at].advanced());
        assert(all_advanced(q)[0] == q[0].advanced());
        assert(q[at].pid == q[0].pid);
        assert(at == 0);
        let rest = q.remove(0);
        assert(stride_order(rest) =~= stride_order(q).drop_first());
        assert(all_advanced(rest) =~= all_advanced(q).drop_first());
        assert(queue_wf(rest)) by {
            assert forall|i: int| 0 <= i < rest.len() implies (#[trigger] rest[i]).wf() by {
                assert(rest[i] == q[i + 1]);
            }
            assert forall|i: int, j: int| 0 <= i < j < rest.len() implies (#[trigger] rest[i]).pid
                != (#[trigger] rest[j]).pid by {
                assert(rest[i] == q[i + 1]);
                assert(rest[j] == q[j + 1]);
            }
        }
        lemma_fifo_only_in_pass_order(rest);
        lemma_front_picked_iff_none_behind(q);
        assert forall|i: int, j: int| 0 <= i < j < q.len() implies !pass_behind(
            (#[trigger] q[j]).pass(),
            (#[trigger] q[i]).pass(),
        ) by {
            if i > 0 {
                assert(rest[i - 1] == q[i]);
                assert(rest[j - 1] == q[j]);
            }
        }
    }
}

/// Repeated stride scheduling returns every task of the queue, each of them
/// once and moved on by one stride: nothing is lost and nothing comes twice.
pub proof fn lemma_every_task_returned_once(q: Seq<TaskView>)
    ensures
        stride_order(q).len() == q.len(),
        stride_order(q).to_multiset() == all_advanced(q).to_multiset(),
    decreases q.len(),
{
    if q.len() == 0 {
        assert(stride_order(q) =~= all_advanced(q));
    } else {
        lemma_stride_pick_in_range(q);
        let at = stride_pick(q);
        let rest = q.remove(at);
        let head = q[at].advanced();
        lemma_every_task_returned_once(rest);
        assert(stride_order(q) =~= stride_order(rest).insert(0, head));
        to_multiset_insert(stride_order(rest), 0, head);
        assert(all_advanced(rest) =~= all_advanced(q).remove(at));
        to_multiset_remove(all_advanced(q), at);
        assert(all_advanced(q).to_multiset().count(head) > 0) by {
            assert(all_advanced(q)[at] == head);
            vstd::seq_lib::to_multiset_contains(all_advanced(q), head);
        }
        assert(all_advanced(q).to_multiset().remove(head).insert(head) =~= all_advanced(
            q,
        ).to_multiset());
    }
}

/// From a queue whose tasks go by different identifiers, repeated stride
/// scheduling returns tasks that go by different identifiers, and a task
/// is returned exactly if it was in the queue.
pub proof fn lemma_returned_tasks_are_the_queued_ones(q: Seq<TaskView>)
    requires
        queue_wf(q),
    ensures
        queue_wf(stride_order(q)),
        forall|pid: usize| queue_contains(stride_order(q), pid) <==> queue_contains(q, pid),
    decreases q.len(),
{
    if q.len() == 0 {
        assert(stride_order(q) =~= Seq::<TaskView>::empty());
    } else {
        lemma_stride_pick_in_range(q);
        let at = stride_pick(q);
        let rest = q.remove(at);
        let head = q[at].advanced();
        let order = stride_order(q);
        let tail = stride_order(rest);
        assert(queue_wf(rest)) by {
            assert forall|i: int| 0 <= i < rest.len() implies (#[trigger] rest[i]).wf() by {
                assert(rest[i] == if i < at { q[i] } else { q[i + 1] });
            }
            assert forall|i: int, j: int| 0 <= i < j < rest.len() implies (#[trigger] rest[i]).pid
                != (#[trigger] rest[j]).pid by {
                assert(rest[i] == if i < at { q[i] } else { q[i + 1] });
                assert(rest[j] == if j < at { q[j] } else { q[j + 1] });
            }
        }
        lemma_returned_tasks_are_the_queued_ones(rest);
        assert(order =~= seq![head] + tail);
        assert(!queue_contains(rest, head.pid)) by {
            if queue_contains(rest, head.pid) {
                let i = choose|i: int| 0 <= i < rest.len() && (#[trigger] rest[i]).pid == head.pid;
                assert(rest[i] == if i < at { q[i] } else { q[i + 1] });
            }
        }
        assert forall|pid: usize| queue_contains(order, pid) <==> queue_contains(q, pid) by {
            if queue_contains(order, pid) {
                let i = choose|i: int| 0 <= i < order.len() && (#[trigger] order[i]).pid == pid;
                if i == 0 {
                    assert(q[at].pid == pid);
                } else {
                    assert(tail[i - 1].pid == pid);
                    assert(queue_contains(rest, pid));
                    let k = choose|k: int| 0 <= k < rest.len() && (#[trigger] rest[k]).pid == pid;
                    assert(rest[k] == if k < at { q[k] } else { q[k + 1] });
                }
            }
            if queue_contains(q, pid) {
                let i = choose|i: int| 0 <= i < q.len() && (#[trigger] q[i]).pid == pid;
                if i == at {
                    assert(order[0].pid == pid);
                } else {
                    let k = if i < at { i } else { i - 1 };
                    assert(rest[k] == q[i]);
                    assert(queue_contains(rest, pid));
                    let m = choose|m: int| 0 <= m < tail.len() && (#[trigger] tail[m]).pid == pid;
                    assert(order[m + 1].pid == pid);
                }
            }
        }
        assert forall|i: int| 0 <= i < order.len() implies (#[trigger] order[i]).wf() by {
            if i > 0 {
                assert(order[i] == tail[i - 1]);
            } else {
                assert(q[at].wf());
            }
        }
        assert forall|i: int, j: int| 0 <= i < j < order.len() implies (#[trigger] order[i]).pid
            != (#[trigger] order[j]).pid by {
            assert(order[j] == tail[j - 1]);
            if i > 0 {
                assert(order[i] == tail[i - 1]);
            } else {
                if head.pid == tail[j - 1].pid {
                    assert(queue_contains(tail, head.pid));
                }
            }
        }
    }
}

} // verus!
