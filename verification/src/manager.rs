//! The ready queue and the two policies that take the next task from it:
//! first in, first out, and stride scheduling.

use std::collections::VecDeque;
use vstd::prelude::*;
use crate::schedule::{is_behind, pass_behind};
use crate::task::{Task, TaskView};

verus! {

/// Some task in `q` goes by `pid`.
pub open spec fn queue_contains(q: Seq<TaskView>, pid: usize) -> bool {
    exists|i: int| 0 <= i < q.len() && (#[trigger] q[i]).pid == pid
}

/// Every task in `q` is valid and no two of them share an identifier.
pub open spec fn queue_wf(q: Seq<TaskView>) -> bool {
    &&& forall|i: int| 0 <= i < q.len() ==> (#[trigger] q[i]).wf()
    &&& forall|i: int, j: int|
        0 <= i < j < q.len() ==> (#[trigger] q[i]).pid != (#[trigger] q[j]).pid
}

/// The position that stride scheduling selects in a queue that is not empty.
///
/// The queue is read from the front, keeping the best position so far; a
/// later task replaces it only when its pass is behind the pass kept. Among
/// tasks that are equally far the one nearest the front is therefore chosen.
/// Being behind is no order on passes that lie half the range apart, so the
/// reading is what defines the selection for every queue; where the passes
/// lie closer, the task selected is the front-most of those with the least
/// pass (`order::lemma_pick_is_front_most_least`).
pub open spec fn stride_pick(q: Seq<TaskView>) -> int
    decreases q.len(),
{
    if q.len() <= 1 {
        0
    } else {
        let best = stride_pick(q.drop_last());
        if pass_behind(q.last().pass(), q[best].pass()) {
            q.len() - 1
        } else {
            best
        }
    }
}

/// The position selected lies in the queue.
pub proof fn lemma_stride_pick_in_range(q: Seq<TaskView>)
    requires
        q.len() > 0,
    ensures
        0 <= stride_pick(q) < q.len(),
    decreases q.len(),
{
    if q.len() > 1 {
        lemma_stride_pick_in_range(q.drop_last());
    }
}

/// The policy by which the next task is taken from the ready queue.
#[derive(Clone, Copy, Debug, PartialEq, Eq, Structural)]
pub enum Policy {
    /// The task that has waited longest.
    Fifo,
    /// The task whose pass is least, the one nearest the front among equals.
    Stride,
}

/// The tasks that are ready to run, in the order in which they became ready.
pub struct TaskManager {
    ready_queue: VecDeque<Task>,
}

impl View for TaskManager {
    type V = Seq<TaskView>;

    closed spec fn view(&self) -> Seq<TaskView> {
        self.ready_queue@.map_values(|t: Task| t@)
    }
}

impl TaskManager {
    /// The queue holds valid tasks, each of them once.
    pub open spec fn wf(&self) -> bool {
        queue_wf(self@)
    }

    /// A manager with no task ready.
    pub fn new() -> (m: TaskManager)
        ensures
            m@ == Seq::<TaskView>::empty(),
            m.wf(),
    {
        let m = TaskManager { ready_queue: VecDeque::new() };
        assert(m@ =~= Seq::<TaskView>::empty());
        m
    }

    /// The number of tasks that are ready.
    pub fn len(&self) -> (n: usize)
        ensures
            n == self@.len(),
    {
        self.ready_queue.len()
    }

    /// Whether a task that goes by `pid` is in the queue.
    pub fn contains(&self, pid: usize) -> (found: bool)
        ensures
            found == queue_contains(self@, pid),
    {
        let n = self.ready_queue.len();
        let mut i: usize = 0;
        while i < n
            invariant
                i <= n,
                n == self.ready_queue@.len(),
                forall|k: int| 0 <= k < i ==> (#[trigger] self@[k]).pid != pid,
            decreases n - i,
        {
            if self.ready_queue[i].pid() == pid {
                assert(self@[i as int].pid == pid);
                return true;
            }
            i += 1;
        }
        false
    }

    /// Puts a task that became ready at the back of the queue.
    ///
    /// The task must not be in the queue already: a task leaves the queue
    /// when it is selected and comes back only through this call.
    pub fn add(&mut self, task: Task)
        requires
            old(self).wf(),
            task@.wf(),
            !queue_contains(old(self)@, task@.pid),
        ensures
            final(self)@ == old(self)@.push(task@),
            final(self).wf(),
    {
        self.ready_queue.push_back(task);
        assert(self@ =~= old(self)@.push(task@));
    }

    /// Takes the task at the front of the queue, if there is one. Its
    /// scheduling state is left as it is.
    pub fn fetch(&mut self) -> (r: Option<Task>)
        requires
            old(self).wf(),
        ensures
            final(self).wf(),
            match r {
                Some(task) => {
                    &&& old(self)@.len() > 0
                    &&& task@ == old(self)@[0]
                    &&& final(self)@ == old(self)@.drop_first()
                    &&& task@.wf()
                    &&& !queue_contains(final(self)@, task@.pid)
                },
                None => old(self)@.len() == 0 && final(self)@ == old(self)@,
            },
    {
        let r = self.ready_queue.pop_front();
        proof {
            assert(self@ =~= if r is Some { old(self)@.drop_first() } else { old(self)@ });
            if r is Some {
                let front = old(self)@[0];
                assert(front.wf());
                if queue_contains(self@, front.pid) {
                    let i = choose|i: int|
                        0 <= i < self@.len() && (#[trigger] self@[i]).pid == front.pid;
                    assert(self@[i] == old(self)@[i + 1]);
                }
            }
        }
        r
    }

    /// Takes the task that stride scheduling selects, if the queue holds
    /// any, and moves its pass on by one stride. The tasks that stay keep
    /// their order and their state.
    pub fn stride_scheduling(&mut self) -> (r: Option<Task>)
        requires
            old(self).wf(),
        ensures
            final(self).wf(),
            match r {
                Some(task) => {
                    &&& old(self)@.len() > 0
                    &&& task@ == old(self)@[stride_pick(old(self)@)].advanced()
                    &&& final(self)@ == old(self)@.remove(stride_pick(old(self)@))
                    &&& task@.wf()
                    &&& !queue_contains(final(self)@, task@.pid)
                },
                None => old(self)@.len() == 0 && final(self)@ == old(self)@,
            },
    {
        let n = self.ready_queue.len();
        if n == 0 {
            return None;
        }
        let mut best: usize = 0;
        let mut i: usize = 1;
        while i < n
            invariant
                1 <= i <= n,
                n == self.ready_queue@.len(),
                best < i,
                best == stride_pick(self@.take(i as int)),
            decreases n - i,
        {
            proof {
                assert(self@.take(i + 1).drop_last() =~= self@.take(i as int));
            }
            let pass = self.ready_queue[i].schedule().pass();
            let least = self.ready_queue[best].schedule().pass();
            if is_behind(pass, least) {
                best = i;
            }
            i += 1;
        }
        proof {
            assert(self@.take(n as int) =~= self@);
        }
        let mut task = self.ready_queue.remove(best).unwrap();
        task.update_pass();
        assert(self@ =~= old(self)@.remove(best as int));
        Some(task)
    }

    /// Takes the next task under the given policy.
    pub fn select(&mut self, policy: Policy) -> (r: Option<Task>)
        requires
            old(self).wf(),
        ensures
            final(self).wf(),
            match r {
                Some(task) => {
                    let at = Self::position(old(self)@, policy);
                    &&& old(self)@.len() > 0
                    &&& task@ == Self::taken(old(self)@, policy)
                    &&& final(self)@ == old(self)@.remove(at)
                    &&& task@.wf()
                    &&& !queue_contains(final(self)@, task@.pid)
                },
                None => old(self)@.len() == 0 && final(self)@ == old(self)@,
            },
    {
        match policy {
            Policy::Fifo => {
                let r = self.fetch();
                assert(self@ =~= if r is Some { old(self)@.remove(0) } else { old(self)@ });
                r
            },
            Policy::Stride => self.stride_scheduling(),
        }
    }

    /// The position that `policy` selects in a queue that is not empty.
    pub open spec fn position(q: Seq<TaskView>, policy: Policy) -> int {
        match policy {
            Policy::Fifo => 0,
            Policy::Stride => stride_pick(q),
        }
    }

    /// The task that `policy` hands out from a queue that is not empty.
    pub open spec fn taken(q: Seq<TaskView>, policy: Policy) -> TaskView {
        match policy {
            Policy::Fifo => q[0],
            Policy::Stride => q[stride_pick(q)].advanced(),
        }
    }
}

/// Hands a task that became ready to `manager`, which puts it at the back
/// of its queue. The task must not be in the queue already.
pub fn add_task(manager: &mut TaskManager, task: Task)
    requires
        old(manager).wf(),
        task@.wf(),
        !queue_contains(old(manager)@, task@.pid),
    ensures
        final(manager)@ == old(manager)@.push(task@),
        final(manager).wf(),
{
    manager.add(task);
}

/// Takes from `manager` the task that has waited longest, if any is ready.
pub fn fetch_task(manager: &mut TaskManager) -> (r: Option<Task>)
    requires
        old(manager).wf(),
    ensures
        final(manager).wf(),
        match r {
            Some(task) => {
                &&& old(manager)@.len() > 0
                &&& task@ == old(manager)@[0]
                &&& final(manager)@ == old(manager)@.drop_first()
                &&& task@.wf()
                &&& !queue_contains(final(manager)@, task@.pid)
            },
            None => old(manager)@.len() == 0 && final(manager)@ == old(manager)@,
        },
{
    manager.fetch()
}

/// Takes from `manager` the task that stride scheduling selects, if any is
/// ready, with its pass moved on by one stride.
pub fn stride_scheduling_task(manager: &mut TaskManager) -> (r: Option<Task>)
    requires
        old(manager).wf(),
    ensures
        final(manager).wf(),
        match r {
            Some(task) => {
                &&& old(manager)@.len() > 0
                &&& task@ == old(manager)@[stride_pick(old(manager)@)].advanced()
                &&& final(manager)@ == old(manager)@.remove(stride_pick(old(manager)@))
                &&& task@.wf()
                &&& !queue_contains(final(manager)@, task@.pid)
            },
            None => old(manager)@.len() == 0 && final(manager)@ == old(manager)@,
        },
{
    manager.stride_scheduling()
}

} // verus!
