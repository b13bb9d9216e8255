//! A schedulable task as the ready queue sees it: an identity and the
//! scheduling state that travels with it.

use vstd::prelude::*;
use crate::schedule::{InvalidPriority, Schedule, ScheduleView};

verus! {

/// What a `Task` holds, as specifications read it.
pub struct TaskView {
    pub pid: usize,
    pub schedule: ScheduleView,
}

impl TaskView {
    /// The scheduling state is valid.
    pub open spec fn wf(self) -> bool {
        self.schedule.wf()
    }

    /// The pass by which the task is compared with the others.
    pub open spec fn pass(self) -> u64 {
        self.schedule.pass
    }

    /// The same task after one scheduling event.
    pub open spec fn advanced(self) -> TaskView {
        TaskView { schedule: self.schedule.advanced(), ..self }
    }
}

/// A task: the process identifier under which the kernel knows it, and its
/// scheduling state. A task is owned by whoever holds it, the ready queue or
/// the dispatcher, never by both.
#[derive(Debug)]
pub struct Task {
    pid: usize,
    schedule: Schedule,
}

impl View for Task {
    type V = TaskView;

    closed spec fn view(&self) -> TaskView {
        TaskView { pid: self.pid, schedule: self.schedule@ }
    }
}

impl Task {
    /// A task that has never run, at the default priority.
    pub fn new(pid: usize) -> (t: Task)
        ensures
            t@ == (TaskView { pid: pid, schedule: Schedule::fresh() }),
            t@.wf(),
    {
        Task { pid, schedule: Schedule::new() }
    }

    /// A task that enters with the scheduling state given.
    pub fn with_schedule(pid: usize, schedule: Schedule) -> (t: Task)
        ensures
            t@ == (TaskView { pid: pid, schedule: schedule@ }),
    {
        Task { pid, schedule }
    }

    /// The identifier under which the kernel knows the task.
    pub fn pid(&self) -> (pid: usize)
        ensures
            pid == self@.pid,
    {
        self.pid
    }

    /// The scheduling state as it stands.
    pub fn schedule(&self) -> (s: Schedule)
        ensures
            s@ == self@.schedule,
    {
        self.schedule
    }

    /// Sets the priority of the task. A priority below the minimum is
    /// refused and the task stays as it was.
    pub fn set_priority(&mut self, priority: isize) -> (r: Result<(), InvalidPriority>)
        ensures
            r == Schedule::priority_outcome(priority),
            final(self)@ == (TaskView {
                pid: old(self)@.pid,
                schedule: old(self)@.schedule.with_priority(priority),
            }),
            r is Ok || old(self)@.wf() ==> final(self)@.wf(),
    {
        self.schedule.set_priority(priority)
    }

    /// Accounts for one scheduling event: the pass moves on by one stride.
    pub fn update_pass(&mut self)
        ensures
            final(self)@ == old(self)@.advanced(),
    {
        self.schedule.update_pass();
    }
}

} // verus!
