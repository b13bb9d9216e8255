//! The fairness bookkeeping that every schedulable task carries: its
//! priority, the stride derived from it, and the pass accumulated so far.

use vstd::prelude::*;

verus! {

/// Numerator of every stride: a task of priority `p` advances by
/// `BIG_STRIDE / p` at each scheduling event. It is half the range of the
/// accumulator, so that no stride exceeds a quarter of the range and every
/// priority that fits the type gives a stride of at least one.
pub const BIG_STRIDE: u64 = 0x8000_0000_0000_0000;

/// The least priority a task may have.
pub const MIN_PRIORITY: isize = 2;

/// The priority of a task that never asked for another one.
pub const DEFAULT_PRIORITY: isize = 16;

/// The largest stride a valid priority can give, `BIG_STRIDE / MIN_PRIORITY`.
pub const MAX_STRIDE: u64 = 0x4000_0000_0000_0000;

/// How far `a` lies ahead of `b` when passes are read as points on the
/// circle of 64-bit integers: the number of single steps from `b` up to `a`.
pub open spec fn pass_distance(a: u64, b: u64) -> int {
    if a >= b {
        a - b
    } else {
        a - b + 0x1_0000_0000_0000_0000
    }
}

/// `a` is behind `b`: the difference `a - b`, taken in 64-bit arithmetic and
/// read as a signed number, is negative.
pub open spec fn pass_behind(a: u64, b: u64) -> bool {
    pass_distance(a, b) >= 0x8000_0000_0000_0000
}

/// The stride that a priority gives.
pub open spec fn stride_of(priority: isize) -> int {
    BIG_STRIDE as int / priority as int
}

/// The pass that follows `pass` after one scheduling event with this stride.
pub open spec fn pass_after(pass: u64, stride: u64) -> u64 {
    if pass + stride <= u64::MAX {
        (pass + stride) as u64
    } else {
        (pass + stride - 0x1_0000_0000_0000_0000) as u64
    }
}

/// Compares two passes across the wraparound of the 64-bit accumulator.
pub fn is_behind(a: u64, b: u64) -> (r: bool)
    ensures
        r == pass_behind(a, b),
{
    a.wrapping_sub(b) > 0x7fff_ffff_ffff_ffff
}

/// What a `Schedule` holds, as specifications read it.
pub struct ScheduleView {
    pub priority: isize,
    pub stride: u64,
    pub pass: u64,
}

impl ScheduleView {
    /// The priority is valid and the stride is the one it gives.
    pub open spec fn wf(self) -> bool {
        &&& self.priority >= MIN_PRIORITY
        &&& self.stride == stride_of(self.priority)
    }

    /// The state after one scheduling event: the pass moves on by one stride.
    pub open spec fn advanced(self) -> ScheduleView {
        ScheduleView { pass: pass_after(self.pass, self.stride), ..self }
    }

    /// The state after a request for `priority`: a valid one is taken, with
    /// the stride it gives, and the pass stays; an invalid one changes nothing.
    pub open spec fn with_priority(self, priority: isize) -> ScheduleView {
        if priority >= MIN_PRIORITY {
            ScheduleView { priority: priority, stride: stride_of(priority) as u64, pass: self.pass }
        } else {
            self
        }
    }
}

/// A priority below `MIN_PRIORITY`, refused where it was set.
#[derive(Clone, Copy, Debug, PartialEq, Eq, Structural)]
pub struct InvalidPriority {
    pub priority: isize,
}

/// Scheduling state of one task.
#[derive(Clone, Copy, Debug)]
pub struct Schedule {
    priority: isize,
    stride: u64,
    pass: u64,
}

impl View for Schedule {
    type V = ScheduleView;

    closed spec fn view(&self) -> ScheduleView {
        ScheduleView { priority: self.priority, stride: self.stride, pass: self.pass }
    }
}

impl Schedule {
    /// The state of a task that has never run: the default priority, its
    /// stride, and a pass of zero.
    pub open spec fn fresh() -> ScheduleView {
        ScheduleView {
            priority: DEFAULT_PRIORITY,
            stride: stride_of(DEFAULT_PRIORITY) as u64,
            pass: 0,
        }
    }

    /// What a request for `priority` answers.
    pub open spec fn priority_outcome(priority: isize) -> Result<(), InvalidPriority> {
        if priority >= MIN_PRIORITY {
            Ok(())
        } else {
            Err(InvalidPriority { priority })
        }
    }

    /// The state of a task that has never run, at the default priority.
    pub fn new() -> (s: Schedule)
        ensures
            s@ == Schedule::fresh(),
            s@.wf(),
    {
        Schedule {
            priority: DEFAULT_PRIORITY,
            stride: BIG_STRIDE / (DEFAULT_PRIORITY as u64),
            pass: 0,
        }
    }

    /// The state of a task that enters with the priority and the pass
    /// given, as one does that joins tasks which have run already. A
    /// priority below `MIN_PRIORITY` is refused.
    pub fn with_pass(priority: isize, pass: u64) -> (r: Result<Schedule, InvalidPriority>)
        ensures
            match r {
                Ok(s) => priority >= MIN_PRIORITY && s@.wf() && s@ == (ScheduleView {
                    priority: priority,
                    stride: stride_of(priority) as u64,
                    pass: pass,
                }),
                Err(e) => priority < MIN_PRIORITY && e == (InvalidPriority { priority }),
            },
    {
        if priority < MIN_PRIORITY {
            return Err(InvalidPriority { priority });
        }
        Ok(Schedule { priority, stride: BIG_STRIDE / (priority as u64), pass })
    }

    /// The priority, which decides the share of the processor.
    pub fn priority(&self) -> (p: isize)
        ensures
            p == self@.priority,
    {
        self.priority
    }

    /// The stride, by which the pass moves at each scheduling event.
    pub fn stride(&self) -> (s: u64)
        ensures
            s == self@.stride,
    {
        self.stride
    }

    /// The pass accumulated so far.
    pub fn pass(&self) -> (p: u64)
        ensures
            p == self@.pass,
    {
        self.pass
    }

    /// Sets the priority and the stride that goes with it. A priority below
    /// `MIN_PRIORITY` is refused and nothing changes.
    pub fn set_priority(&mut self, priority: isize) -> (r: Result<(), InvalidPriority>)
        ensures
            r == Schedule::priority_outcome(priority),
            final(self)@ == old(self)@.with_priority(priority),
            r is Ok || old(self)@.wf() ==> final(self)@.wf(),
    {
        if priority < MIN_PRIORITY {
            return Err(InvalidPriority { priority });
        }
        self.priority = priority;
        self.stride = BIG_STRIDE / (priority as u64);
        Ok(())
    }

    /// Accounts for one scheduling event: the pass moves on by one stride,
    /// wrapping at the width of the accumulator.
    pub fn update_pass(&mut self)
        ensures
            final(self)@ == old(self)@.advanced(),
    {
        self.pass = self.pass.wrapping_add(self.stride);
    }
}

} // verus!
