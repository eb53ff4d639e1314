//! Contexts: the threads of execution that the processors take turns at.

pub mod switch;

use crate::cpu_set::{LogicalCpuId, LogicalCpuSet};
use vstd::prelude::*;

verus! {

/// A handle of a context. Handles are ordered, and the round goes by that order.
#[derive(Clone, Copy, Debug, PartialEq, Eq, Structural)]
pub struct ContextRef {
    /// What the order goes by.
    pub id: usize,
}

/// What a context is doing.
#[derive(Clone, Copy, Debug, PartialEq, Eq, Structural)]
pub enum Status {
    /// It can run.
    Runnable,
    /// It waits for an event or a time.
    Blocked,
    /// It waits for something that only another context can provide.
    HardBlocked,
    /// It has ended.
    Dead,
}

/// A context.
#[derive(Debug)]
pub struct Context {
    /// Its handle.
    pub handle: ContextRef,
    /// A processor is at it.
    pub running: bool,
    /// The processors that may take it.
    pub sched_affinity: LogicalCpuSet,
    /// What it is doing.
    pub status: Status,
    /// When it is to be woken, if it waits for a time.
    pub wake: Option<u128>,
    /// The processor that took it last.
    pub cpu_id: Option<LogicalCpuId>,
    /// How long processors were at it, in nanoseconds.
    pub cpu_time: u128,
    /// When a processor took it last, in nanoseconds.
    pub switch_time: u128,
    /// It runs in user space.
    pub userspace: bool,
    /// It is inside a system call.
    pub inside_syscall: bool,
    /// It is being killed.
    pub being_sigkilled: bool,
    /// It may be interrupted.
    pub preemptable: bool,
}

impl Context {
    /// Makes a waiting context runnable, without telling its processor.
    pub fn unblock_no_ipi(&mut self) -> (unblocked: bool)
        ensures
            unblocked == (old(self).status is Blocked),
            unblocked ==> *final(self) == (Context { status: Status::Runnable, ..*old(self) }),
            !unblocked ==> *final(self) == *old(self),
    {
        if self.status == Status::Blocked {
            self.status = Status::Runnable;
            true
        } else {
            false
        }
    }
}

} // verus!
