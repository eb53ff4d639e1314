//! What each processor keeps to itself.

use crate::context::switch::ContextSwitchPercpu;
use crate::counter;
use crate::cpu_set::LogicalCpuId;
use vstd::prelude::*;

verus! {

/// What a processor is doing.
#[derive(Clone, Copy, Debug, PartialEq, Eq, Structural)]
pub enum CpuState {
    /// Nothing.
    Idle,
    /// It is in the kernel.
    Kernel,
    /// It is in user space.
    User,
}

/// The counters of a processor. Each starts again from zero behind its last
/// value.
#[derive(Clone, Copy, Debug, PartialEq, Eq, Structural)]
pub struct CpuStats {
    /// Context switches.
    pub context_switches: u64,
    /// Messages sent to other processors.
    pub ipis_sent: u64,
    /// Messages received from other processors.
    pub ipis_received: u64,
    /// Time in user space.
    pub user: u64,
    /// Time in the kernel.
    pub kernel: u64,
    /// Time without work.
    pub idle: u64,
}

impl CpuStats {
    /// All counters at zero.
    pub fn new() -> (stats: Self)
        ensures
            stats == (CpuStats {
                context_switches: 0,
                ipis_sent: 0,
                ipis_received: 0,
                user: 0,
                kernel: 0,
                idle: 0,
            }),
    {
        CpuStats {
            context_switches: 0,
            ipis_sent: 0,
            ipis_received: 0,
            user: 0,
            kernel: 0,
            idle: 0,
        }
    }

    /// Counts a context switch.
    pub fn add_context_switch_local(&mut self)
        ensures
            *final(self) == (CpuStats {
                context_switches: counter::counted_up(old(self).context_switches),
                ..*old(self)
            }),
    {
        self.context_switches = self.context_switches.wrapping_add(1);
    }

    /// Counts a message sent.
    pub fn add_ipi_sent(&mut self)
        ensures
            *final(self) == (CpuStats { ipis_sent: counter::counted_up(old(self).ipis_sent), ..*old(self) }),
    {
        self.ipis_sent = self.ipis_sent.wrapping_add(1);
    }

    /// Counts a message received.
    pub fn add_ipi_received(&mut self)
        ensures
            *final(self) == (CpuStats {
                ipis_received: counter::counted_up(old(self).ipis_received),
                ..*old(self)
            }),
    {
        self.ipis_received = self.ipis_received.wrapping_add(1);
    }
}

/// The block of a processor.
#[derive(Clone, Copy, Debug, PartialEq, Eq, Structural)]
pub struct PercpuBlock {
    /// Its number.
    pub cpu_id: LogicalCpuId,
    /// What it needs to switch contexts.
    pub switch_internals: ContextSwitchPercpu,
    /// Its counters.
    pub stats: CpuStats,
    /// Its current context is inside a system call.
    pub inside_syscall: bool,
    /// What its current context is traced for.
    pub ptrace_flags: u64,
}

impl PercpuBlock {
    /// The block of a processor that has not run a context yet.
    pub fn init(cpu_id: LogicalCpuId) -> (block: Self)
        ensures
            block.cpu_id == cpu_id,
            block.switch_internals.is_fresh(),
            block.stats == (CpuStats {
                context_switches: 0,
                ipis_sent: 0,
                ipis_received: 0,
                user: 0,
                kernel: 0,
                idle: 0,
            }),
            !block.inside_syscall,
            block.ptrace_flags == 0,
    {
        PercpuBlock {
            cpu_id,
            switch_internals: ContextSwitchPercpu::default(),
            stats: CpuStats::new(),
            inside_syscall: false,
            ptrace_flags: 0,
        }
    }
}

} // verus!
