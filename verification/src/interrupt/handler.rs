//! The registers that an exception saves.

use vstd::prelude::*;

verus! {

/// Number of general registers.
pub const REGISTERS: usize = 31;

/// The registers that say where an exception came from.
#[derive(Clone, Copy, Debug, PartialEq, Eq, Structural)]
pub struct IretRegisters {
    /// The stack pointer of user space.
    pub sp_el0: u64,
    /// What happened.
    pub esr_el1: u64,
    /// The processor state to go back to.
    pub spsr_el1: u64,
    /// The address to go back to.
    pub elr_el1: u64,
}

/// The registers of the code that an exception interrupted.
#[derive(Clone, Copy, Debug)]
pub struct InterruptStack {
    /// Where it came from.
    pub iret: IretRegisters,
    /// `x0` to `x30`.
    pub x: [u64; REGISTERS],
}

impl InterruptStack {
    /// The address to go back to.
    pub fn ip(&self) -> (address: u64)
        ensures
            address == self.iret.elr_el1,
    {
        self.iret.elr_el1
    }

    /// Writes a general register. Number 31 stands for the zero register, which
    /// keeps nothing.
    pub fn store_reg(&mut self, index: usize, value: u64)
        ensures
            final(self).iret == old(self).iret,
            index < REGISTERS ==> final(self).x@ == old(self).x@.update(index as int, value),
            index >= REGISTERS ==> final(self).x@ == old(self).x@,
    {
        if index < REGISTERS {
            self.x[index] = value;
        }
    }

    /// Gives up on a copy from or to user space: returns to the caller of the
    /// copy with a result that says that it failed.
    pub fn recover_and_efault(&mut self)
        ensures
            final(self).iret == (IretRegisters { elr_el1: old(self).x@[30], ..old(self).iret }),
            final(self).x@ == old(self).x@.update(0, 1),
    {
        self.iret.elr_el1 = self.x[30];
        self.x[0] = 1;
    }
}

} // verus!
