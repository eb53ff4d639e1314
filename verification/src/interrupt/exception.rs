//! Synchronous exceptions: system calls, page faults and trapped instructions.

use crate::interrupt::handler::{InterruptStack, IretRegisters, REGISTERS};
use vstd::prelude::*;

verus! {

/// Class of a system call.
pub const EC_SVC: u8 = 0b010101;

/// Class of a trapped access to a system register.
pub const EC_TRAPPED_SYSTEM: u8 = 0b011000;

/// Class of an instruction abort in user space.
pub const EC_INSTR_ABORT_LOWER: u8 = 0b100000;

/// Class of an instruction abort in the kernel.
pub const EC_INSTR_ABORT_SAME: u8 = 0b100001;

/// Class of a data abort in user space.
pub const EC_DATA_ABORT_LOWER: u8 = 0b100100;

/// Class of a data abort in the kernel.
pub const EC_DATA_ABORT_SAME: u8 = 0b100101;

/// Bytes in an instruction.
pub const INSTRUCTION_LEN: u64 = 4;

/// A virtual address.
#[derive(Clone, Copy, Debug, PartialEq, Eq, Structural)]
pub struct VirtualAddress {
    address: u64,
}

impl View for VirtualAddress {
    type V = u64;

    closed spec fn view(&self) -> u64 {
        self.address
    }
}

impl VirtualAddress {
    /// The given address.
    pub fn new(address: u64) -> (virt: Self)
        ensures
            virt@ == address,
    {
        VirtualAddress { address }
    }

    /// The address as a number.
    pub fn data(&self) -> (address: u64)
        ensures
            address == self@,
    {
        self.address
    }
}

/// What is known of a page fault.
#[derive(Clone, Copy, Debug, PartialEq, Eq, Structural)]
pub struct GenericPfFlags {
    /// The page is mapped.
    pub present: bool,
    /// The access was a write.
    pub involved_write: bool,
    /// The access came from user space.
    pub user_not_supervisor: bool,
    /// An instruction was to be fetched.
    pub instr_not_data: bool,
}

/// A page fault.
#[derive(Clone, Copy, Debug, PartialEq, Eq, Structural)]
pub struct PageFault {
    /// What is known of it.
    pub flags: GenericPfFlags,
    /// The address that was accessed.
    pub address: VirtualAddress,
}

/// The registers of the generic timer that user space may read.
#[derive(Clone, Copy, Debug, PartialEq, Eq, Structural)]
pub struct CounterRegisters {
    /// `CNTFRQ_EL0`, the frequency.
    pub cntfrq_el0: u64,
    /// `CNTPCT_EL0`, the physical count.
    pub cntpct_el0: u64,
    /// `CNTVCT_EL0`, the virtual count.
    pub cntvct_el0: u64,
}

/// A register of the generic timer.
#[derive(Clone, Copy, Debug, PartialEq, Eq, Structural)]
pub enum TimerRegister {
    /// The frequency.
    Frequency,
    /// The physical count.
    PhysicalCount,
    /// The virtual count.
    VirtualCount,
}

/// What came of an exception that may be a fault or a trapped instruction.
#[derive(Clone, Copy, Debug, PartialEq, Eq, Structural)]
pub enum PfOutcome {
    /// It is dealt with.
    Handled,
    /// It is a page fault, for the memory manager to resolve.
    PageFault(PageFault),
    /// It is neither.
    Unhandled,
}

/// A system call: its number and its arguments.
#[derive(Clone, Copy, Debug, PartialEq, Eq, Structural)]
pub struct SyscallRequest {
    /// The number.
    pub number: u64,
    /// First argument.
    pub a: u64,
    /// Second argument.
    pub b: u64,
    /// Third argument.
    pub c: u64,
    /// Fourth argument.
    pub d: u64,
    /// Fifth argument.
    pub e: u64,
    /// Sixth argument.
    pub f: u64,
}

/// What an exception in user space asks for.
#[derive(Clone, Copy, Debug, PartialEq, Eq, Structural)]
pub enum El0Action {
    /// A system call.
    Syscall(SyscallRequest),
    /// A page fault is to be resolved.
    PageFault(PageFault),
    /// Nothing more.
    Resume,
    /// The context is to be told of an exception of kind zero.
    Raise,
}

/// What an exception in the kernel asks for.
#[derive(Clone, Copy, Debug, PartialEq, Eq, Structural)]
pub enum El1Action {
    /// A page fault is to be resolved.
    PageFault(PageFault),
    /// Nothing more.
    Resume,
    /// There is no way to go on.
    Stop,
}

/// The class of an exception: bits 31 to 26 of the syndrome.
pub open spec fn class_of(esr: u64) -> u8 {
    (esr / 0x400_0000 % 64) as u8
}

/// What else the syndrome says: bits 24 to 0.
pub open spec fn syndrome_of(esr: u64) -> u32 {
    (esr % 0x200_0000) as u32
}

/// Reads the class of an exception.
pub fn exception_code(esr: u64) -> (class: u8)
    ensures
        class == class_of(esr),
{
    assert((esr >> 26u64) & 0x3f == esr / 0x400_0000 % 64) by (bit_vector);
    ((esr >> 26u64) & 0x3f) as u8
}

/// Reads what else the syndrome says.
pub fn iss(esr: u64) -> (syndrome: u32)
    ensures
        syndrome == syndrome_of(esr),
{
    assert(esr & 0x01ff_ffff == esr % 0x200_0000) by (bit_vector);
    (esr & 0x01ff_ffff) as u32
}

/// The status of a fault says that no page is mapped.
pub open spec fn is_translation_fault(syndrome: u32) -> bool {
    4 <= syndrome % 64 <= 7
}

/// The bit of a data abort that says that the access was a write.
pub open spec fn is_write(syndrome: u32) -> bool {
    syndrome / 64 % 2 == 1
}

/// What is known of an abort.
pub open spec fn abort_flags(esr: u64, from_user: bool, instr_not_data: bool) -> GenericPfFlags {
    let syndrome = syndrome_of(esr);
    GenericPfFlags {
        present: !is_translation_fault(syndrome),
        involved_write: is_write(syndrome) && !instr_not_data,
        user_not_supervisor: from_user,
        instr_not_data,
    }
}

/// Works out the page fault behind an abort, given the address that was
/// accessed.
pub fn instr_data_abort_inner(esr: u64, far: u64, from_user: bool, instr_not_data: bool) -> (fault:
    PageFault)
    ensures
        fault.flags == abort_flags(esr, from_user, instr_not_data),
        !fault.flags.present <==> esr & 0b111111 == 0b000100 || esr & 0b111111 == 0b000101 || esr
            & 0b111111 == 0b000110 || esr & 0b111111 == 0b000111,
        fault.flags.involved_write <==> esr & 0b1000000 != 0 && !instr_not_data,
        fault.flags.user_not_supervisor == from_user,
        fault.flags.instr_not_data == instr_not_data,
        fault.address@ == far,
{
    proof {
        lemma_what_an_abort_says(esr, from_user, instr_not_data);
    }
    let syndrome: u32 = iss(esr);
    assert(syndrome & 0x3f == syndrome % 64) by (bit_vector);
    assert((syndrome & 0x40 != 0) == (syndrome / 64 % 2 == 1)) by (bit_vector);
    let status: u32 = syndrome & 0x3f;
    let was_translation_fault: bool = status >= 4 && status <= 7;
    let write_not_read_if_data: bool = syndrome & 0x40 != 0;
    let flags = GenericPfFlags {
        present: !was_translation_fault,
        involved_write: write_not_read_if_data && !instr_not_data,
        user_not_supervisor: from_user,
        instr_not_data,
    };
    PageFault { flags, address: VirtualAddress::new(far) }
}

/// The system register and the direction of a trapped access, as an instruction
/// names them: `op0` in bits 21 and 20 of the syndrome, `op2` in 19 to 17, `op1`
/// in 16 to 14, `CRn` in 13 to 10, `CRm` in 4 to 1, and the direction in bit 0.
pub open spec fn access_is(
    syndrome: u32,
    op0: int,
    op1: int,
    crn: int,
    crm: int,
    op2: int,
    dir: int,
) -> bool {
    &&& syndrome / 0x10_0000 % 4 == op0
    &&& syndrome / 0x4000 % 8 == op1
    &&& syndrome / 0x400 % 16 == crn
    &&& syndrome / 2 % 16 == crm
    &&& syndrome / 0x2_0000 % 8 == op2
    &&& syndrome % 2 == dir
}

/// The general register of a trapped access: bits 9 to 5 of the syndrome.
pub open spec fn access_register(syndrome: u32) -> int {
    (syndrome / 32 % 32) as int
}

/// The register of the timer that a trapped access reads, if it reads one.
pub open spec fn register_read(syndrome: u32) -> Option<TimerRegister> {
    if access_is(syndrome, 3, 3, 14, 0, 0, 1) {
        Some(TimerRegister::Frequency)
    } else if access_is(syndrome, 3, 3, 14, 0, 1, 1) {
        Some(TimerRegister::PhysicalCount)
    } else if access_is(syndrome, 3, 3, 14, 0, 2, 1) {
        Some(TimerRegister::VirtualCount)
    } else {
        None
    }
}

/// The value of a register of the timer.
pub open spec fn value_of(register: TimerRegister, counters: CounterRegisters) -> u64 {
    match register {
        TimerRegister::Frequency => counters.cntfrq_el0,
        TimerRegister::PhysicalCount => counters.cntpct_el0,
        TimerRegister::VirtualCount => counters.cntvct_el0,
    }
}

/// The value that a trapped read of a timer register gives, if it is one.
pub open spec fn counter_read(syndrome: u32, counters: CounterRegisters) -> Option<u64> {
    match register_read(syndrome) {
        Some(register) => Some(value_of(register, counters)),
        None => None,
    }
}

/// Works out the register of the timer that a trapped access reads.
pub fn timer_register(syndrome: u32) -> (register: Option<TimerRegister>)
    ensures
        register == register_read(syndrome),
        register == Some(TimerRegister::Frequency) <==> syndrome & 0x3F_FC1F == 0x30_F801,
        register == Some(TimerRegister::PhysicalCount) <==> syndrome & 0x3F_FC1F == 0x32_F801,
        register == Some(TimerRegister::VirtualCount) <==> syndrome & 0x3F_FC1F == 0x34_F801,
{
    proof {
        lemma_which_accesses_read_the_timer(syndrome);
    }
    proof {
        assert((syndrome & 0x030_0000) >> 20u32 == syndrome / 0x10_0000 % 4) by (bit_vector);
        assert((syndrome & 0x00e_0000) >> 17u32 == syndrome / 0x2_0000 % 8) by (bit_vector);
        assert((syndrome & 0x001_c000) >> 14u32 == syndrome / 0x4000 % 8) by (bit_vector);
        assert((syndrome & 0x000_3c00) >> 10u32 == syndrome / 0x400 % 16) by (bit_vector);
        assert((syndrome & 0x000_001e) >> 1u32 == syndrome / 2 % 16) by (bit_vector);
        assert(syndrome & 0x000_0001 == syndrome % 2) by (bit_vector);
    }
    let op0: u32 = (syndrome & 0x030_0000) >> 20u32;
    let op2: u32 = (syndrome & 0x00e_0000) >> 17u32;
    let op1: u32 = (syndrome & 0x001_c000) >> 14u32;
    let crn: u32 = (syndrome & 0x000_3c00) >> 10u32;
    let crm: u32 = (syndrome & 0x000_001e) >> 1u32;
    let dir: u32 = syndrome & 0x000_0001;
    match (op0, op1, crn, crm, op2, dir) {
        (0b11, 0b011, 0b1110, 0b0000, 0b000, 0b1) => Some(TimerRegister::Frequency),
        (0b11, 0b011, 0b1110, 0b0000, 0b001, 0b1) => Some(TimerRegister::PhysicalCount),
        (0b11, 0b011, 0b1110, 0b0000, 0b010, 0b1) => Some(TimerRegister::VirtualCount),
        _ => None,
    }
}

/// `after` is `before` behind a read of `value` into a register: the register
/// holds it, and the instruction is passed.
pub open spec fn read_done(
    before: InterruptStack,
    after: InterruptStack,
    register: int,
    value: u64,
) -> bool {
    &&& after.iret == IretRegisters {
        elr_el1: (before.iret.elr_el1 + INSTRUCTION_LEN) as u64,
        ..before.iret
    }
    &&& after.x@ == if register < REGISTERS {
        before.x@.update(register, value)
    } else {
        before.x@
    }
}

/// Carries out a trapped read of a timer register; any other access is left
/// alone.
pub fn instr_trapped_msr_mrs_inner(stack: &mut InterruptStack, counters: CounterRegisters) -> (done:
    bool)
    requires
        register_read(syndrome_of(old(stack).iret.esr_el1)) is Some ==> old(stack).iret.elr_el1
            + INSTRUCTION_LEN <= u64::MAX,
    ensures
        ({
            let syndrome = syndrome_of(old(stack).iret.esr_el1);
            match counter_read(syndrome, counters) {
                Some(value) => done && read_done(
                    *old(stack),
                    *final(stack),
                    access_register(syndrome),
                    value,
                ),
                None => !done && *final(stack) == *old(stack),
            }
        }),
{
    let syndrome: u32 = iss(stack.iret.esr_el1);
    assert((syndrome & 0x000_03e0) >> 5u32 == syndrome / 32 % 32) by (bit_vector);
    let rt: u32 = (syndrome & 0x000_03e0) >> 5u32;
    match timer_register(syndrome) {
        Some(register) => {
            let value: u64 = match register {
                TimerRegister::Frequency => counters.cntfrq_el0,
                TimerRegister::PhysicalCount => counters.cntpct_el0,
                TimerRegister::VirtualCount => counters.cntvct_el0,
            };
            stack.store_reg(rt as usize, value);
            stack.iret.elr_el1 = stack.iret.elr_el1 + INSTRUCTION_LEN;
            true
        },
        None => false,
    }
}

/// The flags of a page fault behind an exception of the given class, if the
/// class is that of an abort.
pub open spec fn abort_of_class(class: u8, esr: u64) -> Option<GenericPfFlags> {
    if class == EC_DATA_ABORT_LOWER {
        Some(abort_flags(esr, true, false))
    } else if class == EC_DATA_ABORT_SAME {
        Some(abort_flags(esr, false, false))
    } else if class == EC_INSTR_ABORT_LOWER {
        Some(abort_flags(esr, true, true))
    } else if class == EC_INSTR_ABORT_SAME {
        Some(abort_flags(esr, false, true))
    } else {
        None
    }
}

/// The exception is a trapped read of a timer register.
pub open spec fn is_counter_read(class: u8, esr: u64) -> bool {
    class == EC_TRAPPED_SYSTEM && register_read(syndrome_of(esr)) is Some
}

/// Tests whether an exception is a trapped read of a timer register, behind which
/// the next instruction is gone to.
pub fn is_trapped_counter_read(esr: u64) -> (yes: bool)
    ensures
        yes == is_counter_read(class_of(esr), esr),
{
    exception_code(esr) == EC_TRAPPED_SYSTEM && timer_register(iss(esr)).is_some()
}

/// What comes of an exception of the given class.
pub open spec fn pf_contract(
    before: InterruptStack,
    after: InterruptStack,
    class: u8,
    far: u64,
    counters: CounterRegisters,
    outcome: PfOutcome,
) -> bool {
    let esr = before.iret.esr_el1;
    match abort_of_class(class, esr) {
        Some(flags) => {
            &&& after == before
            &&& outcome matches PfOutcome::PageFault(fault) && fault.flags == flags
                && fault.address@ == far
        },
        None => if is_counter_read(class, esr) {
            &&& outcome is Handled
            &&& read_done(
                before,
                after,
                access_register(syndrome_of(esr)),
                counter_read(syndrome_of(esr), counters)->0,
            )
        } else {
            &&& outcome is Unhandled
            &&& after == before
        },
    }
}

/// Deals with an exception that may be a fault or a trapped instruction.
pub fn pf_inner(
    stack: &mut InterruptStack,
    class: u8,
    far: u64,
    counters: CounterRegisters,
) -> (outcome: PfOutcome)
    requires
        is_counter_read(class, old(stack).iret.esr_el1) ==> old(stack).iret.elr_el1
            + INSTRUCTION_LEN <= u64::MAX,
    ensures
        pf_contract(*old(stack), *final(stack), class, far, counters, outcome),
{
    let esr: u64 = stack.iret.esr_el1;
    match class {
        0b100100 => PfOutcome::PageFault(instr_data_abort_inner(esr, far, true, false)),
        0b100101 => PfOutcome::PageFault(instr_data_abort_inner(esr, far, false, false)),
        0b100000 => PfOutcome::PageFault(instr_data_abort_inner(esr, far, true, true)),
        0b100001 => PfOutcome::PageFault(instr_data_abort_inner(esr, far, false, true)),
        0b011000 => {
            if instr_trapped_msr_mrs_inner(stack, counters) {
                PfOutcome::Handled
            } else {
                PfOutcome::Unhandled
            }
        },
        _ => PfOutcome::Unhandled,
    }
}

/// The system call that the registers ask for.
pub open spec fn requested_syscall(x: Seq<u64>) -> SyscallRequest {
    SyscallRequest { number: x[8], a: x[0], b: x[1], c: x[2], d: x[3], e: x[4], f: x[5] }
}

/// Deals with an exception in user space.
///
/// A system call and a page fault are left to the rest of the kernel, which hands
/// back what came of them by [`syscall_returned`] and [`el0_fault_resolved`].
pub fn synchronous_exception_at_el0(
    stack: &mut InterruptStack,
    far: u64,
    counters: CounterRegisters,
) -> (action: El0Action)
    requires
        is_counter_read(class_of(old(stack).iret.esr_el1), old(stack).iret.esr_el1) ==> old(
            stack,
        ).iret.elr_el1 + INSTRUCTION_LEN <= u64::MAX,
    ensures
        ({
            let class = class_of(old(stack).iret.esr_el1);
            if class == EC_SVC {
                &&& action == El0Action::Syscall(requested_syscall(old(stack).x@))
                &&& *final(stack) == *old(stack)
            } else {
                exists|outcome: PfOutcome| #[trigger]
                    pf_contract(*old(stack), *final(stack), class, far, counters, outcome)
                        && action == (match outcome {
                        PfOutcome::Handled => El0Action::Resume,
                        PfOutcome::PageFault(fault) => El0Action::PageFault(fault),
                        PfOutcome::Unhandled => El0Action::Raise,
                    })
            }
        }),
        action is Syscall <==> (old(stack).iret.esr_el1 >> 26) & 0x3F == 0x15,
{
    proof {
        lemma_class_and_syndrome(stack.iret.esr_el1);
    }
    let class: u8 = exception_code(stack.iret.esr_el1);
    if class == EC_SVC {
        return El0Action::Syscall(
            SyscallRequest {
                number: stack.x[8],
                a: stack.x[0],
                b: stack.x[1],
                c: stack.x[2],
                d: stack.x[3],
                e: stack.x[4],
                f: stack.x[5],
            },
        );
    }
    match pf_inner(stack, class, far, counters) {
        PfOutcome::Handled => El0Action::Resume,
        PfOutcome::PageFault(fault) => El0Action::PageFault(fault),
        PfOutcome::Unhandled => El0Action::Raise,
    }
}

/// Hands the result of a system call to user space.
pub fn syscall_returned(stack: &mut InterruptStack, result: u64)
    ensures
        final(stack).iret == old(stack).iret,
        final(stack).x@ == old(stack).x@.update(0, result),
{
    stack.x[0] = result;
}

/// What follows a page fault in user space that was resolved, or was not.
pub fn el0_fault_resolved(resolved: bool) -> (action: El0Action)
    ensures
        action == (if resolved {
            El0Action::Resume
        } else {
            El0Action::Raise
        }),
{
    if resolved {
        El0Action::Resume
    } else {
        El0Action::Raise
    }
}

/// Deals with an exception in the kernel. A page fault is left to the rest of the
/// kernel, which hands back what came of it by [`el1_fault_resolved`].
pub fn synchronous_exception_at_el1_with_spx(
    stack: &mut InterruptStack,
    far: u64,
    counters: CounterRegisters,
) -> (action: El1Action)
    requires
        is_counter_read(class_of(old(stack).iret.esr_el1), old(stack).iret.esr_el1) ==> old(
            stack,
        ).iret.elr_el1 + INSTRUCTION_LEN <= u64::MAX,
    ensures
        ({
            let class = class_of(old(stack).iret.esr_el1);
            exists|outcome: PfOutcome| #[trigger]
                pf_contract(*old(stack), *final(stack), class, far, counters, outcome) && action
                    == (match outcome {
                    PfOutcome::Handled => El1Action::Resume,
                    PfOutcome::PageFault(fault) => El1Action::PageFault(fault),
                    PfOutcome::Unhandled => El1Action::Stop,
                })
        }),
{
    let class: u8 = exception_code(stack.iret.esr_el1);
    match pf_inner(stack, class, far, counters) {
        PfOutcome::Handled => El1Action::Resume,
        PfOutcome::PageFault(fault) => El1Action::PageFault(fault),
        PfOutcome::Unhandled => El1Action::Stop,
    }
}

/// What follows a page fault in the kernel that was resolved, or was not.
pub fn el1_fault_resolved(resolved: bool) -> (action: El1Action)
    ensures
        action == (if resolved {
            El1Action::Resume
        } else {
            El1Action::Stop
        }),
{
    if resolved {
        El1Action::Resume
    } else {
        El1Action::Stop
    }
}

/// What an exception comes to is settled by the registers: two outcomes of one
/// exception are alike.
pub proof fn lemma_outcome_is_settled(
    before: InterruptStack,
    one: InterruptStack,
    other: InterruptStack,
    class: u8,
    far: u64,
    counters: CounterRegisters,
    one_outcome: PfOutcome,
    other_outcome: PfOutcome,
)
    requires
        pf_contract(before, one, class, far, counters, one_outcome),
        pf_contract(before, other, class, far, counters, other_outcome),
    ensures
        one_outcome == other_outcome,
        one.iret == other.iret,
        one.x@ == other.x@,
{
}

/// A fetch never counts as a write, and an exception counts as one of user space
/// exactly if its class says that it came from there.
pub proof fn lemma_abort_flags(class: u8, esr: u64)
    ensures
        abort_of_class(class, esr) matches Some(flags) ==> {
            &&& flags.instr_not_data ==> !flags.involved_write
            &&& flags.instr_not_data <==> class == EC_INSTR_ABORT_LOWER || class
                == EC_INSTR_ABORT_SAME
            &&& flags.user_not_supervisor <==> class == EC_INSTR_ABORT_LOWER || class
                == EC_DATA_ABORT_LOWER
        },
{
}

/// A trapped read is carried out without any other effect: beside the register
/// that is read into, only the address to go back to changes, and that by one
/// instruction.
pub proof fn lemma_counter_read_is_contained(
    before: InterruptStack,
    after: InterruptStack,
    register: int,
    value: u64,
)
    requires
        read_done(before, after, register, value),
        before.iret.elr_el1 + INSTRUCTION_LEN <= u64::MAX,
        0 <= register,
    ensures
        after.iret.elr_el1 == before.iret.elr_el1 + INSTRUCTION_LEN,
        after.iret.sp_el0 == before.iret.sp_el0,
        after.iret.esr_el1 == before.iret.esr_el1,
        after.iret.spsr_el1 == before.iret.spsr_el1,
        forall|i: int|
            0 <= i < REGISTERS && i != register ==> #[trigger] after.x@[i] == before.x@[i],
        register < REGISTERS ==> after.x@[register] == value,
{
}

/// What the bits of the syndrome say of an abort: the page is missing exactly if the
/// status in the lowest six bits is that of a translation fault, `0b000100` and the
/// level from zero to three, and the access was a write exactly if bit six is set
/// and no instruction was to be fetched.
pub proof fn lemma_what_an_abort_says(esr: u64, from_user: bool, instr_not_data: bool)
    ensures
        ({
            let flags = abort_flags(esr, from_user, instr_not_data);
            &&& !flags.present <==> esr & 0b111111 == 0b000100 || esr & 0b111111 == 0b000101 || esr
                & 0b111111 == 0b000110 || esr & 0b111111 == 0b000111
            &&& flags.involved_write <==> esr & 0b1000000 != 0 && !instr_not_data
            &&& flags.user_not_supervisor == from_user
            &&& flags.instr_not_data == instr_not_data
        }),
{
    assert((esr % 0x200_0000) % 64 == esr & 0b111111) by (bit_vector);
    assert(((esr % 0x200_0000) / 64 % 2 == 1) == (esr & 0b1000000 != 0)) by (bit_vector);
}

/// A translation fault of any level says that the page is missing, and no other
/// status does.
pub proof fn lemma_translation_faults_of_all_levels(
    rest: u64,
    status: u64,
    from_user: bool,
    instr_not_data: bool,
)
    requires
        status < 64,
        rest * 64 + status <= u64::MAX,
    ensures
        ({
            let flags = abort_flags((rest * 64 + status) as u64, from_user, instr_not_data);
            &&& forall|level: int|
                0 <= level <= 3 && status == #[trigger] (0b000100 + level) ==> !flags.present
            &&& (forall|level: int|
                0 <= level <= 3 ==> status != #[trigger] (0b000100 + level)) ==> flags.present
        }),
{
    let esr = (rest * 64 + status) as u64;
    assert(esr % 0x200_0000 % 64 == status) by (bit_vector)
        requires
            status < 64,
            esr == rest * 64 + status,
    ;
    let flags = abort_flags(esr, from_user, instr_not_data);
    if !flags.present {
        assert(0 <= status - 0b000100 <= 3);
        let level = status - 0b000100;
        assert(status == 0b000100 + level);
    }
}

/// The class is in bits 31 to 26 and the rest of the syndrome in bits 24 to 0; no
/// other bit matters to either.
pub proof fn lemma_class_and_syndrome(esr: u64)
    ensures
        class_of(esr) == (esr >> 26) & 0x3F,
        syndrome_of(esr) == esr & 0x1FF_FFFF,
{
    assert(esr / 0x400_0000 % 64 == (esr >> 26) & 0x3F) by (bit_vector);
    assert(esr % 0x200_0000 == esr & 0x1FF_FFFF) by (bit_vector);
}

/// Which trapped accesses read the timer: all bits but those of the general register
/// have to fit, and they tell which register of the timer it is.
pub proof fn lemma_which_accesses_read_the_timer(syndrome: u32)
    ensures
        register_read(syndrome) == Some(TimerRegister::Frequency) <==> syndrome & 0x3F_FC1F
            == 0x30_F801,
        register_read(syndrome) == Some(TimerRegister::PhysicalCount) <==> syndrome & 0x3F_FC1F
            == 0x32_F801,
        register_read(syndrome) == Some(TimerRegister::VirtualCount) <==> syndrome & 0x3F_FC1F
            == 0x34_F801,
        access_register(syndrome) == (syndrome >> 5) & 0x1F,
{
    assert((syndrome & 0x3F_FC1F == 0x30_F801) == (syndrome / 0x10_0000 % 4 == 3 && syndrome
        / 0x4000 % 8 == 3 && syndrome / 0x400 % 16 == 14 && syndrome / 2 % 16 == 0 && syndrome
        / 0x2_0000 % 8 == 0 && syndrome % 2 == 1)) by (bit_vector);
    assert((syndrome & 0x3F_FC1F == 0x32_F801) == (syndrome / 0x10_0000 % 4 == 3 && syndrome
        / 0x4000 % 8 == 3 && syndrome / 0x400 % 16 == 14 && syndrome / 2 % 16 == 0 && syndrome
        / 0x2_0000 % 8 == 1 && syndrome % 2 == 1)) by (bit_vector);
    assert((syndrome & 0x3F_FC1F == 0x34_F801) == (syndrome / 0x10_0000 % 4 == 3 && syndrome
        / 0x4000 % 8 == 3 && syndrome / 0x400 % 16 == 14 && syndrome / 2 % 16 == 0 && syndrome
        / 0x2_0000 % 8 == 2 && syndrome % 2 == 1)) by (bit_vector);
    assert((syndrome >> 5) & 0x1F == syndrome / 32 % 32) by (bit_vector);
}

/// The value of a read is that of the register that is read, and any other access
/// gives none.
pub proof fn lemma_what_a_read_gives(syndrome: u32, counters: CounterRegisters)
    ensures
        syndrome & 0x3F_FC1F == 0x30_F801 ==> counter_read(syndrome, counters) == Some(
            counters.cntfrq_el0,
        ),
        syndrome & 0x3F_FC1F == 0x32_F801 ==> counter_read(syndrome, counters) == Some(
            counters.cntpct_el0,
        ),
        syndrome & 0x3F_FC1F == 0x34_F801 ==> counter_read(syndrome, counters) == Some(
            counters.cntvct_el0,
        ),
        counter_read(syndrome, counters) is Some ==> syndrome & 0x3F_FC1F == 0x30_F801 || syndrome
            & 0x3F_FC1F == 0x32_F801 || syndrome & 0x3F_FC1F == 0x34_F801,
{
    lemma_which_accesses_read_the_timer(syndrome);
}

/// A read into the zero register changes no register, and one into any other that
/// register alone. Either way the next instruction, four bytes on, is gone to.
pub proof fn lemma_what_a_read_changes(
    before: InterruptStack,
    after: InterruptStack,
    register: int,
    value: u64,
)
    requires
        read_done(before, after, register, value),
        before.iret.elr_el1 + 4 <= u64::MAX,
        0 <= register < 32,
    ensures
        after.iret.elr_el1 - before.iret.elr_el1 == 4,
        register == 31 ==> after.x@ == before.x@,
        register < 31 ==> after.x@ == before.x@.update(register, value),
{
}

/// What an exception comes to, by its class: the four aborts are page faults at the
/// given address, a trapped read of the timer is dealt with, and nothing else is.
/// Only the read changes any register.
pub proof fn lemma_what_each_class_comes_to(
    before: InterruptStack,
    after: InterruptStack,
    class: u8,
    far: u64,
    counters: CounterRegisters,
    outcome: PfOutcome,
)
    requires
        pf_contract(before, after, class, far, counters, outcome),
    ensures
        ({
            let esr = before.iret.esr_el1;
            let reads = esr & 0x3F_FC1F == 0x30_F801 || esr & 0x3F_FC1F == 0x32_F801 || esr
                & 0x3F_FC1F == 0x34_F801;
            let abort = class == 0x20 || class == 0x21 || class == 0x24 || class == 0x25;
            &&& outcome is PageFault <==> abort
            &&& outcome is Handled <==> class == 0x18 && reads
            &&& outcome is Unhandled <==> !abort && !(class == 0x18 && reads)
            &&& !(outcome is Handled) ==> after == before
            &&& outcome matches PfOutcome::PageFault(fault) ==> {
                &&& fault.address@ == far
                &&& fault.flags.instr_not_data <==> class == 0x20 || class == 0x21
                &&& fault.flags.user_not_supervisor <==> class == 0x20 || class == 0x24
                &&& !fault.flags.present <==> esr & 0b111111 == 0b000100 || esr & 0b111111
                    == 0b000101 || esr & 0b111111 == 0b000110 || esr & 0b111111 == 0b000111
                &&& fault.flags.involved_write <==> esr & 0b1000000 != 0 && (class == 0x24 || class
                    == 0x25)
            }
            &&& outcome is Handled ==> read_done(
                before,
                after,
                ((esr >> 5) & 0x1F) as int,
                if esr & 0x3F_FC1F == 0x30_F801 {
                    counters.cntfrq_el0
                } else if esr & 0x3F_FC1F == 0x32_F801 {
                    counters.cntpct_el0
                } else {
                    counters.cntvct_el0
                },
            )
        }),
{
    let esr = before.iret.esr_el1;
    let syndrome = syndrome_of(esr);
    lemma_what_an_abort_says(esr, true, true);
    lemma_what_an_abort_says(esr, true, false);
    lemma_what_an_abort_says(esr, false, true);
    lemma_what_an_abort_says(esr, false, false);
    lemma_which_accesses_read_the_timer(syndrome);
    lemma_what_a_read_gives(syndrome, counters);
    assert(syndrome & 0x3F_FC1F == esr & 0x3F_FC1F && (syndrome >> 5) & 0x1F == (esr >> 5) & 0x1F)
        by (bit_vector)
        requires
            syndrome == esr % 0x200_0000,
    ;
}

/// A system call has its number in `x8` and its arguments in `x0` to `x5`.
pub proof fn lemma_what_a_system_call_asks_for(x: Seq<u64>)
    ensures
        requested_syscall(x).number == x[8],
        requested_syscall(x).a == x[0],
        requested_syscall(x).b == x[1],
        requested_syscall(x).c == x[2],
        requested_syscall(x).d == x[3],
        requested_syscall(x).e == x[4],
        requested_syscall(x).f == x[5],
{
}

} // verus!
