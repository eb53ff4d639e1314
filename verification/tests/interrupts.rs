//! Exceptions, interrupt requests, and messages between processors.

use kernel::cpu_set::LogicalCpuId;
use kernel::interrupt::exception::{
    el0_fault_resolved, el1_fault_resolved, exception_code, instr_data_abort_inner,
    instr_trapped_msr_mrs_inner, is_trapped_counter_read, iss, pf_inner, synchronous_exception_at_el0,
    synchronous_exception_at_el1_with_spx, syscall_returned, timer_register, CounterRegisters,
    El0Action, El1Action, GenericPfFlags, PageFault, PfOutcome, SyscallRequest, TimerRegister,
    VirtualAddress,
};
use kernel::interrupt::handler::{InterruptStack, IretRegisters};
use kernel::interrupt::irq::{irq_at_el0, IrqAction, IrqCount, IrqCounters, IrqTrigger};
use kernel::interrupt::{WaitCounters, WaitReport};
use kernel::ipi::{
    handle_ipi, ipi, ipi_single, IpiHandling, IpiKind, IpiTarget, IpiWork, SgiRequest,
};
use kernel::percpu::{CpuStats, PercpuBlock};

const COUNTERS: CounterRegisters =
    CounterRegisters { cntfrq_el0: 62_500_000, cntpct_el0: 1111, cntvct_el0: 2222 };

fn stack(esr: u64) -> InterruptStack {
    let mut x = [0; 31];
    for i in 0..31 {
        x[i] = 100 + i as u64;
    }
    InterruptStack {
        iret: IretRegisters { sp_el0: 1, esr_el1: esr, spsr_el1: 2, elr_el1: 0x4000 },
        x,
    }
}

/// A trapped access to a system register.
fn access(op0: u64, op1: u64, crn: u64, crm: u64, op2: u64, rt: u64, dir: u64) -> u64 {
    0b011000 << 26 | op0 << 20 | op2 << 17 | op1 << 14 | crn << 10 | rt << 5 | crm << 1 | dir
}

#[test]
fn syndromes_are_taken_apart() {
    assert_eq!(exception_code(0xffff_ffff_5600_0000), 0b010101);
    assert_eq!(exception_code(0xffff_ffff_ffff_ffff), 0b111111);
    assert_eq!(iss(0xffff_ffff_ffff_ffff), 0x01ff_ffff);
    assert_eq!(iss(0x5600_0042), 0x42);
}

#[test]
fn aborts_become_page_faults() {
    // A write to a page that is not mapped, from user space.
    let fault = instr_data_abort_inner(0x47, 0x1234, true, false);
    assert_eq!(
        fault.flags,
        GenericPfFlags {
            present: false,
            involved_write: true,
            user_not_supervisor: true,
            instr_not_data: false,
        }
    );
    assert_eq!(fault.address.data(), 0x1234);
    // A permission fault, in the kernel.
    let fault = instr_data_abort_inner(0x0f, 0x1234, false, false);
    assert!(fault.flags.present && !fault.flags.involved_write);
    assert!(!fault.flags.user_not_supervisor);
    // A fetch never counts as a write.
    let fault = instr_data_abort_inner(0x44, 0, true, true);
    assert!(fault.flags.instr_not_data && !fault.flags.involved_write && !fault.flags.present);
    for (status, present) in [(3, true), (4, false), (7, false), (8, true)] {
        assert_eq!(instr_data_abort_inner(status, 0, true, false).flags.present, present);
    }
}

#[test]
fn trapped_reads_of_the_timer_are_carried_out() {
    for (op2, value) in [(0, 62_500_000), (1, 1111), (2, 2222)] {
        let mut s = stack(access(0b11, 0b011, 0b1110, 0, op2, 7, 1));
        assert!(is_trapped_counter_read(s.iret.esr_el1));
        assert!(instr_trapped_msr_mrs_inner(&mut s, COUNTERS));
        assert_eq!(s.x[7], value);
        assert_eq!(s.ip(), 0x4004);
        assert_eq!((s.x[6], s.x[8]), (106, 108));
    }
    // The zero register keeps nothing, and still the instruction is passed.
    let mut s = stack(access(0b11, 0b011, 0b1110, 0, 1, 31, 1));
    assert!(instr_trapped_msr_mrs_inner(&mut s, COUNTERS));
    assert_eq!(s.x, stack(0).x);
    assert_eq!(s.ip(), 0x4004);
}

#[test]
fn other_trapped_accesses_are_left_alone() {
    for esr in [
        access(0b11, 0b011, 0b1110, 0, 1, 7, 0),
        access(0b11, 0b011, 0b1110, 0, 3, 7, 1),
        access(0b11, 0b011, 0b1110, 1, 1, 7, 1),
        access(0b11, 0b011, 0b1111, 0, 1, 7, 1),
        access(0b11, 0b010, 0b1110, 0, 1, 7, 1),
        access(0b10, 0b011, 0b1110, 0, 1, 7, 1),
    ] {
        let mut s = stack(esr);
        assert!(!is_trapped_counter_read(esr));
        assert_eq!(timer_register(iss(esr)), None);
        assert!(!instr_trapped_msr_mrs_inner(&mut s, COUNTERS));
        assert_eq!(s.x, stack(esr).x);
        assert_eq!(s.ip(), 0x4000);
    }
}

#[test]
fn an_exception_at_the_last_address_is_raised() {
    // An abort there is no trapped read, whatever its syndrome.
    let read = access(0b11, 0b011, 0b1110, 0, 2, 7, 1);
    assert_eq!(timer_register(iss(read)), Some(TimerRegister::VirtualCount));
    let abort = 0b100010 << 26 | read & 0x01ff_ffff;
    assert!(!is_trapped_counter_read(abort));
    let mut s = stack(abort);
    s.iret.elr_el1 = u64::MAX - 3;
    assert_eq!(synchronous_exception_at_el0(&mut s, 0, COUNTERS), El0Action::Raise);
    assert_eq!(s.ip(), u64::MAX - 3);
}

#[test]
fn exceptions_go_by_their_class() {
    for (class, user, fetch) in [
        (0b100100, true, false),
        (0b100101, false, false),
        (0b100000, true, true),
        (0b100001, false, true),
    ] {
        let mut s = stack((class as u64) << 26 | 0x4f);
        match pf_inner(&mut s, class, 0x77, COUNTERS) {
            PfOutcome::PageFault(fault) => {
                assert_eq!(fault.flags.user_not_supervisor, user);
                assert_eq!(fault.flags.instr_not_data, fetch);
                assert_eq!(fault.flags.involved_write, !fetch);
                assert_eq!(fault.address, VirtualAddress::new(0x77));
            }
            other => panic!("{:?}", other),
        }
    }
    let esr = access(0b11, 0b011, 0b1110, 0, 1, 7, 1);
    assert_eq!(pf_inner(&mut stack(esr), 0b011000, 0, COUNTERS), PfOutcome::Handled);
    assert_eq!(pf_inner(&mut stack(0), 0b011000, 0, COUNTERS), PfOutcome::Unhandled);
    assert_eq!(pf_inner(&mut stack(esr), 0b111100, 0, COUNTERS), PfOutcome::Unhandled);
}

#[test]
fn user_space_asks_for_system_calls() {
    let mut s = stack(0b010101 << 26);
    assert_eq!(
        synchronous_exception_at_el0(&mut s, 0, COUNTERS),
        El0Action::Syscall(SyscallRequest {
            number: 108,
            a: 100,
            b: 101,
            c: 102,
            d: 103,
            e: 104,
            f: 105,
        })
    );
    syscall_returned(&mut s, 77);
    assert_eq!((s.x[0], s.x[1], s.ip()), (77, 101, 0x4000));
}

#[test]
fn exceptions_end_in_a_resumption_or_not() {
    let read = access(0b11, 0b011, 0b1110, 0, 1, 7, 1);
    assert_eq!(
        synchronous_exception_at_el0(&mut stack(read), 0, COUNTERS),
        El0Action::Resume
    );
    assert_eq!(synchronous_exception_at_el0(&mut stack(0), 0, COUNTERS), El0Action::Raise);
    assert_eq!(
        synchronous_exception_at_el1_with_spx(&mut stack(read), 0, COUNTERS),
        El1Action::Resume
    );
    // A system call in the kernel is none.
    let svc = 0b010101 << 26;
    assert_eq!(
        synchronous_exception_at_el1_with_spx(&mut stack(svc), 0, COUNTERS),
        El1Action::Stop
    );
    let abort = 0b100101 << 26 | 0x07;
    let fault = PageFault {
        flags: GenericPfFlags {
            present: false,
            involved_write: false,
            user_not_supervisor: false,
            instr_not_data: false,
        },
        address: VirtualAddress::new(9),
    };
    assert_eq!(
        synchronous_exception_at_el1_with_spx(&mut stack(abort), 9, COUNTERS),
        El1Action::PageFault(fault)
    );
    assert_eq!(
        synchronous_exception_at_el0(&mut stack(abort), 9, COUNTERS),
        El0Action::PageFault(fault)
    );
    assert_eq!(el0_fault_resolved(true), El0Action::Resume);
    assert_eq!(el0_fault_resolved(false), El0Action::Raise);
    assert_eq!(el1_fault_resolved(true), El1Action::Resume);
    assert_eq!(el1_fault_resolved(false), El1Action::Stop);
}

#[test]
fn a_failed_copy_returns_to_its_caller() {
    let mut s = stack(0);
    s.recover_and_efault();
    assert_eq!((s.ip(), s.x[0], s.x[30]), (130, 1, 130));
}

#[test]
fn requests_are_routed() {
    assert_eq!(irq_at_el0(15, None), IrqAction::Ipi(15));
    assert_eq!(irq_at_el0(3, Some(9)), IrqAction::Ipi(3));
    assert_eq!(irq_at_el0(16, Some(1023)), IrqAction::TriggerVirq(1023));
    assert_eq!(irq_at_el0(16, Some(1024)), IrqAction::Unexpected(16));
    assert_eq!(irq_at_el0(1023, None), IrqAction::Unexpected(1023));
    assert_eq!(kernel::interrupt::irq::trigger(255), IrqTrigger { announce: 255, eoi: 255 });
}

#[test]
fn requests_in_the_kernel_are_counted_and_reported() {
    let mut counters = IrqCounters::new();
    let (action, report) = counters.irq_at_el1(40, Some(8));
    assert_eq!(action, IrqAction::TriggerVirq(8));
    let nothing = IrqCount { irq: 0, count: 0 };
    assert_eq!(
        report.unwrap(),
        [IrqCount { irq: 40, count: 1 }, nothing, nothing, nothing, nothing]
    );
    for _ in 0..3 {
        for irq in [30, 27, 200, 2, 255, 100] {
            assert!(counters.irq_at_el1(irq, None).1.is_none());
        }
    }
    for irq in [200, 200, 27, 300] {
        counters.irq_at_el1(irq, None);
    }
    // As many came of 2, 30, 100 and 255: the lower numbers go first.
    assert_eq!(
        counters.top_irqs(),
        [
            IrqCount { irq: 200, count: 5 },
            IrqCount { irq: 27, count: 4 },
            IrqCount { irq: 2, count: 3 },
            IrqCount { irq: 30, count: 3 },
            IrqCount { irq: 100, count: 3 },
        ]
    );
    for _ in 23..100_000 {
        assert!(counters.irq_at_el1(999, None).1.is_none());
    }
    assert!(counters.irq_at_el1(999, None).1.is_some());
}

#[test]
fn waits_are_counted() {
    let mut counters = WaitCounters::new();
    let first = counters.record(u64::MAX, 998).unwrap();
    assert_eq!(first, WaitReport { cycles: 999, short: true, count: 0, total: 0 });
    assert_eq!(first.percent(), 0);
    assert_eq!(counters.record(0, 1000), None);
    assert_eq!(
        counters,
        WaitCounters { measurements: 2, short_returns: 1, good_halts: 1 }
    );
    for _ in 2..10_000 {
        assert_eq!(counters.record(5, 5), None);
    }
    let report = counters.record(0, 24_000).unwrap();
    assert_eq!(
        report,
        WaitReport { cycles: 24_000, short: false, count: 1, total: 10_000 }
    );
    assert_eq!(report.percent(), 0);
    let report = WaitReport { cycles: 0, short: true, count: 2500, total: 10_000 };
    assert_eq!(report.percent(), 25);
    let report = WaitReport { cycles: 0, short: true, count: u64::MAX, total: u64::MAX };
    assert_eq!(report.percent(), 100);
}

#[test]
fn messages_are_sent_where_there_are_processors() {
    let mut stats = CpuStats::new();
    assert_eq!(ipi(IpiKind::Tlb, IpiTarget::Other, false, &mut stats), None);
    assert_eq!(stats, CpuStats::new());
    assert_eq!(
        ipi(IpiKind::Tlb, IpiTarget::Other, true, &mut stats),
        Some(SgiRequest { kind: IpiKind::Tlb, target: IpiTarget::Other })
    );
    assert_eq!(stats.ipis_sent, 1);
    stats.ipis_sent = u64::MAX;
    ipi(IpiKind::Tlb, IpiTarget::All, true, &mut stats);
    assert_eq!(stats.ipis_sent, 0);
    let block = PercpuBlock::init(LogicalCpuId::new(2));
    assert_eq!(ipi_single(IpiKind::Wakeup, &block), None);
}

#[test]
fn messages_are_received_for_what_they_say() {
    let expected = [
        (IpiKind::Wakeup, IpiWork::Acknowledge),
        (IpiKind::Tlb, IpiWork::TlbShootdown),
        (IpiKind::Switch, IpiWork::Switch),
        (IpiKind::Pit, IpiWork::Tick),
        (IpiKind::Kstop, IpiWork::Halt),
    ];
    for (i, (kind, work)) in expected.into_iter().enumerate() {
        let number = i as u32;
        assert_eq!(kind.number(), number);
        assert_eq!(IpiKind::from_sgi(number), Some(kind));
        let mut stats = CpuStats::new();
        let eoi = if kind == IpiKind::Kstop { None } else { Some(number) };
        assert_eq!(handle_ipi(number, &mut stats), IpiHandling { work, eoi });
        assert_eq!(stats.ipis_received, 1);
    }
    let mut stats = CpuStats::new();
    assert_eq!(IpiKind::from_sgi(5), None);
    assert_eq!(
        handle_ipi(5, &mut stats),
        IpiHandling { work: IpiWork::Acknowledge, eoi: Some(5) }
    );
    assert_eq!(stats.ipis_received, 0);
    assert_eq!(IpiTarget::Current.number(), 1);
    assert_eq!(IpiTarget::Other.number(), 2);
    assert_eq!(IpiTarget::All.number(), 3);
}
