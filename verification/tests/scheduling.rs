//! Contexts taking turns, and what the processors tell of themselves.

use kernel::context::switch::{
    begin_switch, switch, switch_finish_hook, tick, try_acquire, update_runnable,
    ContextSwitchPercpu, FinishAction, SwitchOutcome, SwitchResult, SwitchResultInner, TickAction,
    UpdateResult,
};
use kernel::context::{Context, ContextRef, Status};
use kernel::cpu_set::{LogicalCpuId, LogicalCpuSet};
use kernel::percpu::{CpuState, CpuStats, PercpuBlock};
use kernel::smp_diag::{log_ipi_receive, log_ipi_send, periodic_log, CpuLine};
use kernel::smp_sync::{
    get_raw_sync_ptr, get_smp_sync, get_smp_sync_mut, increment_ap_entry, init_smp_sync_device,
    init_smp_sync_normal, read_ap_entry, SmpSync, SmpSyncBlock,
};
use kernel::time::{delay_microseconds, monotonic_absolute, monotonic_resolution};

fn cpu(id: u32) -> LogicalCpuId {
    LogicalCpuId::new(id)
}

fn context(id: usize) -> Context {
    let mut sched_affinity = LogicalCpuSet::empty();
    sched_affinity.insert(cpu(0));
    Context {
        handle: ContextRef { id },
        running: false,
        sched_affinity,
        status: Status::Runnable,
        wake: None,
        cpu_id: None,
        cpu_time: 0,
        switch_time: 0,
        userspace: false,
        inside_syscall: false,
        being_sigkilled: false,
        preemptable: true,
    }
}

/// Contexts 1 to 4, the processor at the second, and the first idle.
fn setting() -> (PercpuBlock, Vec<Context>) {
    let mut contexts = vec![context(1), context(2), context(3), context(4)];
    contexts[1].running = true;
    let mut percpu = PercpuBlock::init(cpu(0));
    percpu.switch_internals.set_current_context(ContextRef { id: 2 });
    percpu.switch_internals.set_idle_context(ContextRef { id: 1 });
    (percpu, contexts)
}

fn run(percpu: &mut PercpuBlock, contexts: &mut Vec<Context>, now: u128) -> SwitchOutcome {
    let mut lock = true;
    let clock = vec![now; contexts.len()];
    let outcome = switch(percpu, contexts, &mut lock, &clock, now);
    assert_eq!(lock, outcome.result == SwitchResult::Switched);
    outcome
}

#[test]
fn sets_of_processors() {
    let mut set = LogicalCpuSet::empty();
    assert!(!set.contains(cpu(3)));
    set.insert(cpu(3));
    set.insert(cpu(3));
    assert!(set.contains(cpu(3)) && !set.contains(cpu(0)));
    assert_eq!(cpu(3).get(), 3);
}

#[test]
fn a_context_is_switched_to_if_it_can_run_here() {
    let mut c = context(1);
    assert_eq!(update_runnable(&mut c, cpu(0), 0), UpdateResult::CanSwitch);
    assert_eq!(update_runnable(&mut c, cpu(1), 0), UpdateResult::Skip);
    c.running = true;
    assert_eq!(update_runnable(&mut c, cpu(0), 0), UpdateResult::Skip);
    for status in [Status::Blocked, Status::HardBlocked, Status::Dead] {
        let mut c = context(1);
        c.status = status;
        assert_eq!(update_runnable(&mut c, cpu(0), 0), UpdateResult::Skip);
        assert_eq!(c.status, status);
    }
}

#[test]
fn a_context_is_woken_when_its_time_has_come() {
    let mut c = context(1);
    c.status = Status::Blocked;
    c.wake = Some(10);
    assert_eq!(update_runnable(&mut c, cpu(0), 9), UpdateResult::Skip);
    assert_eq!((c.status, c.wake), (Status::Blocked, Some(10)));
    assert_eq!(update_runnable(&mut c, cpu(0), 10), UpdateResult::CanSwitch);
    assert_eq!((c.status, c.wake), (Status::Runnable, None));
    // Nothing short of an event wakes one that waits for another context.
    let mut c = context(1);
    c.status = Status::HardBlocked;
    c.wake = Some(10);
    assert_eq!(update_runnable(&mut c, cpu(0), 11), UpdateResult::Skip);
    assert_eq!(c.wake, Some(10));
    assert!(!c.unblock_no_ipi());
}

#[test]
fn every_third_tick_asks_for_a_switch() {
    let mut percpu = PercpuBlock::init(cpu(0));
    assert_eq!(tick(&mut percpu), TickAction::Continue);
    assert_eq!(tick(&mut percpu), TickAction::Continue);
    assert_eq!(tick(&mut percpu), TickAction::SwitchThenSignals);
    let mut total = u64::MAX;
    begin_switch(&mut percpu, &mut total);
    assert_eq!(percpu.switch_internals.pit_ticks, 0);
    assert_eq!((percpu.stats.context_switches, total), (1, 0));
    assert_eq!(tick(&mut percpu), TickAction::Continue);
}

#[test]
fn the_round_starts_behind_the_current_context() {
    let (mut percpu, mut contexts) = setting();
    contexts[1].switch_time = 1_000_000;
    contexts[1].cpu_time = 5;
    contexts[2].userspace = true;
    percpu.switch_internals.switch_time = 2_000_000;
    percpu.inside_syscall = true;
    let outcome = run(&mut percpu, &mut contexts, 9_500_000);
    assert_eq!(
        outcome,
        SwitchOutcome {
            result: SwitchResult::Switched,
            switch_to: Some(SwitchResultInner {
                prev: ContextRef { id: 2 },
                next: ContextRef { id: 3 },
            }),
            add_time_ms: Some(7),
            set_state: Some(CpuState::User),
        }
    );
    assert!(!contexts[1].running && contexts[2].running);
    assert_eq!(contexts[1].cpu_time, 5 + 8_500_000);
    assert!(contexts[1].inside_syscall && !percpu.inside_syscall);
    assert_eq!((contexts[2].cpu_id, contexts[2].switch_time), (Some(cpu(0)), 9_500_000));
    assert_eq!(percpu.switch_internals.current_ctxt, Some(ContextRef { id: 3 }));
    assert_eq!(percpu.switch_internals.switch_time, 9_500_000);
    let mut lock = true;
    let released = SwitchResultInner { prev: ContextRef { id: 2 }, next: ContextRef { id: 3 } };
    assert_eq!(
        switch_finish_hook(&mut percpu, &mut lock),
        FinishAction::ArchHookThenInterrupts { released }
    );
    assert_eq!(percpu.switch_internals.switch_result, None);
    assert!(!lock);
    assert_eq!(switch_finish_hook(&mut percpu, &mut lock), FinishAction::EmergencyReset);
}

#[test]
fn contexts_take_turns() {
    let (mut percpu, mut contexts) = setting();
    let mut order = Vec::new();
    for now in 1..7 {
        order.push(run(&mut percpu, &mut contexts, now).switch_to.unwrap().next.id);
        assert_eq!(contexts.iter().filter(|c| c.running).count(), 1);
    }
    // The idle context is passed over.
    assert_eq!(order, vec![3, 4, 2, 3, 4, 2]);
}

#[test]
fn the_idle_context_comes_last() {
    let (mut percpu, mut contexts) = setting();
    contexts[2].status = Status::Blocked;
    contexts[3].running = true;
    let outcome = run(&mut percpu, &mut contexts, 1);
    assert_eq!(outcome.switch_to.unwrap().next, ContextRef { id: 1 });
    assert_eq!(outcome.set_state, Some(CpuState::Kernel));
}

#[test]
fn nothing_is_switched_to_where_nothing_can_run() {
    let (mut percpu, mut contexts) = setting();
    for i in [0, 2, 3] {
        contexts[i].status = Status::Blocked;
    }
    contexts[3].wake = Some(2);
    let idle = SwitchOutcome {
        result: SwitchResult::AllContextsIdle,
        switch_to: None,
        add_time_ms: Some(0),
        set_state: Some(CpuState::Idle),
    };
    assert_eq!(run(&mut percpu, &mut contexts, 1), idle);
    assert!(contexts[1].running);
    assert_eq!(percpu.switch_internals.switch_time, 1);
    // The fourth wakes up in time.
    assert_eq!(run(&mut percpu, &mut contexts, 2).result, SwitchResult::Switched);
    assert_eq!((contexts[3].status, contexts[3].wake), (Status::Runnable, None));
}

#[test]
fn the_idle_context_does_not_switch_to_itself() {
    let (mut percpu, mut contexts) = setting();
    percpu.switch_internals.set_idle_context(ContextRef { id: 2 });
    for i in [0, 2, 3] {
        contexts[i].status = Status::Dead;
    }
    assert_eq!(
        run(&mut percpu, &mut contexts, 1).result,
        SwitchResult::AllContextsIdle
    );
}

#[test]
fn a_context_that_may_not_be_interrupted_is_left_alone() {
    let (mut percpu, mut contexts) = setting();
    contexts[1].preemptable = false;
    let outcome = run(&mut percpu, &mut contexts, 5_000_000);
    assert_eq!(outcome.result, SwitchResult::NotPreemptable);
    assert_eq!((outcome.add_time_ms, outcome.set_state), (None, None));
    assert_eq!(percpu.switch_internals.switch_time, 0);
}

#[test]
fn one_processor_holds_the_lock() {
    let mut lock = false;
    assert!(try_acquire(&mut lock));
    assert!(!try_acquire(&mut lock));
}

#[test]
fn the_current_context_is_reached() {
    let mut internals = ContextSwitchPercpu::default();
    assert_eq!(internals.try_with_context(|c| c.map(|current| current.id)), None);
    internals.set_current_context(ContextRef { id: 8 });
    assert_eq!(internals.with_context(|current| current.id), 8);
    assert_eq!(internals.try_with_context(|c| c.map(|current| current.id)), Some(8));
    internals.set_idle_context(ContextRef { id: 1 });
    assert_eq!(internals.idle_context(), ContextRef { id: 1 });
}

#[test]
fn the_shared_block_counts_processors() {
    let mut sync = SmpSync::new();
    assert!(get_smp_sync(&sync).is_none());
    assert!(get_smp_sync_mut(&mut sync).is_none());
    assert_eq!(get_raw_sync_ptr(&sync), 0);
    assert_eq!(increment_ap_entry(&mut sync), 0);
    assert_eq!(read_ap_entry(&sync), 0);
    assert_eq!(
        init_smp_sync_normal(&mut sync, None),
        Err("Failed to allocate frame for SMP sync")
    );
    assert!(get_smp_sync(&sync).is_none());
    assert_eq!(init_smp_sync_normal(&mut sync, Some(0x4000)), Ok(()));
    assert_eq!(get_raw_sync_ptr(&sync), 0xFFFF_8000_0000_4000);
    for before in 0..3 {
        assert_eq!(increment_ap_entry(&mut sync), before);
    }
    assert_eq!(read_ap_entry(&sync), 3);
    get_smp_sync_mut(&mut sync).unwrap().ap_entry_count = u32::MAX;
    assert_eq!(increment_ap_entry(&mut sync), u32::MAX);
    assert_eq!(read_ap_entry(&sync), 0);
    let block = SmpSyncBlock::new();
    assert_eq!((block.ap_entry_count, block.ap_entry_volatile), (0, 0));
    assert_eq!(block.ap_ready_flags, [0; 16]);
}

#[test]
fn device_memory_cannot_be_mapped() {
    assert_eq!(
        init_smp_sync_device(None),
        Err("Failed to allocate frame for SMP device sync")
    );
    assert_eq!(
        init_smp_sync_device(Some(0x4000)),
        Err("Device memory mapping not implemented yet")
    );
}

#[test]
fn summaries_come_every_five_hundred_ticks() {
    let stats = CpuStats {
        context_switches: 4,
        ipis_sent: 5,
        ipis_received: 6,
        user: 7_999_999,
        kernel: 8_000_000,
        idle: 999_999,
    };
    let all = [(cpu(0), stats), (cpu(1), CpuStats::new())];
    let mut ticks = 0;
    let mut seen = Vec::new();
    for _ in 0..1001 {
        if let Some(summary) = periodic_log(&mut ticks, cpu(1), &all, 10, 20) {
            assert_eq!(summary.cpu_id, cpu(1));
            assert_eq!((summary.total_contexts, summary.total_switches), (10, 20));
            assert_eq!(
                summary.cpus[0],
                CpuLine {
                    cpu_id: cpu(0),
                    switches: 4,
                    ipis_sent: 5,
                    ipis_received: 6,
                    user_ms: 7,
                    kernel_ms: 8,
                    idle_ms: 0,
                }
            );
            assert_eq!(summary.cpus.len(), 2);
            seen.push(summary.tick);
        }
    }
    assert_eq!(seen, vec![500, 1000]);
    assert_eq!(ticks, 1001);
}

#[test]
fn logged_messages_are_counted() {
    let mut stats = CpuStats::new();
    log_ipi_send(cpu(0), "Wakeup", "Other", &mut stats);
    log_ipi_receive(cpu(1), "Wakeup", &mut stats);
    log_ipi_receive(cpu(1), "Tlb", &mut stats);
    assert_eq!((stats.ipis_sent, stats.ipis_received), (1, 2));
}

#[test]
fn ticks_of_the_timer_become_time() {
    assert_eq!(monotonic_absolute(62_500_000, 62_500_000), 1_000_000_000);
    assert_eq!(monotonic_absolute(1, 62_500_000), 16);
    assert_eq!(monotonic_absolute(u64::MAX, 1), u64::MAX as u128 * 1_000_000_000);
    assert_eq!(monotonic_resolution(62_500_000), 16);
    assert_eq!(monotonic_resolution(24_000_000), 41);
}

#[test]
fn delays_take_their_time() {
    let delay = delay_microseconds(10, 24_000_000, 100);
    assert_eq!(delay.ticks_needed, 240);
    assert!(!delay.is_over(339));
    assert!(delay.is_over(340) && delay.is_over(341));
    // The timer may start again from zero meanwhile.
    let delay = delay_microseconds(10, 24_000_000, u64::MAX - 39);
    assert!(!delay.is_over(199));
    assert!(delay.is_over(200));
    assert!(delay_microseconds(0, 24_000_000, 7).is_over(7));
}
