//! Reports on what the processors do.

use crate::counter;
use crate::cpu_set::LogicalCpuId;
use crate::percpu::CpuStats;
use vstd::prelude::*;

verus! {

/// Ticks between two summaries.
pub const TICKS_PER_SUMMARY: u64 = 500;

/// Nanoseconds in a millisecond.
pub const NANOS_PER_MILLI: u64 = 1_000_000;

/// The counters of a processor, as a summary shows them.
#[derive(Clone, Copy, Debug, PartialEq, Eq, Structural)]
pub struct CpuLine {
    /// The processor.
    pub cpu_id: LogicalCpuId,
    /// Context switches.
    pub switches: u64,
    /// Messages sent.
    pub ipis_sent: u64,
    /// Messages received.
    pub ipis_received: u64,
    /// Milliseconds in user space.
    pub user_ms: u64,
    /// Milliseconds in the kernel.
    pub kernel_ms: u64,
    /// Milliseconds without work.
    pub idle_ms: u64,
}

/// A summary.
#[derive(Clone, Debug)]
pub struct Summary {
    /// The tick that it is made at.
    pub tick: u64,
    /// The processor that makes it.
    pub cpu_id: LogicalCpuId,
    /// A line for each processor.
    pub cpus: Vec<CpuLine>,
    /// Contexts in all.
    pub total_contexts: u64,
    /// Context switches in all.
    pub total_switches: u64,
}

/// The line of a processor.
pub open spec fn line_of(cpu_id: LogicalCpuId, stats: CpuStats) -> CpuLine {
    CpuLine {
        cpu_id,
        switches: stats.context_switches,
        ipis_sent: stats.ipis_sent,
        ipis_received: stats.ipis_received,
        user_ms: stats.user / NANOS_PER_MILLI,
        kernel_ms: stats.kernel / NANOS_PER_MILLI,
        idle_ms: stats.idle / NANOS_PER_MILLI,
    }
}

/// A summary is due at a tick: every five hundredth, but not the first.
pub open spec fn is_summary_due(tick: u64) -> bool {
    tick % TICKS_PER_SUMMARY == 0 && tick > 0
}

/// Counts a tick, and makes a summary if one is due.
pub fn periodic_log(
    tick_counter: &mut u64,
    cpu_id: LogicalCpuId,
    all_stats: &[(LogicalCpuId, CpuStats)],
    total_contexts: u64,
    total_switches: u64,
) -> (summary: Option<Summary>)
    ensures
        *final(tick_counter) == counter::counted_up(*old(tick_counter)),
        summary is Some <==> is_summary_due(*old(tick_counter)),
        summary matches Some(report) ==> {
            &&& report.tick == *old(tick_counter)
            &&& report.cpu_id == cpu_id
            &&& report.cpus@ == Seq::new(
                all_stats@.len(),
                |i: int| line_of(all_stats@[i].0, all_stats@[i].1),
            )
            &&& report.total_contexts == total_contexts
            &&& report.total_switches == total_switches
        },
{
    let tick: u64 = *tick_counter;
    *tick_counter = tick.wrapping_add(1);
    if tick % TICKS_PER_SUMMARY == 0 && tick > 0 {
        let mut cpus: Vec<CpuLine> = Vec::new();
        let mut i: usize = 0;
        while i < all_stats.len()
            invariant
                i <= all_stats@.len(),
                cpus@.len() == i,
                forall|j: int|
                    0 <= j < i ==> #[trigger] cpus@[j] == line_of(
                        all_stats@[j].0,
                        all_stats@[j].1,
                    ),
            decreases all_stats@.len() - i,
        {
            let (cpu, stats): (LogicalCpuId, CpuStats) = all_stats[i];
            cpus.push(
                CpuLine {
                    cpu_id: cpu,
                    switches: stats.context_switches,
                    ipis_sent: stats.ipis_sent,
                    ipis_received: stats.ipis_received,
                    user_ms: stats.user / NANOS_PER_MILLI,
                    kernel_ms: stats.kernel / NANOS_PER_MILLI,
                    idle_ms: stats.idle / NANOS_PER_MILLI,
                },
            );
            i = i + 1;
        }
        assert(cpus@ =~= Seq::new(
            all_stats@.len(),
            |i: int| line_of(all_stats@[i].0, all_stats@[i].1),
        ));
        Some(Summary { tick, cpu_id, cpus, total_contexts, total_switches })
    } else {
        None
    }
}

/// Counts a message that a processor sent: what it says and who it goes to are
/// for the log alone.
pub fn log_ipi_send(_from_cpu: LogicalCpuId, _kind: &str, _target: &str, stats: &mut CpuStats)
    ensures
        *final(stats) == (CpuStats {
            ipis_sent: counter::counted_up(old(stats).ipis_sent),
            ..*old(stats)
        }),
{
    stats.add_ipi_sent();
}

/// Counts a message that a processor received: what it says is for the log alone.
pub fn log_ipi_receive(_cpu_id: LogicalCpuId, _kind: &str, stats: &mut CpuStats)
    ensures
        *final(stats) == (CpuStats {
            ipis_received: counter::counted_up(old(stats).ipis_received),
            ..*old(stats)
        }),
{
    stats.add_ipi_received();
}

/// Of any five hundred ticks in a row behind the first, one brings a summary.
pub proof fn lemma_one_summary_in_a_row(tick: u64) -> (due: u64)
    requires
        0 < tick,
        tick + TICKS_PER_SUMMARY <= u64::MAX,
    ensures
        tick <= due < tick + TICKS_PER_SUMMARY,
        is_summary_due(due),
        forall|other: u64|
            tick <= other < tick + TICKS_PER_SUMMARY && #[trigger] is_summary_due(other) ==> other
                == due,
{
    if tick % TICKS_PER_SUMMARY == 0 {
        tick
    } else {
        (tick + TICKS_PER_SUMMARY - tick % TICKS_PER_SUMMARY) as u64
    }
}

/// A line shows the counters as they are and the times in whole milliseconds.
pub proof fn lemma_what_a_line_shows(cpu_id: LogicalCpuId, stats: CpuStats)
    ensures
        ({
            let line = line_of(cpu_id, stats);
            &&& line.cpu_id == cpu_id
            &&& line.switches == stats.context_switches
            &&& line.ipis_sent == stats.ipis_sent
            &&& line.ipis_received == stats.ipis_received
            &&& line.user_ms * 1_000_000 <= stats.user < (line.user_ms + 1) * 1_000_000
            &&& line.kernel_ms * 1_000_000 <= stats.kernel < (line.kernel_ms + 1) * 1_000_000
            &&& line.idle_ms * 1_000_000 <= stats.idle < (line.idle_ms + 1) * 1_000_000
        }),
{
}

/// A summary is due at exactly the multiples of five hundred above zero.
pub proof fn lemma_when_summaries_are_due(tick: u64, n: u64)
    ensures
        tick == n * 500 && n > 0 ==> is_summary_due(tick),
        n * 500 < tick < (n + 1) * 500 ==> !is_summary_due(tick),
        !is_summary_due(0),
{
}

} // verus!
