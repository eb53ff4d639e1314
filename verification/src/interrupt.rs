//! Interrupts: waiting for them, and deciding what each asks for.

pub mod exception;
pub mod handler;
pub mod irq;

use crate::counter;
use vstd::prelude::*;

verus! {

/// Timer cycles under which a wait for an interrupt counts as short.
pub const SHORT_WAIT_CYCLES: u64 = 1000;

/// Number of waits between two reports.
pub const WAITS_PER_REPORT: u64 = 10_000;

/// How the waits for interrupts went. Each counter starts again from zero
/// behind its last value.
#[derive(Clone, Copy, Debug, PartialEq, Eq, Structural)]
pub struct WaitCounters {
    /// Waits in all.
    pub measurements: u64,
    /// Waits that ended at once.
    pub short_returns: u64,
    /// Waits that took their time.
    pub good_halts: u64,
}

/// A report on the waits, without the one that it is about.
#[derive(Clone, Copy, Debug, PartialEq, Eq, Structural)]
pub struct WaitReport {
    /// Cycles that the last wait took.
    pub cycles: u64,
    /// It was short.
    pub short: bool,
    /// Waits before it that went the same way.
    pub count: u64,
    /// Waits before it.
    pub total: u64,
}

/// Cycles from one reading of the counter to a later one. The counter starts
/// again from zero behind its last value.
pub open spec fn cycles_between(before: u64, after: u64) -> u64 {
    if after >= before {
        (after - before) as u64
    } else {
        (after - before + u64::MAX + 1) as u64
    }
}

/// The counters behind a wait that was short, or was not.
pub open spec fn recorded(counters: WaitCounters, short: bool) -> WaitCounters {
    WaitCounters {
        measurements: counter::counted_up(counters.measurements),
        short_returns: if short {
            counter::counted_up(counters.short_returns)
        } else {
            counters.short_returns
        },
        good_halts: if short {
            counters.good_halts
        } else {
            counter::counted_up(counters.good_halts)
        },
    }
}

impl WaitCounters {
    /// No waits yet.
    pub fn new() -> (counters: Self)
        ensures
            counters == (WaitCounters { measurements: 0, short_returns: 0, good_halts: 0 }),
    {
        WaitCounters { measurements: 0, short_returns: 0, good_halts: 0 }
    }

    /// Counts a wait, given the cycle counter before and behind it. The first wait
    /// gives a report, and every ten thousandth behind it.
    pub fn record(&mut self, cycles_before: u64, cycles_after: u64) -> (report: Option<WaitReport>)
        ensures
            ({
                let cycles = cycles_between(cycles_before, cycles_after);
                let short = cycles < SHORT_WAIT_CYCLES;
                &&& *final(self) == recorded(*old(self), short)
                &&& report == if old(self).measurements % WAITS_PER_REPORT == 0 {
                    Some(
                        WaitReport {
                            cycles,
                            short,
                            count: if short {
                                old(self).short_returns
                            } else {
                                old(self).good_halts
                            },
                            total: old(self).measurements,
                        },
                    )
                } else {
                    None
                }
            }),
            report is Some <==> old(self).measurements % 10_000 == 0,
            report matches Some(made) ==> {
                &&& (cycles_before + made.cycles) % 0x1_0000_0000_0000_0000 == cycles_after
                &&& made.short <==> made.cycles < 1000
                &&& made.total == old(self).measurements
            },
    {
        let cycles: u64 = cycles_after.wrapping_sub(cycles_before);
        let total: u64 = self.measurements;
        self.measurements = total.wrapping_add(1);
        let short: bool = cycles < SHORT_WAIT_CYCLES;
        let count: u64 = if short {
            self.short_returns
        } else {
            self.good_halts
        };
        if short {
            self.short_returns = count.wrapping_add(1);
        } else {
            self.good_halts = count.wrapping_add(1);
        }
        if total % WAITS_PER_REPORT == 0 {
            Some(WaitReport { cycles, short, count, total })
        } else {
            None
        }
    }
}

impl WaitReport {
    /// The percentage of waits before the reported one that went the same way,
    /// zero where there was none.
    pub fn percent(&self) -> (percent: u128)
        ensures
            self.total == 0 ==> percent == 0,
            self.total > 0 ==> percent == self.count * 100 / self.total as int,
            self.total > 0 ==> percent * self.total <= self.count * 100 < (percent + 1)
                * self.total,
    {
        proof {
            if self.total > 0 {
                let all = self.total as int;
                let q = self.count * 100 / all;
                vstd::arithmetic::div_mod::lemma_fundamental_div_mod(self.count * 100, all);
                assert(q * all + all == (q + 1) * all && all * q == q * all) by (nonlinear_arith);
            }
        }
        if self.total == 0 {
            0
        } else {
            self.count as u128 * 100 / self.total as u128
        }
    }
}

/// Every wait is counted as short or as good, and none as both: as long as no
/// counter has started again, the two add up to all waits.
pub proof fn lemma_waits_add_up(before: WaitCounters, short: bool)
    requires
        before.measurements == before.short_returns + before.good_halts,
        before.measurements < u64::MAX,
    ensures
        ({
            let after = recorded(before, short);
            after.measurements == after.short_returns + after.good_halts
        }),
{
}

/// The cycles between two readings bring the counter from the one to the other.
pub proof fn lemma_cycles_lead_on(before: u64, after: u64)
    ensures
        (before + cycles_between(before, after)) % 0x1_0000_0000_0000_0000 == after,
{
}

/// A wait is counted once in all and once among its own, and a counter behind its
/// last value starts again.
pub proof fn lemma_how_a_wait_is_counted(before: WaitCounters, short: bool)
    ensures
        ({
            let after = recorded(before, short);
            let all = 0x1_0000_0000_0000_0000;
            &&& after.measurements == (before.measurements + 1) % all
            &&& short ==> after.short_returns == (before.short_returns + 1) % all
            &&& short ==> after.good_halts == before.good_halts
            &&& !short ==> after.good_halts == (before.good_halts + 1) % all
            &&& !short ==> after.short_returns == before.short_returns
        }),
{
    counter::lemma_counts_up_by_one(before.measurements);
    counter::lemma_counts_up_by_one(before.short_returns);
    counter::lemma_counts_up_by_one(before.good_halts);
}

} // verus!
