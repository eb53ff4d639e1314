//! Time, from the readings of the generic timer.

use crate::consts::NANOS_PER_SEC;
use vstd::prelude::*;

verus! {

/// Microseconds in a second.
pub const MICROS_PER_SEC: u64 = 1_000_000;

/// Nanoseconds in which a timer makes so many ticks.
pub open spec fn nanos_of(ticks: u64, freq: u64) -> int {
    ticks * NANOS_PER_SEC / freq as int
}

/// Nanoseconds since the timer was started, given its reading and its frequency.
pub fn monotonic_absolute(ticks: u64, freq: u64) -> (nanos: u128)
    requires
        freq > 0,
    ensures
        nanos == nanos_of(ticks, freq),
        nanos * freq <= ticks * 1_000_000_000 < (nanos + 1) * freq,
{
    proof {
        lemma_nanoseconds_are_whole(ticks, freq);
    }
    assert(ticks * NANOS_PER_SEC <= u64::MAX * NANOS_PER_SEC) by (nonlinear_arith)
        requires
            ticks <= u64::MAX,
    ;
    ticks as u128 * NANOS_PER_SEC / freq as u128
}

/// Nanoseconds between two ticks, given the frequency.
pub fn monotonic_resolution(freq: u64) -> (nanos: u128)
    requires
        freq > 0,
    ensures
        nanos == NANOS_PER_SEC / freq as u128,
{
    NANOS_PER_SEC / freq as u128
}

/// A delay under way.
#[derive(Clone, Copy, Debug, PartialEq, Eq, Structural)]
pub struct Delay {
    /// The reading of the timer at its start.
    pub start: u64,
    /// Ticks that it takes.
    pub ticks_needed: u64,
}

/// Ticks from one reading of the timer to a later one. The timer starts again from
/// zero behind its last value.
pub open spec fn ticks_between(start: u64, now: u64) -> int {
    if now >= start {
        now - start
    } else {
        now - start + u64::MAX + 1
    }
}

/// Starts a delay, given the frequency of the timer and its reading. The ticks for
/// so many seconds have to fit in a register of the timer.
pub fn delay_microseconds(micros: u64, freq: u64, start: u64) -> (delay: Delay)
    requires
        freq * micros <= u64::MAX,
    ensures
        delay.start == start,
        delay.ticks_needed == freq * micros / MICROS_PER_SEC as int,
        delay.ticks_needed * 1_000_000 <= freq * micros < (delay.ticks_needed + 1) * 1_000_000,
{
    Delay { start, ticks_needed: (freq * micros) / MICROS_PER_SEC }
}

impl Delay {
    /// The delay is over at the given reading of the timer.
    pub fn is_over(&self, now: u64) -> (over: bool)
        ensures
            over == (ticks_between(self.start, now) >= self.ticks_needed),
    {
        now.wrapping_sub(self.start) >= self.ticks_needed
    }
}

/// Time never runs back as long as the timer does not.
pub proof fn lemma_time_is_monotonic(earlier: u64, later: u64, freq: u64)
    requires
        freq > 0,
        earlier <= later,
    ensures
        nanos_of(earlier, freq) <= nanos_of(later, freq),
{
    vstd::arithmetic::mul::lemma_mul_inequality(earlier as int, later as int, NANOS_PER_SEC as int);
    vstd::arithmetic::div_mod::lemma_div_is_ordered(
        earlier * NANOS_PER_SEC,
        later * NANOS_PER_SEC,
        freq as int,
    );
}

/// After as many ticks as the timer makes in a second, a second has passed.
pub proof fn lemma_second(freq: u64)
    requires
        freq > 0,
    ensures
        nanos_of(freq, freq) == NANOS_PER_SEC,
{
    vstd::arithmetic::div_mod::lemma_div_by_multiple(NANOS_PER_SEC as int, freq as int);
    assert(freq * NANOS_PER_SEC == NANOS_PER_SEC * freq) by (nonlinear_arith);
}

/// A delay that is over stays over until the timer comes round to its start:
/// `passed` ticks behind a reading at which it was over, it still is.
pub proof fn lemma_delay_stays_over(delay: Delay, reading: u64, passed: u64, later: u64)
    requires
        ticks_between(delay.start, reading) >= delay.ticks_needed,
        ticks_between(delay.start, reading) + passed <= u64::MAX,
        later == (reading + passed) % (u64::MAX + 1),
    ensures
        ticks_between(delay.start, later) == ticks_between(delay.start, reading) + passed,
        ticks_between(delay.start, later) >= delay.ticks_needed,
{
}

/// The nanoseconds are the whole ones in so many ticks.
pub proof fn lemma_nanoseconds_are_whole(ticks: u64, freq: u64)
    requires
        freq > 0,
    ensures
        nanos_of(ticks, freq) * freq <= ticks * 1_000_000_000 < (nanos_of(ticks, freq) + 1) * freq,
{
    let product = ticks * 1_000_000_000;
    vstd::arithmetic::div_mod::lemma_fundamental_div_mod(product, freq as int);
    let q = product / freq as int;
    assert(q * freq + freq == (q + 1) * freq && freq * q == q * freq) by (nonlinear_arith);
}

/// The ticks between two readings bring the timer from the one to the other, and are
/// fewer than it has values.
pub proof fn lemma_ticks_lead_on(start: u64, now: u64)
    ensures
        (start + ticks_between(start, now)) % 0x1_0000_0000_0000_0000 == now,
        0 <= ticks_between(start, now) < 0x1_0000_0000_0000_0000,
{
}

} // verus!
