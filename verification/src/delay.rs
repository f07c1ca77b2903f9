//! Busy-wait delays derived from the RISC-V machine-mode cycle counter.

use vstd::prelude::*;

verus! {

/// Cycles the counter reports as elapsed between reading `start` and reading
/// `now`: modular subtraction, so a counter rollover between the two reads
/// does not produce a spurious large or negative result.
pub open spec fn elapsed_cycles(now: u64, start: u64) -> u64 {
    vstd::wrapping::u64_specs::wrapping_sub(now, start)
}

/// A counter that advanced by `d` from `start` — wrapping past `u64::MAX` if
/// need be — reports exactly `d` elapsed cycles.
pub proof fn lemma_elapsed_recovers_advance(start: u64, d: u64)
    ensures
        elapsed_cycles(vstd::wrapping::u64_specs::wrapping_add(start, d), start) == d,
{
}

/// Requested duration converted to a cycle count: `duration` in some unit,
/// `freq` in cycles per second, `units_per_second` of that unit. Rounds down;
/// a duration shorter than one cycle converts to zero cycles.
pub open spec fn duration_cycles(duration: u32, freq: u32, units_per_second: u64) -> int {
    (duration as int * freq as int) / units_per_second as int
}

/// Use the RISC-V machine-mode cycle counter (`mcycle`) as a delay provider.
///
/// This can be used for high resolution delays for device initialization,
/// bit-banging protocols, etc.
#[derive(Copy, Clone)]
pub struct McycleDelay {
    core_frequency: u32,
}

impl McycleDelay {
    /// System clock frequency, in Hz, used to convert clock cycles into
    /// real-world time values.
    pub closed spec fn freq(&self) -> u32 {
        self.core_frequency
    }

    /// Constructs the delay provider based on core clock frequency `freq`.
    pub fn new(freq: u32) -> (r: Self)
        ensures
            r.freq() == freq,
    {
        Self { core_frequency: freq }
    }

    /// Retrieves the cycle count for the current HART.
    ///
    /// Relies on riscv's `register::mcycle::read64`: one read of the
    /// free-running 64-bit machine cycle counter. The value depends on the
    /// machine's state at the moment of the call, so nothing is promised
    /// of it.
    #[verifier::external_body]
    pub fn get_cycle_count() -> u64 {
        riscv::register::mcycle::read64()
    }

    /// Returns the number of elapsed cycles since `previous_cycle_count`,
    /// correct across a counter rollover in between.
    pub fn cycles_since(previous_cycle_count: u64) -> (r: u64) {
        elapsed_since(McycleDelay::get_cycle_count(), previous_cycle_count)
    }

    /// Performs a busy-wait loop until the number of cycles `cycle_count`
    /// has elapsed.
    ///
    /// Relies on riscv's `register::mcycle::read64`, polled in an unbounded
    /// spin — by design there is no timeout, so the call returns only once
    /// the counter has moved more than `cycle_count` past its value at
    /// entry. Nothing can be promised of when that happens, and a
    /// full-range wait can never be satisfied at all, so it is excluded.
    #[verifier::external_body]
    pub fn delay_cycles(cycle_count: u64)
        requires
            cycle_count < u64::MAX,
    {
        let start = riscv::register::mcycle::read64();
        while riscv::register::mcycle::read64().wrapping_sub(start) <= cycle_count {}
    }

    /// Cycle count equivalent to `ns` nanoseconds at this core frequency.
    pub fn cycles_for_ns(&self, ns: u32) -> (r: u64)
        ensures
            r == duration_cycles(ns, self.freq(), 1_000_000_000u64),
            r < u64::MAX,
    {
        cycles_for(ns, self.core_frequency, 1_000_000_000u64)
    }

    /// Cycle count equivalent to `us` microseconds at this core frequency.
    pub fn cycles_for_us(&self, us: u32) -> (r: u64)
        ensures
            r == duration_cycles(us, self.freq(), 1_000_000u64),
            r < u64::MAX,
    {
        cycles_for(us, self.core_frequency, 1_000_000u64)
    }

    /// Cycle count equivalent to `ms` milliseconds at this core frequency.
    pub fn cycles_for_ms(&self, ms: u32) -> (r: u64)
        ensures
            r == duration_cycles(ms, self.freq(), 1000u64),
            r < u64::MAX,
    {
        cycles_for(ms, self.core_frequency, 1000u64)
    }

    /// Busy-waits for at least `ns` nanoseconds of core clock cycles.
    pub fn delay_ns(&mut self, ns: u32)
        ensures
            *final(self) == *old(self),
    {
        let c = self.cycles_for_ns(ns);
        McycleDelay::delay_cycles(c);
    }

    /// Busy-waits for at least `us` microseconds of core clock cycles.
    pub fn delay_us(&mut self, us: u32)
        ensures
            *final(self) == *old(self),
    {
        let c = self.cycles_for_us(us);
        McycleDelay::delay_cycles(c);
    }

    /// Busy-waits for at least `ms` milliseconds of core clock cycles.
    pub fn delay_ms(&mut self, ms: u32)
        ensures
            *final(self) == *old(self),
    {
        let c = self.cycles_for_ms(ms);
        McycleDelay::delay_cycles(c);
    }
}

/// Wraparound-safe elapsed-cycle computation from two counter reads.
pub fn elapsed_since(now: u64, start: u64) -> (r: u64)
    ensures
        r == elapsed_cycles(now, start),
{
    now.wrapping_sub(start)
}

/// `duration * freq / units_per_second` in 64-bit arithmetic, which cannot
/// overflow for 32-bit durations and frequencies.
fn cycles_for(duration: u32, freq: u32, units_per_second: u64) -> (r: u64)
    requires
        units_per_second >= 2,
    ensures
        r == duration_cycles(duration, freq, units_per_second),
        r < u64::MAX,
{
    proof {
        assert(duration as int * freq as int <= 0xffff_ffff * 0xffff_ffff) by (nonlinear_arith)
            requires
                0 <= duration as int <= 0xffff_ffff,
                0 <= freq as int <= 0xffff_ffff,
        ;
    }
    let product: u64 = (duration as u64) * (freq as u64);
    proof {
        assert(product as int / units_per_second as int <= product as int) by (nonlinear_arith)
            requires
                0 <= product as int,
                units_per_second as int >= 1,
        ;
    }
    product / units_per_second
}

} // verus!
