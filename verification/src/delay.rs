//! Busy-wait delays over the system timer, modelled as a plain register
//! file.

use vstd::prelude::*;

verus! {

/// The system timer's registers: the programmed reload value, the clock
/// source, and how many countdowns have been run.
#[derive(Clone, Copy, Debug, PartialEq, Eq, Structural)]
pub struct SysTick {
    /// The last programmed reload value.
    pub reload: u32,
    /// Whether the timer counts the processor clock (rather than the
    /// external reference).
    pub core_clock: bool,
    /// Whether the counter is running.
    pub enabled: bool,
    /// How many countdowns have completed.
    pub countdowns: u32,
}

impl SysTick {
    /// The timer as handed over at reset: nothing programmed, counter
    /// stopped.
    pub fn new() -> (r: SysTick)
        ensures
            r.reload == 0,
            !r.core_clock,
            !r.enabled,
            r.countdowns == 0,
    {
        SysTick { reload: 0, core_clock: false, enabled: false, countdowns: 0 }
    }
}

/// The number of ticks of a clock at `sysclk` hertz that spans `ns`
/// nanoseconds, rounded down.
pub open spec fn ticks_for(ns: int, sysclk: int) -> int {
    ns * sysclk / 1_000_000_000
}

/// The system timer as a delay provider.
pub struct Delay {
    /// The system clock frequency, in hertz.
    pub sysclk: u32,
    /// The timer's registers.
    pub syst: SysTick,
}

impl Delay {
    /// Configures the system timer as a delay provider, counting the
    /// processor clock.
    pub fn new(syst: SysTick, sysclk: u32) -> (r: Delay)
        ensures
            r.sysclk == sysclk,
            r.syst.core_clock,
            r.syst.reload == syst.reload,
            r.syst.enabled == syst.enabled,
            r.syst.countdowns == syst.countdowns,
    {
        let mut syst = syst;
        syst.core_clock = true;
        Delay { syst, sysclk }
    }

    /// Releases the system timer.
    pub fn free(self) -> (r: SysTick)
        ensures
            r == self.syst,
    {
        self.syst
    }

    /// Spins for the given number of nanoseconds: programs the reload value
    /// that spans it at the system clock, runs one countdown, and stops the
    /// counter. The reload value must fit the timer's 24-bit register, and
    /// the countdown counter must not saturate.
    pub fn delay_ns(&mut self, ns: u32)
        requires
            ticks_for(ns as int, old(self).sysclk as int) < 0x1000000,
            old(self).syst.countdowns < u32::MAX,
        ensures
            final(self).sysclk == old(self).sysclk,
            final(self).syst.reload as int == ticks_for(ns as int, old(self).sysclk as int),
            final(self).syst.core_clock == old(self).syst.core_clock,
            !final(self).syst.enabled,
            final(self).syst.countdowns == old(self).syst.countdowns + 1,
    {
        let rvr: u32 = (((ns as u64) * (self.sysclk as u64)) / 1_000_000_000) as u32;
        self.syst.reload = rvr;
        self.syst.enabled = true;
        self.syst.countdowns = self.syst.countdowns + 1;
        self.syst.enabled = false;
    }
}

} // verus!
