//! The timer: a monotonic clock in nanoseconds over a 64-bit counter that
//! counts up at a fixed period.

use vstd::prelude::*;

verus! {

/// Femtoseconds in a nanosecond.
pub const FEMTOS_PER_NANO: u64 = 1_000_000;

/// The clock: the period of the counter in femtoseconds, and the counter's value when the kernel booted.
#[derive(Debug, Clone, Copy, PartialEq, Eq, Structural)]
pub struct Hpet {
    pub period_fs: u32,
    pub counter_at_boot: u64,
}

/// The ticks from the boot to a counter value; none for a value before the boot.
pub open spec fn ticks_since(counter_at_boot: u64, counter: u64) -> nat {
    if counter >= counter_at_boot {
        (counter - counter_at_boot) as nat
    } else {
        0
    }
}

/// The nanoseconds that `ticks` ticks of `period_fs` femtoseconds take, at most `u64::MAX`.
pub open spec fn nanos_of(ticks: nat, period_fs: u32) -> u64 {
    if ticks * period_fs / 1_000_000 <= u64::MAX {
        (ticks * period_fs / 1_000_000) as u64
    } else {
        u64::MAX
    }
}

/// The sum of two times, at most `u64::MAX`.
pub open spec fn saturating_sum(a: u64, b: u64) -> u64 {
    if a + b <= u64::MAX {
        (a + b) as u64
    } else {
        u64::MAX
    }
}

impl Hpet {
    /// A clock that starts now: at the counter value `counter`.
    pub fn new(period_fs: u32, counter: u64) -> (clock: Hpet)
        ensures
            clock == (Hpet { period_fs, counter_at_boot: counter }),
    {
        Hpet { period_fs, counter_at_boot: counter }
    }

    /// The time since the boot at a counter value.
    pub open spec fn spec_now_ns(self, counter: u64) -> u64 {
        nanos_of(ticks_since(self.counter_at_boot, counter), self.period_fs)
    }

    /// The nanoseconds since the boot, given the value that the counter has now:
    /// the ticks since the boot times the period, in whole nanoseconds, and at
    /// most `u64::MAX`.
    pub fn now_ns(&self, counter: u64) -> (ns: u64)
        ensures
            ns == self.spec_now_ns(counter),
    {
        let ticks: u64 = if counter >= self.counter_at_boot {
            counter - self.counter_at_boot
        } else {
            0
        };
        assert(ticks * self.period_fs <= 0xFFFF_FFFF_FFFF_FFFF * 0xFFFF_FFFF) by (nonlinear_arith)
            requires
                ticks <= 0xFFFF_FFFF_FFFF_FFFF,
                self.period_fs <= 0xFFFF_FFFF,
        ;
        let femtos: u128 = ticks as u128 * self.period_fs as u128;
        let nanos: u128 = femtos / (FEMTOS_PER_NANO as u128);
        if nanos <= u64::MAX as u128 {
            nanos as u64
        } else {
            u64::MAX
        }
    }

    /// The clock never runs backwards: a later counter value gives a time that is not earlier.
    pub proof fn lemma_monotonic(self, earlier: u64, later: u64)
        requires
            earlier <= later,
        ensures
            self.spec_now_ns(earlier) <= self.spec_now_ns(later),
    {
        let t1 = ticks_since(self.counter_at_boot, earlier);
        let t2 = ticks_since(self.counter_at_boot, later);
        let p = self.period_fs as int;
        assert(t1 * p <= t2 * p) by (nonlinear_arith)
            requires
                t1 <= t2,
                p >= 0,
        ;
        vstd::arithmetic::div_mod::lemma_div_is_ordered(t1 * p, t2 * p, 1_000_000);
    }

    /// The clock starts at zero.
    pub proof fn lemma_starts_at_zero(self)
        ensures
            self.spec_now_ns(self.counter_at_boot) == 0,
    {
        assert(0 * self.period_fs == 0) by (nonlinear_arith);
    }
}

/// The time `duration` nanoseconds after `now`, at most `u64::MAX`.
pub fn deadline_after(now: u64, duration: u64) -> (deadline: u64)
    ensures
        deadline == saturating_sum(now, duration),
{
    now.saturating_add(duration)
}

/// Whether a wait of `duration` nanoseconds that began at `start` is over at `now`.
pub fn busy_sleep_done(start: u64, duration: u64, now: u64) -> (done: bool)
    ensures
        done == (now >= saturating_sum(start, duration)),
{
    now >= deadline_after(start, duration)
}

} // verus!
