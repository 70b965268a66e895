//! Wall-clock time from the CPU's timestamp counter, calibrated against the PIT.
use vstd::prelude::*;

verus! {

/// Input clock of the PIT, in Hz.
pub const PIT_FREQ_HZ: u64 = 1_193_182;

/// TSC frequency assumed when calibration fails.
pub const FALLBACK_HZ: u64 = 1_000_000_000;

/// Reloads of the PIT counter to watch while calibrating.
pub const RELOADS_TO_WAIT: u32 = 3;

/// Counter reads allowed before calibration gives up.
pub const POLL_BUDGET: u32 = 20_000_000;

/// PIT counts per reload at the 100 Hz rate the interrupt setup programs.
pub open spec fn divider() -> int {
    (PIT_FREQ_HZ / 100) as int
}

/// The PIT counts per reload.
pub fn divider_estimate() -> (d: u64)
    ensures
        d == divider(),
{
    PIT_FREQ_HZ / 100
}

/// `a * b`, saturating at `u64::MAX`.
pub open spec fn sat_mul(a: int, b: int) -> int {
    if a * b > u64::MAX {
        u64::MAX as int
    } else {
        a * b
    }
}

fn saturating_mul(a: u64, b: u64) -> (r: u64)
    ensures
        r == sat_mul(a as int, b as int),
{
    match a.checked_mul(b) {
        Some(v) => v,
        None => u64::MAX,
    }
}

/// Progress of a calibration: the counter value it started from and last saw, the reloads
/// seen (a reload shows as the counter jumping up), and the reads left.
pub struct Calibration {
    pub start_count: u16,
    pub last_count: u16,
    pub reloads: u32,
    pub safety: u32,
}

/// The calibrated frequency: TSC cycles per PIT count times the PIT's frequency, at least 1;
/// the fallback when the poll budget ran out or no PIT counts passed.
pub open spec fn calibrated_hz_spec(c: Calibration, elapsed_tsc: int) -> int {
    let counts = c.start_count + (c.reloads - 1) * divider() + (divider() - c.last_count);
    if c.safety == 0 {
        FALLBACK_HZ as int
    } else if counts > 0 {
        let hz = sat_mul(elapsed_tsc, PIT_FREQ_HZ as int) / counts;
        if hz > 1 {
            hz
        } else {
            1
        }
    } else {
        FALLBACK_HZ as int
    }
}

impl Calibration {
    /// A calibration starting from counter value `start_count`.
    pub fn new(start_count: u16) -> (c: Self)
        ensures
            c == (Calibration { start_count, last_count: start_count, reloads: 0, safety: POLL_BUDGET }),
    {
        Calibration { start_count, last_count: start_count, reloads: 0, safety: POLL_BUDGET }
    }

    /// Whether more counter reads are wanted.
    pub fn running(&self) -> (r: bool)
        ensures
            r == (self.reloads < RELOADS_TO_WAIT && self.safety > 0),
    {
        self.reloads < RELOADS_TO_WAIT && self.safety > 0
    }

    /// Takes one counter read.
    pub fn observe(&mut self, count: u16)
        requires
            old(self).reloads < RELOADS_TO_WAIT && old(self).safety > 0,
        ensures
            final(self).reloads == old(self).reloads + (if count > old(self).last_count {
                1int
            } else {
                0
            }),
            final(self).last_count == count,
            final(self).safety == old(self).safety - 1,
            final(self).start_count == old(self).start_count,
    {
        if count > self.last_count {
            self.reloads += 1;
        }
        self.last_count = count;
        self.safety -= 1;
    }

    /// The TSC frequency from the cycles that passed during the calibration.
    pub fn calibrated_hz(&self, elapsed_tsc: u64) -> (hz: u64)
        requires
            self.safety > 0 ==> self.reloads >= 1 && self.last_count <= divider(),
        ensures
            hz == calibrated_hz_spec(*self, elapsed_tsc as int),
    {
        if self.safety == 0 {
            return FALLBACK_HZ;
        }
        let div = divider_estimate();
        let counts = (self.start_count as u64) + (self.reloads as u64 - 1) * div + (div - self.last_count as u64);
        if counts > 0 {
            let hz = saturating_mul(elapsed_tsc, PIT_FREQ_HZ) / counts;
            if hz > 1 {
                hz
            } else {
                1
            }
        } else {
            FALLBACK_HZ
        }
    }
}

/// The calibrated TSC frequency in hertz: the stored one, taken as at least 1.
pub fn get_tsc_hz(stored_hz: u64) -> (hz: u64)
    ensures
        hz == (if stored_hz > 1 {
            stored_hz
        } else {
            1
        }),
{
    if stored_hz > 1 {
        stored_hz
    } else {
        1
    }
}

/// Milliseconds from `boot_tsc` to `tsc` at `stored_hz` (taken as at least 1), truncated to
/// 32 bits.
pub fn now_ms(stored_hz: u64, boot_tsc: u64, tsc: u64) -> (ms: u32)
    ensures
        ms == (sat_mul((if tsc > boot_tsc {
            tsc - boot_tsc
        } else {
            0
        }), 1000) / (if stored_hz > 1 {
            stored_hz as int
        } else {
            1
        })) as u32,
{
    let hz = if stored_hz > 1 {
        stored_hz
    } else {
        1
    };
    let delta = tsc.saturating_sub(boot_tsc);
    (saturating_mul(delta, 1000) / hz) as u32
}

/// The TSC cycles that make up `ms` milliseconds at `stored_hz` (taken as at least 1).
pub fn delay_cycles(stored_hz: u64, ms: u32) -> (cycles: u64)
    ensures
        cycles == sat_mul(if stored_hz > 1 {
            stored_hz as int
        } else {
            1
        }, ms as int) / 1000,
{
    let hz = if stored_hz > 1 {
        stored_hz
    } else {
        1
    };
    saturating_mul(hz, ms as u64) / 1000
}

/// Whether a busy-wait that started at `start` has lasted `target` cycles by `now`.
pub fn delay_elapsed(start: u64, now: u64, target: u64) -> (r: bool)
    ensures
        r == ((if now > start {
            now - start
        } else {
            0
        }) >= target),
{
    now.saturating_sub(start) >= target
}

} // verus!
