//! The trapezoidal integral of a power stream into energy.

use crate::double::{Double, DTWO};
use crate::single::Single;
use vstd::prelude::*;

verus! {

/// Milliseconds in an hour, 3 600 000, in double precision.
pub const MS_PER_HOUR: u64 = 0x414b_7740_0000_0000;

/// Net energy in Wh: the sign of the power travels through. The first sample
/// only sets the cursor.
#[derive(Clone, Copy, Debug)]
pub struct EnergyAccum {
    /// The net energy so far, in Wh.
    pub total_wh: Double,
    /// The last power sample in W, if there is one to integrate from.
    pub last_w: Option<Single>,
    /// The time of `last_w` in ms since the epoch.
    pub last_ts_ms: i64,
}

/// The energy in Wh under the line from power `a` to power `b` over `dt_ms`.
pub open spec fn trapezoid(a: Single, b: Single, dt_ms: nat) -> Double {
    let hours = Double::dint(dt_ms).ddiv(Double::lit(MS_PER_HOUR));
    a.widened().dadd(b.widened()).ddiv(Double::lit(DTWO)).dmul(hours)
}

impl EnergyAccum {
    /// The accumulator after a sample. One that is not later than the last is
    /// ignored: it would count time twice.
    pub open spec fn advanced(self, power_w: Single, ts_ms: i64) -> EnergyAccum {
        match self.last_w {
            Some(last) => if ts_ms <= self.last_ts_ms {
                self
            } else {
                EnergyAccum {
                    total_wh: self.total_wh.dadd(
                        trapezoid(last, power_w, (ts_ms - self.last_ts_ms) as nat),
                    ),
                    last_w: Some(power_w),
                    last_ts_ms: ts_ms,
                }
            },
            None => EnergyAccum { last_w: Some(power_w), last_ts_ms: ts_ms, ..self },
        }
    }

    pub fn advance(&mut self, power_w: Single, ts_ms: i64)
        ensures
            *final(self) == old(self).advanced(power_w, ts_ms),
            crate::wide_laws::is_countable(*old(self), power_w, ts_ms)
                ==> crate::wide_laws::has_counted(*old(self), power_w, ts_ms, *final(self)),
    {
        proof {
            if crate::wide_laws::is_countable(*self, power_w, ts_ms) {
                crate::wide_laws::law_energy_adds_up(*self, power_w, ts_ms);
            }
        }
        if let Some(last) = self.last_w {
            if ts_ms <= self.last_ts_ms {
                return;
            }
            let dt_ms: u64 = (ts_ms as i128 - self.last_ts_ms as i128) as u64;
            let hours = Double::of_integer(dt_ms).over(Double::from_bits(MS_PER_HOUR));
            let mean = last.widen().plus(power_w.widen()).over(Double::from_bits(DTWO));
            self.total_wh = self.total_wh.plus(mean.times(hours));
        }
        self.last_w = Some(power_w);
        self.last_ts_ms = ts_ms;
    }

    /// Forgets the last sample and keeps the total, so that the next sample
    /// bridges no gap.
    pub fn reset_cursor(&mut self)
        ensures
            *final(self) == (EnergyAccum { last_w: None, ..*old(self) }),
    {
        self.last_w = None;
    }
}

impl Default for EnergyAccum {
    fn default() -> (r: Self)
        ensures
            r == (EnergyAccum { total_wh: Double::lit(0), last_w: None, last_ts_ms: 0 }),
    {
        EnergyAccum { total_wh: Double::from_bits(0), last_w: None, last_ts_ms: 0 }
    }
}

/// A sample that is not later than the last one changes nothing.
pub proof fn law_stale_sample_is_ignored(e: EnergyAccum, power_w: Single, ts_ms: i64)
    requires
        e.last_w is Some,
        ts_ms <= e.last_ts_ms,
    ensures
        e.advanced(power_w, ts_ms) == e,
{
}

/// The sample after a cursor reset counts no energy.
pub proof fn law_reset_bridges_no_gap(e: EnergyAccum, power_w: Single, ts_ms: i64)
    ensures
        (EnergyAccum { last_w: None, ..e }).advanced(power_w, ts_ms).total_wh == e.total_wh,
{
}

/// Only the time between two samples counts: the first sample, one after a
/// gap and one that is not later than the last add no energy.
pub proof fn law_gaps_count_nothing(e: EnergyAccum, power_w: Single, ts_ms: i64)
    ensures
        e.last_w is None ==> e.advanced(power_w, ts_ms).total_wh == e.total_wh
            && e.advanced(power_w, ts_ms).last_w == Some(power_w) && e.advanced(
            power_w,
            ts_ms,
        ).last_ts_ms == ts_ms,
        e.last_w is Some && ts_ms <= e.last_ts_ms ==> e.advanced(power_w, ts_ms) == e,
{
}

} // verus!
