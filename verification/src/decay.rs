//! The state of charge of a pack: how power moves it, and how the rated power
//! tapers off near its limits.

use crate::single::{Single, HUNDRED, ONE, ZERO};
use crate::time::Span;
use vstd::prelude::*;

verus! {

/// Seconds in an hour.
pub const SECS_PER_HOUR: u32 = 0x4561_0000;

/// The limits of a pack's state of charge and the width of the taper before
/// them, in percent.
#[derive(Clone, Copy, Debug, PartialEq, Eq)]
pub struct SocProtect {
    pub lower_pct: Single,
    pub upper_pct: Single,
    pub margin_pct: Single,
}

/// `x` limited to the range from zero to one; a value that is not a number
/// stays one.
pub open spec fn unit_range(x: Single) -> Single {
    x.fclamp(Single::lit(ZERO), Single::lit(ONE))
}

impl SocProtect {
    /// The fraction of the charging power allowed: one up to a margin below
    /// the upper limit, then a straight line to zero at the limit. A margin of
    /// zero disables the taper.
    pub open spec fn charge_factor(self, soc: Single) -> Single {
        if Single::lit(ZERO).flt(self.margin_pct) {
            unit_range(self.upper_pct.fsub(soc).fdiv(self.margin_pct))
        } else {
            Single::lit(ONE)
        }
    }

    /// The fraction of the discharging power allowed.
    pub open spec fn discharge_factor(self, soc: Single) -> Single {
        if Single::lit(ZERO).flt(self.margin_pct) {
            unit_range(soc.fsub(self.lower_pct).fdiv(self.margin_pct))
        } else {
            Single::lit(ONE)
        }
    }
}

fn to_unit_range(x: Single) -> (r: Single)
    ensures
        r == unit_range(x),
{
    x.clamp(Single::from_bits(ZERO), Single::from_bits(ONE))
}

/// The bounds of the power at a state of charge.
pub open spec fn protected_bounds(
    rated_lower: Single,
    rated_upper: Single,
    soc: Single,
    p: SocProtect,
) -> (Single, Single) {
    (rated_lower.fmul(p.discharge_factor(soc)), rated_upper.fmul(p.charge_factor(soc)))
}

pub fn soc_protected_bounds(
    rated_lower: Single,
    rated_upper: Single,
    soc: Single,
    p: SocProtect,
) -> (r: (Single, Single))
    ensures
        r == protected_bounds(rated_lower, rated_upper, soc, p),
{
    let one = Single::from_bits(ONE);
    let (down, up) = if Single::from_bits(ZERO).lt(p.margin_pct) {
        (
            to_unit_range(soc.minus(p.lower_pct).over(p.margin_pct)),
            to_unit_range(p.upper_pct.minus(soc).over(p.margin_pct)),
        )
    } else {
        (one, one)
    };
    (rated_lower.times(down), rated_upper.times(up))
}

/// The state of charge after `power_w` for `dt`: one rectangular step, kept
/// between 0 and 100 percent. A pack without capacity keeps its state.
pub open spec fn soc_after(
    soc: Single,
    power_w: Single,
    dt: Span,
    capacity_wh: Single,
) -> Single {
    if Single::lit(ZERO).flt(capacity_wh) {
        let wh = power_w.fmul(dt.spec_seconds()).fdiv(Single::lit(SECS_PER_HOUR));
        let moved = soc.fadd(wh.fdiv(capacity_wh).fmul(Single::lit(HUNDRED)));
        moved.fclamp(Single::lit(ZERO), Single::lit(HUNDRED))
    } else {
        soc
    }
}

pub fn integrate_soc_pct(soc: Single, power_w: Single, dt: Span, capacity_wh: Single) -> (r: Single)
    ensures
        r == soc_after(soc, power_w, dt, capacity_wh),
{
    if Single::from_bits(ZERO).lt(capacity_wh) {
        let wh = power_w.times(dt.seconds()).over(Single::from_bits(SECS_PER_HOUR));
        let moved = soc.plus(wh.over(capacity_wh).times(Single::from_bits(HUNDRED)));
        moved.clamp(Single::from_bits(ZERO), Single::from_bits(HUNDRED))
    } else {
        soc
    }
}

/// A state of charge as it is set by hand: kept between 0 and 100 percent;
/// nothing where it is not finite.
pub open spec fn sane_soc(pct: Single) -> Option<Single> {
    if pct.finite() {
        Some(pct.fclamp(Single::lit(ZERO), Single::lit(HUNDRED)))
    } else {
        None
    }
}

pub fn sanitize_soc_pct(pct: Single) -> (r: Option<Single>)
    ensures
        r == sane_soc(pct),
{
    if pct.is_finite() {
        Some(pct.clamp(Single::from_bits(ZERO), Single::from_bits(HUNDRED)))
    } else {
        None
    }
}

/// A state of charge between 0 and 100 percent stays there.
pub proof fn law_soc_stays_in_range(soc: Single, power_w: Single, dt: Span, capacity_wh: Single)
    requires
        Single::lit(ZERO).fle(soc),
        soc.fle(Single::lit(HUNDRED)),
        !soc_after(soc, power_w, dt, capacity_wh).nan(),
    ensures
        Single::lit(ZERO).fle(soc_after(soc, power_w, dt, capacity_wh)),
        soc_after(soc, power_w, dt, capacity_wh).fle(Single::lit(HUNDRED)),
{
}

} // verus!
