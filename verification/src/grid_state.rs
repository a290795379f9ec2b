//! The voltage and frequency of the grid, and the split of a power over its
//! phases.

use crate::single::{Single, ZERO};
use vstd::prelude::*;

verus! {

/// Three phase values.
pub type Phases = (Single, Single, Single);

#[derive(Clone, Copy, Debug, PartialEq, Eq)]
pub struct GridState {
    pub voltage_per_phase: Phases,
    pub frequency_hz: Single,
}

/// 50 Hz.
pub const NOMINAL_HZ: u32 = 0x4248_0000;

impl Default for GridState {
    /// 230 V on every phase and 50 Hz.
    fn default() -> (r: Self)
        ensures
            r == GridState::nominal(),
    {
        let v = Single::from_bits(crate::ev_presets::NOMINAL_VOLTAGE_V);
        GridState { voltage_per_phase: (v, v, v), frequency_hz: Single::from_bits(NOMINAL_HZ) }
    }
}

impl GridState {
    pub open spec fn nominal() -> GridState {
        let v = Single::lit(crate::ev_presets::NOMINAL_VOLTAGE_V);
        GridState { voltage_per_phase: (v, v, v), frequency_hz: Single::lit(NOMINAL_HZ) }
    }
}

/// The total in proportion to the voltages; zero where they sum to zero.
pub open spec fn phase_split(total: Single, v: Phases) -> Phases {
    let sum = v.0.fadd(v.1).fadd(v.2);
    if sum.feq(Single::lit(ZERO)) {
        (Single::lit(ZERO), Single::lit(ZERO), Single::lit(ZERO))
    } else {
        (
            total.fmul(v.0).fdiv(sum),
            total.fmul(v.1).fdiv(sum),
            total.fmul(v.2).fdiv(sum),
        )
    }
}

pub fn split_per_phase(total_w: Single, voltage: Phases) -> (r: Phases)
    ensures
        r == phase_split(total_w, voltage),
        forall|k: nat| #[trigger]
            crate::snapshot_laws::is_splittable(total_w, voltage, k)
                ==> crate::snapshot_laws::sums_to(r, total_w, voltage, k),
{
    proof {
        assert forall|k: nat| #[trigger]
            crate::snapshot_laws::is_splittable(
                total_w,
                voltage,
                k,
            ) implies crate::snapshot_laws::sums_to(
            phase_split(total_w, voltage),
            total_w,
            voltage,
            k,
        ) by {
            crate::phase_laws::law_phases_add_up(total_w, voltage, k);
        }
    }
    let sum = voltage.0.plus(voltage.1).plus(voltage.2);
    let zero = Single::from_bits(ZERO);
    if sum.equals(zero) {
        return (zero, zero, zero);
    }
    (
        total_w.times(voltage.0).over(sum),
        total_w.times(voltage.1).over(sum),
        total_w.times(voltage.2).over(sum),
    )
}

/// `sqrt(p^2 + q^2) / v`; zero at zero voltage.
pub open spec fn apparent_current(p: Single, q: Single, v: Single) -> Single {
    if v.feq(Single::lit(ZERO)) {
        Single::lit(ZERO)
    } else {
        p.fmul(p).fadd(q.fmul(q)).fsqrt().fdiv(v)
    }
}

fn current_of(p: Single, q: Single, v: Single) -> (r: Single)
    ensures
        r == apparent_current(p, q, v),
{
    let zero = Single::from_bits(ZERO);
    if v.equals(zero) {
        zero
    } else {
        p.times(p).plus(q.times(q)).sqrt().over(v)
    }
}

/// The apparent current of every phase.
pub open spec fn phase_currents(p: Phases, q: Phases, v: Phases) -> Phases {
    (
        apparent_current(p.0, q.0, v.0),
        apparent_current(p.1, q.1, v.1),
        apparent_current(p.2, q.2, v.2),
    )
}

pub fn per_phase_apparent_current(p: Phases, q: Phases, v: Phases) -> (r: Phases)
    ensures
        r == phase_currents(p, q, v),
{
    (current_of(p.0, q.0, v.0), current_of(p.1, q.1, v.1), current_of(p.2, q.2, v.2))
}

} // verus!
