//! The reactive-power capability of an inverter.
//!
//! Two limits, each optional: a power-factor limit `|Q| <= k * |P|`, and an
//! apparent-power limit `P^2 + Q^2 <= S^2`. The bound on Q at a given P is
//! their intersection.

use crate::single::{Single, INFINITY, NEG_INFINITY, ONE, ZERO};
use vstd::prelude::*;

verus! {

/// The power-factor limit of [`ReactiveCapability::microsim_default`], 0.35.
pub const DEFAULT_PF_LIMIT: u32 = 0x3eb3_3333;

#[derive(Clone, Copy, Debug, PartialEq, Eq)]
pub struct ReactiveCapability {
    /// `|Q| <= pf_limit * |P|`; `None` for no such limit.
    pub pf_limit: Option<Single>,
    /// `sqrt(P^2 + Q^2) <= apparent_va`; `None` for no such limit.
    pub apparent_va: Option<Single>,
}

impl Default for ReactiveCapability {
    /// Neither limit.
    fn default() -> (r: Self)
        ensures
            r == (ReactiveCapability { pf_limit: None, apparent_va: None }),
    {
        ReactiveCapability { pf_limit: None, apparent_va: None }
    }
}

/// `sqrt(max(s^2 - p^2, 0))`: the reactive power left on the circle of radius
/// `s` at active power `p`.
pub open spec fn circle_q(s: Single, p: Single) -> Single {
    s.fmul(s).fsub(p.fmul(p)).fmax(Single::lit(ZERO)).fsqrt()
}

fn on_circle(s: Single, p: Single) -> (r: Single)
    ensures
        r == circle_q(s, p),
{
    s.times(s).minus(p.times(p)).max(Single::from_bits(ZERO)).sqrt()
}

impl ReactiveCapability {
    /// The bounds the limits leave before the fallback, `None` where `p` is
    /// on or past the circle.
    pub open spec fn limits_at(self, p: Single) -> Option<(Single, Single)> {
        let (lo, hi) = match self.pf_limit {
            Some(k) => {
                let q = k.fmul(p.fabs());
                (Single::lit(NEG_INFINITY).fmax(q.fneg()), Single::lit(INFINITY).fmin(q))
            },
            None => (Single::lit(NEG_INFINITY), Single::lit(INFINITY)),
        };
        match self.apparent_va {
            Some(s) => if s.fle(p.fabs()) {
                None
            } else {
                let q = circle_q(s, p);
                Some((lo.fmax(q.fneg()), hi.fmin(q)))
            },
            None => Some((lo, hi)),
        }
    }

    /// The bounds on Q at active power `p`: zero on or past the circle, and
    /// `|Q| <= |P|` where the limits leave an infinite side.
    pub open spec fn q_bounds(self, p: Single) -> (Single, Single) {
        match self.limits_at(p) {
            None => (Single::lit(ZERO), Single::lit(ZERO)),
            Some((lo0, hi0)) => {
                let open_side = !lo0.finite() || !hi0.finite();
                let lo = if open_side {
                    p.fabs().fneg()
                } else {
                    lo0
                };
                let hi = if open_side {
                    p.fabs()
                } else {
                    hi0
                };
                if hi.flt(lo) {
                    (Single::lit(ZERO), Single::lit(ZERO))
                } else {
                    (lo, hi)
                }
            },
        }
    }

    /// The widest |Q| at any P up to `p_rated_abs`.
    pub open spec fn widest_q(self, p_rated_abs: Single) -> Single {
        match (self.pf_limit, self.apparent_va) {
            (None, None) => p_rated_abs,
            (Some(k), None) => k.fmul(p_rated_abs),
            (None, Some(s)) => s,
            (Some(k), Some(s)) => {
                let norm = Single::lit(ONE).fadd(k.fmul(k)).fsqrt();
                if s.fdiv(norm).fle(p_rated_abs) {
                    k.fmul(s).fdiv(norm)
                } else {
                    k.fmul(p_rated_abs).fmin(circle_q(s, p_rated_abs))
                }
            },
        }
    }

    /// A power-factor limit of 0.35 and no apparent-power limit.
    pub fn microsim_default() -> (r: Self)
        ensures
            r == (ReactiveCapability {
                pf_limit: Some(Single::lit(DEFAULT_PF_LIMIT)),
                apparent_va: None,
            }),
    {
        ReactiveCapability {
            pf_limit: Some(Single::from_bits(DEFAULT_PF_LIMIT)),
            apparent_va: None,
        }
    }

    /// The lower and the upper bound on Q at active power `p`.
    pub fn q_bounds_at(&self, p: Single) -> (r: (Single, Single))
        ensures
            r == self.q_bounds(p),
            !p.nan() ==> r.0.fle(r.1),
    {
        let zero = Single::from_bits(ZERO);
        let mut lo = Single::from_bits(NEG_INFINITY);
        let mut hi = Single::from_bits(INFINITY);
        if let Some(k) = self.pf_limit {
            let q_max = k.times(p.abs());
            lo = lo.max(q_max.negated());
            hi = hi.min(q_max);
        }
        if let Some(s) = self.apparent_va {
            if s.le(p.abs()) {
                return (zero, zero);
            }
            let q_max = on_circle(s, p);
            lo = lo.max(q_max.negated());
            hi = hi.min(q_max);
        }
        if !lo.is_finite() || !hi.is_finite() {
            lo = p.abs().negated();
            hi = p.abs();
        }
        if hi.lt(lo) {
            (zero, zero)
        } else {
            (lo, hi)
        }
    }

    pub fn contains(&self, p: Single, q: Single) -> (r: bool)
        ensures
            r == (self.q_bounds(p).0.fle(q) && q.fle(self.q_bounds(p).1)),
    {
        let (lo, hi) = self.q_bounds_at(p);
        lo.le(q) && q.le(hi)
    }

    /// The widest bounds on Q at any P up to `p_rated_abs`.
    ///
    /// The power-factor line grows with P and the circle shrinks; where both
    /// limits are set they cross at `s / sqrt(1 + k^2)`, and Q is widest there
    /// or, if the rating ends before, at the rating.
    pub fn hull(&self, p_rated_abs: Single) -> (r: (Single, Single))
        ensures
            r.1 == self.widest_q(p_rated_abs),
            r.0 == r.1.fneg(),
    {
        let q = match (self.pf_limit, self.apparent_va) {
            (None, None) => p_rated_abs,
            (Some(k), None) => k.times(p_rated_abs),
            (None, Some(s)) => s,
            (Some(k), Some(s)) => {
                let norm = Single::from_bits(ONE).plus(k.times(k)).sqrt();
                if s.over(norm).le(p_rated_abs) {
                    k.times(s).over(norm)
                } else {
                    k.times(p_rated_abs).min(on_circle(s, p_rated_abs))
                }
            },
        };
        (q.negated(), q)
    }
}

/// At every active power that is a number the bounds on Q are a band: the
/// lower one does not exceed the upper one.
pub proof fn law_q_bounds_form_a_band(c: ReactiveCapability, p: Single)
    requires
        !p.nan(),
    ensures
        c.q_bounds(p).0.fle(c.q_bounds(p).1),
{
}

/// On or past the apparent-power circle no reactive power is left.
pub proof fn law_no_headroom_past_the_circle(c: ReactiveCapability, s: Single, p: Single)
    requires
        c.apparent_va == Some(s),
        s.fle(p.fabs()),
    ensures
        c.q_bounds(p) == (Single::lit(ZERO), Single::lit(ZERO)),
{
}

} // verus!
