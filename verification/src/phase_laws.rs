//! The split of a power over the phases, in real numbers.

use crate::accuracy;
use crate::grid_state::Phases;
use crate::reals;
use crate::single::{Single, ZERO};
use vstd::prelude::*;

verus! {

/// The three values are finite.
pub open spec fn finite_phases(v: Phases) -> bool {
    v.0.finite() && v.1.finite() && v.2.finite()
}

/// The sum of the three values.
pub open spec fn exact_sum(v: Phases) -> real {
    v.0.value() + v.1.value() + v.2.value()
}

/// The sum of their distances from zero.
pub open spec fn exact_spread(v: Phases) -> real {
    accuracy::dist(v.0.value()) + accuracy::dist(v.1.value()) + accuracy::dist(v.2.value())
}

/// The computed sum of three values that do not cancel: their distances add up
/// to at most `k` times their sum.
proof fn lemma_phase_sum(v: Phases, k: nat)
    requires
        finite_phases(v),
        1 <= k <= 100,
        exact_spread(v) <= k as real * accuracy::dist(exact_sum(v)),
        exact_spread(v) <= accuracy::ample() / 4real,
    ensures
        v.0.fadd(v.1).fadd(v.2).finite(),
        accuracy::close(
            v.0.fadd(v.1).fadd(v.2).value(),
            exact_sum(v),
            accuracy::steps(2 * k),
            0real,
        ),
{
    let a = v.0.value();
    let b = v.1.value();
    let c = v.2.value();
    let spread = exact_spread(v);
    accuracy::law_sum_is_accurate(v.0, v.1);
    let s1 = v.0.fadd(v.1);
    accuracy::lemma_half_ulp(accuracy::dist(a + b));
    accuracy::law_sum_is_accurate(s1, v.2);
    accuracy::lemma_half_ulp(accuracy::dist(s1.value() + c));
    let s2 = s1.fadd(v.2).value();
    let total = accuracy::dist(exact_sum(v));
    assert(accuracy::dist(s2 - exact_sum(v)) <= 2real * spread / 8388608real);
    accuracy::lemma_steps_of(total, 2 * k, 2real * k as real);
    reals::lemma_associates(2real, k as real, total);
}

/// Each phase carries the total in proportion to its voltage, and the phases
/// add up to the total, to the precision of the numbers. The voltages may be
/// any that do not cancel: whose distances from zero add up to at most `k`
/// times their sum, so once it where none is negative.
pub proof fn law_phases_add_up(total: Single, v: Phases, k: nat)
    requires
        total.finite(),
        finite_phases(v),
        1 <= k <= 100,
        exact_sum(v) != 0real,
        exact_spread(v) <= k as real * accuracy::dist(exact_sum(v)),
        exact_spread(v) <= accuracy::ample() / 4real,
        accuracy::dist(total.value()) * exact_spread(v) <= accuracy::ample() / 1000real,
        accuracy::dist(total.value()) <= accuracy::ample() / 1000real,
    ensures
        ({
            let r = crate::grid_state::phase_split(total, v);
            let x = total.value();
            let sum = exact_sum(v);
            let slack = accuracy::speck() * (1real + 4real / accuracy::dist(sum));
            &&& finite_phases(r)
            &&& accuracy::close(
                r.0.value(),
                x * v.0.value() / sum,
                accuracy::steps(2 * k + 4),
                slack,
            )
            &&& accuracy::close(
                r.1.value(),
                x * v.1.value() / sum,
                accuracy::steps(2 * k + 4),
                slack,
            )
            &&& accuracy::close(
                r.2.value(),
                x * v.2.value() / sum,
                accuracy::steps(2 * k + 4),
                slack,
            )
            &&& accuracy::close(
                exact_sum(r),
                x,
                k as real * accuracy::steps(2 * k + 4),
                3real * slack,
            )
        }),
{
    let x = total.value();
    let sum = exact_sum(v);
    let d = accuracy::dist(sum);
    let spread = exact_spread(v);
    let zero = Single::lit(ZERO);
    let s = v.0.fadd(v.1).fadd(v.2);
    let r = crate::grid_state::phase_split(total, v);
    let t = accuracy::speck();
    let slack = t * (1real + 4real / d);
    let kr = k as real;
    lemma_phase_sum(v, k);
    accuracy::lemma_val_zero();
    accuracy::lemma_ample();
    lemma_phase(total, v.0, v, k);
    lemma_phase(total, v.1, v, k);
    lemma_phase(total, v.2, v, k);
    accuracy::law_values_keep_order(s, zero);
    let y0 = x * v.0.value() / sum;
    let y1 = x * v.1.value() / sum;
    let y2 = x * v.2.value() / sum;
    reals::lemma_sum_over(x * v.0.value(), x * v.1.value(), sum);
    reals::lemma_sum_over(x * v.0.value() + x * v.1.value(), x * v.2.value(), sum);
    reals::lemma_distributes(v.0.value(), v.1.value(), x);
    reals::lemma_distributes(v.0.value() + v.1.value(), v.2.value(), x);
    reals::lemma_quotient(x * sum, sum);
    reals::lemma_cancels_any(x * sum / sum, x, sum);
    assert(y0 + y1 + y2 == x);
    let w0 = accuracy::dist(y0);
    let w1 = accuracy::dist(y1);
    let w2 = accuracy::dist(y2);
    let dx = accuracy::dist(x);
    lemma_share(x, v.0.value(), sum);
    lemma_share(x, v.1.value(), sum);
    lemma_share(x, v.2.value(), sum);
    let all = w0 + w1 + w2;
    let d0 = accuracy::dist(v.0.value());
    let d1 = accuracy::dist(v.1.value());
    let d2 = accuracy::dist(v.2.value());
    reals::lemma_distributes(w0, w1, d);
    reals::lemma_distributes(w0 + w1, w2, d);
    reals::lemma_distributes(d0, d1, dx);
    reals::lemma_distributes(d0 + d1, d2, dx);
    assert(all * d == dx * spread);
    reals::lemma_scales(spread, kr * d, dx);
    reals::lemma_associates(dx, kr, d);
    reals::lemma_cancels(all, dx * kr, d);
    assert(all <= dx * kr);
    let e = accuracy::steps(2 * k + 4);
    reals::lemma_distributes(w0, w1, e);
    reals::lemma_distributes(w0 + w1, w2, e);
    assert(e >= 0real) by {
        let n = (2 * k + 4) as real;
        assert(n / 8388608real >= 0real);
    }
    reals::lemma_scales(all, dx * kr, e);
    reals::lemma_associates(dx, kr, e);
}

proof fn lemma_share(x: real, v: real, sum: real)
    requires
        sum != 0real,
    ensures
        accuracy::dist(x * v / sum) * accuracy::dist(sum) == accuracy::dist(x)
            * accuracy::dist(v),
{
    let y = x * v / sum;
    reals::lemma_quotient(x * v, sum);
    accuracy::lemma_dist_product(y, sum);
    accuracy::lemma_dist_product(x, v);
}

/// One phase.
proof fn lemma_phase(total: Single, one: Single, v: Phases, k: nat)
    requires
        total.finite(),
        one.finite(),
        finite_phases(v),
        one == v.0 || one == v.1 || one == v.2,
        1 <= k <= 100,
        exact_sum(v) != 0real,
        exact_spread(v) <= k as real * accuracy::dist(exact_sum(v)),
        exact_spread(v) <= accuracy::ample() / 4real,
        accuracy::dist(total.value()) * exact_spread(v) <= accuracy::ample() / 1000real,
        accuracy::dist(total.value()) <= accuracy::ample() / 1000real,
    ensures
        ({
            let s = v.0.fadd(v.1).fadd(v.2);
            let r = total.fmul(one).fdiv(s);
            let sum = exact_sum(v);
            &&& s.value() != 0real
            &&& r.finite()
            &&& accuracy::close(
                r.value(),
                total.value() * one.value() / sum,
                accuracy::steps(2 * k + 4),
                accuracy::speck() * (1real + 4real / accuracy::dist(sum)),
            )
        }),
{
    let s = v.0.fadd(v.1).fadd(v.2);
    let x = total.value();
    let w = one.value();
    let sum = exact_sum(v);
    let d = accuracy::dist(sum);
    let spread = exact_spread(v);
    let t = accuracy::speck();
    let kr = k as real;
    let dx = accuracy::dist(x);
    let dw = accuracy::dist(w);
    lemma_phase_sum(v, k);
    accuracy::lemma_ample();
    accuracy::lemma_dist_product(x, w);
    reals::lemma_scales(dw, spread, dx);
    accuracy::law_product_is_accurate(total, one);
    accuracy::lemma_half_ulp(accuracy::dist(x * w));
    accuracy::lemma_steps_of(accuracy::dist(x * w), 1, 1real);
    assert(accuracy::close(total.fmul(one).value(), x * w, accuracy::steps(1), t));
    // the quotient stays within range
    accuracy::lemma_below_a_unit(v.0);
    accuracy::lemma_below_a_unit(v.1);
    accuracy::lemma_below_a_unit(v.2);
    assert(spread >= 2real * t);
    let q = t / d;
    reals::lemma_quotient(t, d);
    reals::lemma_scales(kr, 100real, d);
    reals::lemma_cancels(q, 50real, d);
    assert(q <= 50real);
    lemma_share(x, w, sum);
    let y = accuracy::dist(x * w / sum);
    reals::lemma_scales(dw, 100real * d, dx);
    reals::lemma_associates(dx, 100real, d);
    reals::lemma_cancels(y, dx * 100real, d);
    assert(y <= dx * 100real);
    reals::lemma_quotient(1real, d);
    accuracy::lemma_step_ratio(total.fmul(one), s, x * w, sum, 1, 2 * k, t);
    assert(1 + 2 * k + 3 == 2 * k + 4);
    reals::lemma_factor_out(t, 4real, d);
    reals::lemma_factor_out(4real, t, d);
    reals::lemma_commutes(t, 4real);
    reals::lemma_distributes(1real, 4real / d, t);
}

/// The powers and the voltage of one phase are neither tiny nor huge.
pub open spec fn is_loaded(p: Single, q: Single, v: Single) -> bool {
    let total = p.value() * p.value() + q.value() * q.value();
    &&& p.finite() && q.finite() && v.finite()
    &&& v.value() != 0real
    &&& 1real / 1000real <= total <= accuracy::ample() / 4real
    &&& v.value() * v.value() <= 100000real * total
    &&& accuracy::dist(crate::root_laws::computed_apparent(p, q).value() / v.value())
        <= accuracy::ample()
}

/// Current times voltage squares to the squares of the phase's own powers.
pub open spec fn carries(i: Single, p: Single, q: Single, v: Single) -> bool {
    let w = i.value() * v.value();
    i.finite() && accuracy::close(
        w * w,
        p.value() * p.value() + q.value() * q.value(),
        accuracy::steps(13),
        0real,
    )
}

/// Each phase's current carries that phase's powers at that phase's voltage.
pub proof fn law_phases_keep_their_own_currents(p: Phases, q: Phases, v: Phases)
    ensures
        ({
            let i = crate::grid_state::phase_currents(p, q, v);
            &&& is_loaded(p.0, q.0, v.0) ==> carries(i.0, p.0, q.0, v.0)
            &&& is_loaded(p.1, q.1, v.1) ==> carries(i.1, p.1, q.1, v.1)
            &&& is_loaded(p.2, q.2, v.2) ==> carries(i.2, p.2, q.2, v.2)
        }),
{
    if is_loaded(p.0, q.0, v.0) {
        crate::root_laws::law_current_carries_the_apparent_power(p.0, q.0, v.0);
    }
    if is_loaded(p.1, q.1, v.1) {
        crate::root_laws::law_current_carries_the_apparent_power(p.1, q.1, v.1);
    }
    if is_loaded(p.2, q.2, v.2) {
        crate::root_laws::law_current_carries_the_apparent_power(p.2, q.2, v.2);
    }
}

} // verus!
