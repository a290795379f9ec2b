//! How fast a ramp moves, in real numbers.

use crate::accuracy;
use crate::ramp::Ramp;
use crate::reals;
use crate::single::{Single, ZERO};
use crate::time::Span;
use vstd::prelude::*;

verus! {

/// A ramp has a rate, and its numbers are finite and far from overflow.
pub open spec fn is_movable(r: Ramp, dt: Span) -> bool {
    &&& dt.wf()
    &&& r.actual.finite() && r.target.finite() && r.rate_w_per_s.finite()
    &&& r.rate_w_per_s.value() >= 0real
    &&& accuracy::dist(r.actual.value()) + accuracy::dist(r.target.value()) <= accuracy::ample()
        / 16real
    &&& r.rate_w_per_s.value() * dt.exact_seconds() <= accuracy::ample() / 16real
}

/// Where a ramp is after a span: as near to the target as its rate allows.
pub open spec fn is_reached(r: Ramp, dt: Span, after: Single) -> bool {
    let from = r.actual.value();
    let to = r.target.value();
    let step = r.rate_w_per_s.value() * dt.exact_seconds();
    &&& after.finite()
    &&& accuracy::dist(after.value() - accuracy::limited(to, from - step, from + step)) <= (
    accuracy::dist(from) + accuracy::dist(to)) * accuracy::steps(1) + step * accuracy::steps(7)
        + 2real * accuracy::speck()
}

/// A ramp moves towards its target by its rate times the span and no further
/// than the target, to the precision of the numbers.
pub proof fn law_ramp_moves_at_its_rate(r: Ramp, dt: Span)
    requires
        is_movable(r, dt),
    ensures
        is_reached(r, dt, r.slewed(dt)),
{
    let s = dt.spec_seconds();
    let x = dt.exact_seconds();
    let rate = r.rate_w_per_s;
    let a = r.actual;
    let t = r.target;
    let from = a.value();
    let to = t.value();
    let step = rate.value() * x;
    let spread = accuracy::dist(from) + accuracy::dist(to);
    let speck = accuracy::speck();
    accuracy::lemma_ample();
    accuracy::lemma_val_zero();
    accuracy::law_seconds_are_accurate(dt);
    assert(x >= 0real) by {
        let n = dt.total() as real;
        assert(n >= 0real);
    }
    reals::lemma_product_sign(rate.value(), x);
    reals::lemma_commutes(rate.value(), x);
    assert(0real * accuracy::dist(rate.value()) == 0real) by (nonlinear_arith);
    accuracy::lemma_step_times(s, rate, x, 4, 0real);
    crate::charge_laws::law_product_commutes(s, rate);
    let move_by = rate.fmul(s);
    let m = move_by.value();
    accuracy::lemma_steps_of(step, 5, 5real);
    accuracy::lemma_steps_of(step, 7, 7real);
    accuracy::lemma_steps_of(spread, 1, 1real);
    accuracy::law_difference_is_accurate(t, a);
    let diff = t.fsub(a);
    accuracy::lemma_half_ulp(accuracy::dist(to - from));
    lemma_magnitude(diff);
    accuracy::law_values_keep_order(diff.fabs(), move_by);
    accuracy::lemma_negated_val(move_by);
    if !diff.fabs().fle(move_by) {
        crate::single_laws::law_unit_factors(move_by);
        accuracy::lemma_sign_of_val(diff);
        let by = diff.fsignum().fmul(move_by);
        assert(by.value() == m || by.value() == -m);
        accuracy::law_sum_is_accurate(a, by);
        accuracy::lemma_half_ulp(accuracy::dist(from + by.value()));
        accuracy::law_values_keep_order(Single::lit(ZERO), move_by);
        crate::single_laws::law_seconds_are_finite(dt);
        accuracy::law_values_keep_order(Single::lit(ZERO), rate);
        crate::single_laws::law_product_of_nonnegative(rate, s);
        assert(m >= 0real);
        if to >= from {
            lemma_rising(diff, to - from);
        } else {
            lemma_falling(diff, to - from);
        }
    }
}

/// The magnitude of a number.
pub(crate) proof fn lemma_magnitude(a: Single)
    requires
        a.finite(),
    ensures
        a.fabs().finite(),
        a.fabs().value() == accuracy::dist(a.value()),
{
    accuracy::lemma_sign_of_val(a);
    accuracy::lemma_negated_val(a);
    if a.is_negative() {
        assert(a.fabs() == a.fneg());
    } else {
        assert(a.fabs() == a);
    }
}

/// The computed difference has the sign of the exact one.
proof fn lemma_rising(diff: Single, x: real)
    requires
        diff.finite(),
        x >= 0real,
        accuracy::close(diff.value(), x, accuracy::half_ulp(), 0real),
    ensures
        diff.value() >= 0real,
{
    accuracy::lemma_half_ulp(accuracy::dist(x));
}

proof fn lemma_falling(diff: Single, x: real)
    requires
        diff.finite(),
        x < 0real,
        accuracy::close(diff.value(), x, accuracy::half_ulp(), 0real),
    ensures
        diff.value() < 0real,
        diff.is_negative(),
{
    accuracy::lemma_half_ulp(accuracy::dist(x));
    accuracy::lemma_sign_of_val(diff);
}

} // verus!
