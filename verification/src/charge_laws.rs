//! What power and time do to a store of energy, in real numbers.

use crate::accuracy;
use crate::single::{Single, HUNDRED, ZERO};
use crate::time::Span;
use vstd::prelude::*;

verus! {

/// The energy in Wh that a power in W moves in a span, exactly.
pub open spec fn exact_wh(power_w: real, dt: Span) -> real {
    power_w * dt.exact_seconds() / 3600real
}

/// Two numbers can be multiplied in either order.
pub proof fn law_product_commutes(a: Single, b: Single)
    ensures
        a.fmul(b) == b.fmul(a),
{
    reveal(Single::fmul);
    let f = crate::single::single_spec();
    let m = f.mag(a.spec_num());
    let n = f.mag(b.spec_num());
    assert(m * n == n * m) by (nonlinear_arith);
}

/// The energy of a power over a span, as it is computed.
pub open spec fn computed_wh(power_w: Single, dt: Span) -> Single {
    power_w.fmul(dt.spec_seconds()).fdiv(Single::lit(crate::decay::SECS_PER_HOUR))
}

pub(crate) proof fn lemma_watt_hours(power_w: Single, dt: Span)
    requires
        power_w.finite(),
        dt.wf(),
        accuracy::dist(power_w.value() * dt.exact_seconds())
            <= accuracy::ample() / 4real,
    ensures
        computed_wh(power_w, dt).finite(),
        accuracy::close(
            computed_wh(power_w, dt).value(),
            exact_wh(power_w.value(), dt),
            accuracy::steps(6),
            2real * accuracy::speck(),
        ),
{
    let s = dt.spec_seconds();
    let x = dt.exact_seconds();
    let p = power_w.value();
    let t = accuracy::speck();
    let hour = Single::lit(crate::decay::SECS_PER_HOUR);
    accuracy::law_seconds_are_accurate(dt);
    accuracy::lemma_ample();
    accuracy::lemma_constants();
    assert(x * p == p * x) by (nonlinear_arith);
    assert(0real * accuracy::dist(p) == 0real) by (nonlinear_arith);
    accuracy::lemma_step_times(s, power_w, x, 4, 0real);
    law_product_commutes(s, power_w);
    let y = p * x;
    assert(accuracy::dist(y / 3600real) <= accuracy::dist(y)) by (nonlinear_arith);
    assert(0real <= t / 3600real <= t / 2real) by (nonlinear_arith)
        requires
            t > 0real,
    ;
    accuracy::lemma_step_over(power_w.fmul(s), hour, y, 5, t);
}

/// A number limited to a range has the limited value.
pub proof fn law_clamp_limits_the_value(a: Single, lo: Single, hi: Single)
    requires
        a.finite(),
        lo.finite(),
        hi.finite(),
    ensures
        a.fclamp(lo, hi).finite(),
        a.fclamp(lo, hi).value() == accuracy::limited(
            a.value(),
            lo.value(),
            hi.value(),
        ),
{
    accuracy::law_values_keep_order(lo, a);
    accuracy::law_values_keep_order(a, hi);
}

/// The change of a state of charge in percent, exactly.
pub open spec fn exact_percent(power_w: real, dt: Span, capacity_wh: real) -> real {
    exact_wh(power_w, dt) / capacity_wh * 100real
}

/// The state of charge moves by the energy over the capacity, to the precision
/// of the numbers: by half a unit in the last place of the result, and nine
/// steps of the change.
pub proof fn law_soc_follows_the_energy(
    soc: Single,
    power_w: Single,
    dt: Span,
    capacity_wh: Single,
)
    requires
        dt.wf(),
        soc.finite(),
        power_w.finite(),
        capacity_wh.finite(),
        0real <= soc.value() <= 100real,
        capacity_wh.value() > 0real,
        accuracy::dist(power_w.value() * dt.exact_seconds())
            <= accuracy::ample() / 4real,
        accuracy::dist(
            exact_percent(
                power_w.value(),
                dt,
                capacity_wh.value(),
            ),
        ) <= accuracy::ample() / 4real,
    ensures
        ({
            let cap = capacity_wh.value();
            let change = exact_percent(power_w.value(), dt, cap);
            let due = soc.value() + change;
            let after = crate::decay::soc_after(soc, power_w, dt, capacity_wh);
            &&& after.finite()
            &&& accuracy::dist(
                after.value() - accuracy::limited(due, 0real, 100real),
            ) <= accuracy::dist(due) * accuracy::half_ulp()
                + accuracy::dist(change) * accuracy::steps(9)
                + 2000real * accuracy::speck() * (1real + 1real / cap)
        }),
{
    let cap = capacity_wh.value();
    let p = power_w.value();
    let t = accuracy::speck();
    let hundred = Single::lit(HUNDRED);
    let wh = computed_wh(power_w, dt);
    let e = exact_wh(p, dt);
    lemma_watt_hours(power_w, dt);
    accuracy::lemma_ample();
    accuracy::lemma_constants();
    accuracy::lemma_val_zero();
    accuracy::law_values_keep_order(capacity_wh, Single::lit(ZERO));
    accuracy::lemma_below_a_unit(capacity_wh);
    let change = e / cap * 100real;
    assert(accuracy::dist(e / cap) <= accuracy::dist(change)) by {
        let y = e / cap;
        assert(accuracy::dist(y) <= accuracy::dist(y * 100real)) by (nonlinear_arith);
    }
    let inv = 1real / cap;
    assert(0real <= t * inv <= 1real / 2real && (2real * t) / cap == 2real * (t * inv) && inv
        > 0real) by (nonlinear_arith)
        requires
            inv == 1real / cap,
            cap >= 2real * t,
            t > 0real,
    {
        assert(t <= cap / 2real);
        assert(t * inv <= (cap / 2real) * inv);
        assert(cap * inv == 1real);
    }
    accuracy::lemma_step_over(wh, capacity_wh, e, 6, 2real * t);
    let ratio = wh.fdiv(capacity_wh);
    let t3 = 2real * ((2real * t) / cap) + t;
    assert(t3 * 100real == 400real * (t * inv) + 100real * t) by (nonlinear_arith)
        requires
            t3 == 4real * (t * inv) + t,
    ;
    accuracy::lemma_step_times(ratio, hundred, e / cap, 7, t3);
    let moved = ratio.fmul(hundred);
    let t4 = 2real * (t3 * 100real) + t;
    let x4 = moved.value();
    let s = soc.value();
    accuracy::lemma_stays_ample(
        x4,
        change,
        8,
        t4,
        accuracy::ample() / 2real + 2000real,
    );
    accuracy::law_sum_is_accurate(soc, moved);
    let sum = soc.fadd(moved).value();
    let due = s + change;
    accuracy::lemma_sum_error(s, x4, change, sum, 8, t4);
    assert(2real * t4 <= 2000real * t * (1real + 1real / cap)) by (nonlinear_arith)
        requires
            t4 == 800real * (t * inv) + 200real * t + t,
            inv == 1real / cap,
            t > 0real,
            t * inv >= 0real,
    {
        assert(2000real * t * (1real + inv) == 2000real * t + 2000real * (t * inv));
    }
    law_clamp_limits_the_value(soc.fadd(moved), Single::lit(ZERO), hundred);
}

// ---------------------------------------------------------------------------
// Directions

/// A number, infinity among them, that is not negative stays so when it is
/// multiplied with or divided by a positive one.
proof fn lemma_stays_nonnegative(a: Single, b: Single)
    requires
        !a.nan(),
        a.rank() >= 0,
        b.finite(),
        b.rank() > 0,
    ensures
        !a.fmul(b).nan(),
        a.fmul(b).rank() >= 0,
        !a.fdiv(b).nan(),
        a.fdiv(b).rank() >= 0,
{
    reveal(Single::fmul);
    reveal(Single::fdiv);
    crate::single::lemma_single_sizes();
    let f = crate::single::single_spec();
    if a.is_negative() {
        crate::single_laws::law_product_of_nonnegative(a, b);
        accuracy::lemma_val_zero();
        accuracy::law_values_keep_order(a, Single::lit(ZERO));
        accuracy::law_values_keep_order(b, Single::lit(ZERO));
        accuracy::lemma_speck();
        accuracy::lemma_ample();
        let v = b.value();
        assert(0real / v == 0real) by (nonlinear_arith)
            requires
                v != 0real,
        ;
        assert(0real * accuracy::half_ulp() == 0real) by (nonlinear_arith);
        accuracy::law_quotient_is_accurate(a, b);
        accuracy::lemma_below_a_unit(a.fdiv(b));
        accuracy::law_values_keep_order(a.fdiv(b), Single::lit(ZERO));
    }
}

/// Turning a factor's sign turns the product's, and likewise for quotients and
/// spans of time.
proof fn lemma_negated_factor(a: Single, b: Single)
    ensures
        !a.fmul(b).nan() ==> a.fneg().fmul(b) == a.fmul(b).fneg(),
        !a.fdiv(b).nan() ==> a.fneg().fdiv(b) == a.fdiv(b).fneg(),
{
    reveal(Single::fmul);
    reveal(Single::fdiv);
    crate::single::lemma_single_sizes();
}

/// The change that a power brings about is not negative where the power is
/// not.
proof fn lemma_change_is_nonnegative(power_w: Single, dt: Span, capacity_wh: Single)
    requires
        dt.wf(),
        power_w.finite(),
        power_w.rank() >= 0,
        capacity_wh.finite(),
        capacity_wh.rank() > 0,
    ensures
        ({
            let change = computed_wh(power_w, dt).fdiv(capacity_wh).fmul(Single::lit(HUNDRED));
            &&& !change.nan()
            &&& change.rank() >= 0
            &&& power_w.fneg().fmul(dt.spec_seconds()).fdiv(
                Single::lit(crate::decay::SECS_PER_HOUR),
            ).fdiv(capacity_wh).fmul(Single::lit(HUNDRED)) == change.fneg()
        }),
{
    let s = dt.spec_seconds();
    let hour = Single::lit(crate::decay::SECS_PER_HOUR);
    let hundred = Single::lit(HUNDRED);
    crate::single_laws::law_seconds_are_finite(dt);
    crate::single_laws::law_product_of_nonnegative(power_w, s);
    let a = power_w.fmul(s);
    lemma_stays_nonnegative(a, hour);
    let b = a.fdiv(hour);
    lemma_stays_nonnegative(b, capacity_wh);
    let c = b.fdiv(capacity_wh);
    lemma_stays_nonnegative(c, hundred);
    lemma_negated_factor(power_w, s);
    lemma_negated_factor(a, hour);
    lemma_negated_factor(b, capacity_wh);
    lemma_negated_factor(c, hundred);
}

/// The state of charge moves with the sign of the power: charging never lowers
/// it and discharging never raises it.
pub proof fn law_soc_moves_with_the_power(
    soc: Single,
    power_w: Single,
    dt: Span,
    capacity_wh: Single,
)
    requires
        dt.wf(),
        power_w.finite(),
        capacity_wh.finite(),
        Single::lit(ZERO).fle(soc),
        soc.fle(Single::lit(HUNDRED)),
    ensures
        !crate::decay::soc_after(soc, power_w, dt, capacity_wh).nan(),
        power_w.rank() >= 0 ==> crate::decay::soc_after(soc, power_w, dt, capacity_wh).rank()
            >= soc.rank(),
        power_w.rank() <= 0 ==> crate::decay::soc_after(soc, power_w, dt, capacity_wh).rank()
            <= soc.rank(),
{
    if Single::lit(ZERO).flt(capacity_wh) {
        crate::single_laws::lemma_negated_units(power_w);
        if power_w.rank() >= 0 {
            lemma_change_is_nonnegative(power_w, dt, capacity_wh);
            let change = computed_wh(power_w, dt).fdiv(capacity_wh).fmul(Single::lit(HUNDRED));
            lemma_added(soc, change);
        }
        if power_w.rank() <= 0 {
            let up = power_w.fneg();
            lemma_change_is_nonnegative(up, dt, capacity_wh);
            assert(up.fneg() == power_w);
            let change = computed_wh(up, dt).fdiv(capacity_wh).fmul(Single::lit(HUNDRED));
            lemma_added(soc, change);
        }
    }
}

/// Adding a number that is not negative lowers nothing, and taking it away
/// raises nothing.
proof fn lemma_added(a: Single, b: Single)
    requires
        a.finite(),
        !b.nan(),
        b.rank() >= 0,
    ensures
        !a.fadd(b).nan(),
        a.fadd(b).rank() >= a.rank(),
        !a.fadd(b.fneg()).nan(),
        a.fadd(b.fneg()).rank() <= a.rank(),
{
    crate::single::lemma_single_sizes();
    if b.finite() {
        let z = Single::lit(ZERO);
        crate::single_laws::lemma_negated_units(b);
        crate::single_laws::law_sum_is_nearest(a, b);
        crate::single_laws::law_sum_is_nearest(a, b.fneg());
        crate::single_laws::law_nearest_of_number(a);
        crate::ieee::lemma_mag_zero(crate::single::single_spec(), z.spec_num());
        crate::single_laws::law_rank_orders_values(z, b);
        crate::single_laws::law_nearest_is_monotone(a.units(), a.units() + b.units());
        crate::single_laws::law_nearest_is_monotone(a.units() - b.units(), a.units());
    } else {
        reveal(Single::fadd);
    }
}

// ---------------------------------------------------------------------------
// Metered energy

/// A counter of energy grows by the energy of the step, to the precision of
/// the numbers.
pub proof fn law_counter_adds_the_energy(energy_wh: Single, power_w: Single, dt: Span)
    requires
        dt.wf(),
        energy_wh.finite(),
        power_w.finite(),
        accuracy::dist(energy_wh.value()) <= accuracy::ample() / 4real,
        accuracy::dist(power_w.value() * dt.exact_seconds()) <= accuracy::ample() / 4real,
    ensures
        ({
            let step = exact_wh(power_w.value(), dt);
            let due = energy_wh.value() + step;
            let after = energy_wh.fadd(computed_wh(power_w, dt));
            &&& after.finite()
            &&& accuracy::dist(after.value() - due) <= accuracy::dist(due) * accuracy::half_ulp()
                + accuracy::dist(step) * accuracy::steps(7) + 4real * accuracy::speck()
        }),
{
    let p = power_w.value();
    let x = p * dt.exact_seconds();
    let step = exact_wh(p, dt);
    let t = accuracy::speck();
    let wh = computed_wh(power_w, dt);
    lemma_watt_hours(power_w, dt);
    accuracy::lemma_ample();
    assert(accuracy::dist(x / 3600real) <= accuracy::dist(x) / 3600real) by (nonlinear_arith);
    let w = wh.value();
    let e = energy_wh.value();
    accuracy::lemma_stays_ample(w, step, 6, 2real * t, accuracy::ample() / 2real);
    accuracy::law_sum_is_accurate(energy_wh, wh);
    accuracy::lemma_sum_error(
        e,
        w,
        step,
        energy_wh.fadd(wh).value(),
        6,
        2real * t,
    );
}

// ---------------------------------------------------------------------------
// Protection near the limits

/// The share of the rated power that is left at a distance from a limit: one
/// from a margin on, none at the limit and beyond.
pub open spec fn exact_share(gap: real, margin: real) -> real {
    accuracy::limited(gap / margin, 0real, 1real)
}

/// The factor of a gap to a limit is the share, to three steps.
proof fn lemma_factor(a: Single, b: Single, margin: Single)
    requires
        a.finite(),
        b.finite(),
        margin.finite(),
        margin.value() > 0real,
        accuracy::dist(a.value() - b.value()) <= accuracy::ample() / 4real,
        accuracy::dist((a.value() - b.value()) / margin.value()) <= accuracy::ample() / 4real,
    ensures
        ({
            let factor = crate::decay::unit_range(a.fsub(b).fdiv(margin));
            &&& factor.finite()
            &&& accuracy::close(
                factor.value(),
                exact_share(a.value() - b.value(), margin.value()),
                accuracy::steps(2),
                accuracy::speck(),
            )
            &&& 0real <= factor.value() <= 1real
        }),
{
    let gap = a.value() - b.value();
    let m = margin.value();
    accuracy::lemma_ample();
    accuracy::lemma_constants();
    accuracy::lemma_val_zero();
    accuracy::law_difference_is_accurate(a, b);
    let d = accuracy::dist(gap);
    assert(d * accuracy::half_ulp() <= d * accuracy::steps(1)) by (nonlinear_arith)
        requires
            d >= 0real,
            accuracy::half_ulp() == 1real / 16777216real,
            accuracy::steps(1) == 1real / 8388608real,
    ;
    assert(0real / accuracy::dist(m) == 0real) by (nonlinear_arith)
        requires
            accuracy::dist(m) > 0real,
    ;
    accuracy::lemma_step_over(a.fsub(b), margin, gap, 1, 0real);
    let q = a.fsub(b).fdiv(margin);
    law_clamp_limits_the_value(q, Single::lit(ZERO), Single::lit(crate::single::ONE));
    assert(0real <= accuracy::steps(2) <= 1real / 2real);
    accuracy::lemma_limited_unit(q.value(), gap / m, accuracy::steps(2), accuracy::speck());
}

/// Near a limit the rated power is scaled by the share of the margin that is
/// left: charging by the distance to the upper limit, discharging by that to
/// the lower one. It is nothing at the limit and beyond, and all of it from
/// the margin on.
pub proof fn law_power_tapers_at_the_limits(
    rated_lower: Single,
    rated_upper: Single,
    soc: Single,
    p: crate::decay::SocProtect,
)
    requires
        rated_lower.finite(),
        rated_upper.finite(),
        soc.finite(),
        p.lower_pct.finite(),
        p.upper_pct.finite(),
        p.margin_pct.finite(),
        p.margin_pct.value() > 0real,
        accuracy::dist(rated_lower.value()) <= accuracy::ample() / 4real,
        accuracy::dist(rated_upper.value()) <= accuracy::ample() / 4real,
        accuracy::dist(soc.value() - p.lower_pct.value()) <= accuracy::ample() / 4real,
        accuracy::dist(p.upper_pct.value() - soc.value()) <= accuracy::ample() / 4real,
        accuracy::dist((soc.value() - p.lower_pct.value()) / p.margin_pct.value())
            <= accuracy::ample() / 4real,
        accuracy::dist((p.upper_pct.value() - soc.value()) / p.margin_pct.value())
            <= accuracy::ample() / 4real,
    ensures
        ({
            let bounds = crate::decay::protected_bounds(rated_lower, rated_upper, soc, p);
            let down = exact_share(soc.value() - p.lower_pct.value(), p.margin_pct.value());
            let up = exact_share(p.upper_pct.value() - soc.value(), p.margin_pct.value());
            &&& bounds.0.finite()
            &&& bounds.1.finite()
            &&& accuracy::close(
                bounds.0.value(),
                rated_lower.value() * down,
                accuracy::steps(3),
                accuracy::speck() * (1real + 2real * accuracy::dist(rated_lower.value())),
            )
            &&& accuracy::close(
                bounds.1.value(),
                rated_upper.value() * up,
                accuracy::steps(3),
                accuracy::speck() * (1real + 2real * accuracy::dist(rated_upper.value())),
            )
        }),
{
    accuracy::lemma_val_zero();
    accuracy::law_values_keep_order(p.margin_pct, Single::lit(ZERO));
    lemma_factor(soc, p.lower_pct, p.margin_pct);
    lemma_factor(p.upper_pct, soc, p.margin_pct);
    lemma_share_of(
        rated_lower,
        p.discharge_factor(soc),
        exact_share(soc.value() - p.lower_pct.value(), p.margin_pct.value()),
    );
    lemma_share_of(
        rated_upper,
        p.charge_factor(soc),
        exact_share(p.upper_pct.value() - soc.value(), p.margin_pct.value()),
    );
}

proof fn lemma_share_of(rated: Single, factor: Single, share: real)
    requires
        rated.finite(),
        factor.finite(),
        accuracy::dist(rated.value()) <= accuracy::ample() / 4real,
        0real <= share <= 1real,
        accuracy::close(factor.value(), share, accuracy::steps(2), accuracy::speck()),
    ensures
        rated.fmul(factor).finite(),
        accuracy::close(
            rated.fmul(factor).value(),
            rated.value() * share,
            accuracy::steps(3),
            accuracy::speck() * (1real + 2real * accuracy::dist(rated.value())),
        ),
{
    let r = rated.value();
    let d = accuracy::dist(r);
    let t = accuracy::speck();
    accuracy::lemma_ample();
    accuracy::lemma_dist_product(share, r);
    assert(share * r == r * share) by (nonlinear_arith);
    assert(share * d <= d && t * d <= d) by (nonlinear_arith)
        requires
            0real <= share <= 1real,
            0real < t <= 1real,
            d >= 0real,
    ;
    accuracy::lemma_step_times(factor, rated, share, 2, t);
    law_product_commutes(factor, rated);
    assert(2real * (t * d) + t == t * (1real + 2real * d)) by (nonlinear_arith);
}

} // verus!
