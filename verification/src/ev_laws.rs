//! What a charger offers and a car takes, in real numbers.

use crate::accuracy;
use crate::ev_presets::{ConnectedEv, EPSILON, NOMINAL_VOLTAGE_V};
use crate::reals;
use crate::single::{Single, HUNDRED, ONE, ZERO};
use vstd::prelude::*;

verus! {

/// At least one phase.
pub open spec fn some_phases(n: u8) -> real {
    if n == 0 {
        1real
    } else {
        n as real
    }
}

/// The phases that car and charger have in common, at least one.
pub open spec fn common_phases(car: u8, charger: u8) -> real {
    some_phases(
        if car <= charger {
            car
        } else {
            charger
        },
    )
}

/// A charger offers each of its phases an equal part of its limit, at 230 V,
/// and offers nothing under 6 A.
pub proof fn law_offer_divides_the_limit(limit_w: Single, phases: u8)
    requires
        limit_w.finite(),
        accuracy::dist(limit_w.value()) <= accuracy::ample() / 4real,
    ensures
        ({
            let exact = limit_w.value() / (some_phases(phases) * 230real);
            let amps = crate::ev_presets::limit_amps(limit_w, phases);
            &&& amps.finite()
            &&& accuracy::close(amps.value(), exact, accuracy::steps(6), accuracy::speck())
            &&& amps.value() >= 6real <==> crate::ev_presets::offer(limit_w, phases) is Some
            &&& crate::ev_presets::offer(limit_w, phases) matches Some(a) ==> a == amps
        }),
{
    let n = if phases == 0 {
        1nat
    } else {
        phases as nat
    };
    let x = some_phases(phases);
    let volt = Single::lit(NOMINAL_VOLTAGE_V);
    let lines = Single::fint(n);
    let v = limit_w.value();
    accuracy::lemma_ample();
    accuracy::lemma_constants();
    accuracy::law_integer_is_accurate(n);
    assert(n as real == x);
    accuracy::lemma_one_step(lines.value(), x, 0real);
    assert(1real <= x <= 255real);
    accuracy::lemma_step_times(lines, volt, x, 1, 0real);
    crate::charge_laws::law_product_commutes(lines, volt);
    let y = x * 230real;
    let whole = volt.fmul(lines);
    accuracy::lemma_absorbed(whole.value(), y, 2, accuracy::speck());
    accuracy::lemma_exact_is_close(v);
    let q = v / y;
    reals::lemma_quotient(v, y);
    accuracy::lemma_dist_product(q, y);
    let dq = accuracy::dist(q);
    reals::lemma_scales(1real, y, dq);
    assert(0real / accuracy::dist(y) == 0real) by {
        reals::lemma_quotient(0real, y);
        reals::lemma_cancels(0real / y, 0real, y);
    }
    accuracy::lemma_step_ratio(limit_w, whole, v, y, 0, 3, 0real);
    let amps = crate::ev_presets::limit_amps(limit_w, phases);
    accuracy::law_values_keep_order(Single::lit(crate::ev_presets::MIN_CURRENT_A), amps);
}

/// A car that is not done draws the lesser of what it is offered and what it
/// accepts, never a negative current, at 230 V on the phases that it shares
/// with the charger.
pub proof fn law_draw_is_the_lesser_current(car: ConnectedEv, offered_a: Single, phases: u8)
    requires
        !car.is_done(),
        offered_a.finite(),
        car.accepted().finite(),
        accuracy::dist(offered_a.value()) <= accuracy::ample() / 1000000real,
        accuracy::dist(car.accepted().value()) <= accuracy::ample() / 1000000real,
    ensures
        ({
            let least = accuracy::lesser(offered_a.value(), car.accepted().value());
            let amps = if least < 0real {
                0real
            } else {
                least
            };
            let draw = car.draw(offered_a, phases);
            &&& draw.finite()
            &&& accuracy::close(
                draw.value(),
                amps * 230real * common_phases(car.phases, phases),
                accuracy::steps(4),
                2000real * accuracy::speck(),
            )
        }),
{
    let zero = Single::lit(ZERO);
    let volt = Single::lit(NOMINAL_VOLTAGE_V);
    let accepted = car.accepted();
    accuracy::lemma_ample();
    accuracy::lemma_constants();
    accuracy::lemma_val_zero();
    accuracy::law_values_keep_order(offered_a, accepted);
    accuracy::law_values_keep_order(accepted, offered_a);
    let least = offered_a.fmin(accepted);
    accuracy::law_values_keep_order(least, zero);
    accuracy::law_values_keep_order(zero, least);
    let amps = least.fmax(zero);
    let a = amps.value();
    let n = car.shared_phases(phases);
    let x = common_phases(car.phases, phases);
    assert(n as real == x);
    assert(1real <= x <= 255real);
    accuracy::lemma_exact_is_close(a);
    accuracy::law_product_is_accurate(amps, volt);
    accuracy::lemma_one_step(amps.fmul(volt).value(), a * 230real, accuracy::speck());
    accuracy::law_integer_is_accurate(n);
    accuracy::lemma_one_step(Single::fint(n).value(), x, 0real);
    let t = accuracy::speck();
    reals::lemma_scales(x, 255real, t);
    reals::lemma_commutes(t, x);
    let y = a * 230real;
    reals::lemma_scales(x, 255real, y);
    accuracy::lemma_dist_product(y, x);
    accuracy::lemma_step_product(amps.fmul(volt), Single::fint(n), y, x, 1, 1, t);
}

/// The current that a car accepts above the start of its taper falls on a
/// straight line: from all of it at the start to the floor's share of it at
/// full charge.
pub proof fn law_acceptance_tapers(car: ConnectedEv)
    requires
        car.defect() is None,
        car.taper_start_pct.value() <= 99real,
        car.max_current_a.value() <= accuracy::ample() / 1000real,
    ensures
        ({
            let start = car.taper_start_pct.value();
            let way = accuracy::limited(
                (car.soc_pct.value() - start) / (100real - start),
                0real,
                1real,
            );
            let max = car.max_current_a.value();
            let exact = max * (1real - way * (1real - car.taper_floor.value()));
            &&& car.accepted().finite()
            &&& accuracy::dist(car.accepted().value() - exact) <= max * accuracy::steps(14)
                + 2real * accuracy::speck()
        }),
{
    let one = Single::lit(ONE);
    let zero = Single::lit(ZERO);
    let hundred = Single::lit(HUNDRED);
    let start = car.taper_start_pct;
    let soc = car.soc_pct;
    let floor = car.taper_floor;
    let eps = Single::lit(EPSILON);
    let t = accuracy::speck();
    accuracy::lemma_ample();
    accuracy::lemma_constants();
    accuracy::lemma_val_zero();
    accuracy::law_values_keep_order(zero, start);
    accuracy::law_values_keep_order(start, hundred);
    accuracy::law_values_keep_order(zero, soc);
    accuracy::law_values_keep_order(soc, hundred);
    accuracy::law_values_keep_order(soc, start);
    accuracy::law_values_keep_order(zero, floor);
    accuracy::law_values_keep_order(floor, one);
    accuracy::law_values_keep_order(zero, car.max_current_a);
    accuracy::law_values_keep_order(car.max_current_a, zero);
    let s = start.value();
    let gap = 100real - s;
    let past = soc.value() - s;
    let max = car.max_current_a.value();
    let rest = 1real - floor.value();
    let q = past / gap;
    reals::lemma_quotient(past, gap);
    accuracy::lemma_steps_of(max, 14, 14real);
    if soc.fle(start) {
        // nothing of the way is done
        reals::lemma_cancels(q, 0real, gap);
        let way = accuracy::limited(q, 0real, 1real);
        assert(way == 0real);
        assert(way * rest == 0real) by {
            assert(0real * rest == 0real) by (nonlinear_arith);
        }
        assert(max * 1real == max) by (nonlinear_arith);
    } else {
        accuracy::law_difference_is_accurate(hundred, start);
        accuracy::lemma_one_step(hundred.fsub(start).value(), gap, 0real);
        accuracy::lemma_steps_of(gap, 1, 1real);
        lemma_epsilon();
        accuracy::law_values_keep_order(eps, hundred.fsub(start));
        accuracy::law_values_keep_order(hundred.fsub(start), eps);
        let span = hundred.fsub(start).fmax(eps);
        assert(span.value() == hundred.fsub(start).value());
        accuracy::law_difference_is_accurate(soc, start);
        accuracy::lemma_one_step(soc.fsub(start).value(), past, 0real);
        reals::lemma_cancels(q, 100real, gap);
        reals::lemma_cancels(0real, q, gap);
        reals::lemma_quotient(0real, gap);
        reals::lemma_cancels(0real / gap, 0real, gap);
        accuracy::lemma_step_ratio(soc.fsub(start), span, past, gap, 1, 1, 0real);
        let r = soc.fsub(start).fdiv(span);
        crate::charge_laws::law_clamp_limits_the_value(r, zero, one);
        assert(0real <= accuracy::steps(5) <= 1real / 2real);
        accuracy::lemma_limited_unit(r.value(), q, accuracy::steps(5), t);
        let frac = r.fclamp(zero, one);
        let way = accuracy::limited(q, 0real, 1real);
        // what is lost of the current
        accuracy::law_difference_is_accurate(one, floor);
        accuracy::lemma_one_step(one.fsub(floor).value(), rest, 0real);
        let lost = one.fsub(floor);
        reals::lemma_product_sign(way, rest);
        reals::lemma_scales(way, 1real, rest);
        reals::lemma_scales(rest, 1real, t);
        accuracy::lemma_step_product(frac, lost, way, rest, 5, 1, t);
        let cut = frac.fmul(lost);
        let exact_cut = way * rest;
        accuracy::lemma_steps_of(exact_cut, 8, 8real);
        let c = cut.value();
        assert(accuracy::dist(c - exact_cut) <= 8real / 8388608real + 5real * t);
        accuracy::law_difference_is_accurate(one, cut);
        accuracy::lemma_half_ulp(accuracy::dist(1real - c));
        let scale = one.fsub(cut);
        let exact_scale = 1real - exact_cut;
        let g = accuracy::dist(scale.value() - exact_scale);
        assert(g <= 10real / 8388608real);
        let w = accuracy::dist(scale.value());
        assert(w <= 2real);
        accuracy::lemma_dist_product(max, scale.value());
        reals::lemma_scales(w, 2real, max);
        accuracy::law_product_is_accurate(car.max_current_a, scale);
        accuracy::lemma_half_ulp(max * w);
        reals::lemma_distributes(scale.value(), exact_scale, max);
        accuracy::lemma_dist_product(max, scale.value() - exact_scale);
        reals::lemma_scales(g, 10real / 8388608real, max);
        assert(max * (10real / 8388608real) == (10real * max) / 8388608real) by (nonlinear_arith);
    }
}

/// The smallest span of a taper is far under a percent.
proof fn lemma_epsilon()
    ensures
        Single::lit(EPSILON).finite(),
        Single::lit(EPSILON).value() <= 1real / 2real,
{
    let eps = Single::lit(EPSILON);
    let one = Single::lit(ONE);
    let half = Single::lit(0x3f00_0000);
    accuracy::lemma_constants();
    crate::single_laws::lemma_one();
    accuracy::law_values_keep_order(eps, half);
    lemma_half();
}

proof fn lemma_half()
    ensures
        Single::lit(0x3f00_0000).finite(),
        Single::lit(0x3f00_0000).value() == 1real / 2real,
{
    let half = Single::lit(0x3f00_0000);
    let unit = vstd::arithmetic::power2::pow2(149);
    crate::single::lemma_single_sizes();
    vstd::arithmetic::power2::lemma2_to64();
    vstd::arithmetic::power2::lemma_pow2_adds(23, 125);
    vstd::arithmetic::power2::lemma_pow2_unfold(149);
    vstd::arithmetic::power2::lemma_pow2_pos(149);
    vstd::arithmetic::div_mod::lemma_fundamental_div_mod_converse(
        0x3f00_0000,
        0x80_0000,
        126,
        0,
    );
    assert(0x3f00_0000 - 125 * 0x80_0000 == 0x80_0000);
    assert(crate::rounding::code_mag(24, 0x3f00_0000) == 0x80_0000
        * vstd::arithmetic::power2::pow2(125)) by {
        assert(vstd::arithmetic::power2::pow2((24 - 1) as nat) == 0x80_0000);
    }
    let m = half.units() as real;
    let u = unit as real;
    assert(2real * m == u);
    reals::lemma_quotient(m, u);
    assert((1real / 2real) * u == m);
    reals::lemma_cancels(m / u, 1real / 2real, u);
}

} // verus!
