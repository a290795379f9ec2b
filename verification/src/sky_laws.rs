//! The light of the day and the shade of clouds, in real numbers.

use crate::accuracy;
use crate::ev_presets::EPSILON;
use crate::reals;
use crate::single::{Single, HUNDRED, ONE, ZERO};
use crate::time::{Span, Timestamp};
use crate::weather::{CloudEvent, Weather, WeatherConfig};
use vstd::arithmetic::div_mod::*;
use vstd::arithmetic::power2::*;
use vstd::prelude::*;

verus! {

/// The day's light: between sunrise and sunset the fraction of the time that
/// has passed, and none outside.
pub proof fn law_day_passes_evenly(c: WeatherConfig, t: Timestamp)
    requires
        c.sunrise.secs < c.sunset.secs,
    ensures
        ({
            let secs = t.secs as int % 86_400;
            let rise = c.sunrise.secs as int;
            let set = c.sunset.secs as int;
            &&& c.day_fraction(t) is Some <==> rise <= secs <= set
            &&& c.day_fraction(t) matches Some(f) ==> f.finite() && accuracy::close(
                f.value(),
                (secs - rise) as real / (set - rise) as real,
                accuracy::steps(5),
                accuracy::speck(),
            )
        }),
{
    let secs = t.secs as int % 86_400;
    let rise = c.sunrise.secs as int;
    let set = c.sunset.secs as int;
    if rise <= secs <= set {
        let n = (secs - rise) as nat;
        let d = (set - rise) as nat;
        let x = n as real;
        let y = d as real;
        accuracy::lemma_ample();
        accuracy::lemma_pow2_wide();
        accuracy::law_integer_is_accurate(n);
        accuracy::law_integer_is_accurate(d);
        accuracy::lemma_one_step(Single::fint(n).value(), x, 0real);
        accuracy::lemma_one_step(Single::fint(d).value(), y, 0real);
        reals::lemma_over_is_times(0real, y);
        reals::lemma_zero(1real / y);
        crate::wide_laws::lemma_smaller(x, y);
        assert(x <= 20000000000000000000real);
        accuracy::lemma_step_ratio(Single::fint(n), Single::fint(d), x, y, 1, 1, 0real);
    }
}

/// By day a clear sky gives the peak times the sine of the sun's angle, and
/// nothing by night.
pub proof fn law_clear_sky_follows_the_sun(w: Weather, t: Timestamp, sine: Single)
    requires
        w.cfg.peak_pct.finite(),
        sine.finite(),
        accuracy::dist(w.cfg.peak_pct.value() * sine.value()) <= accuracy::ample(),
    ensures
        w.clear_sky(t, sine).finite(),
        w.cfg.day_fraction(t) is None ==> w.clear_sky(t, sine).value() == 0real,
        w.cfg.day_fraction(t) is Some ==> accuracy::close(
            w.clear_sky(t, sine).value(),
            w.cfg.peak_pct.value() * sine.value(),
            accuracy::half_ulp(),
            accuracy::speck(),
        ),
{
    accuracy::lemma_val_zero();
    accuracy::law_product_is_accurate(w.cfg.peak_pct, sine);
}

/// The depth of a cloud as a fraction, exactly.
pub open spec fn exact_depth(e: CloudEvent) -> real {
    accuracy::limited(e.depth_pct.value() / 100real, 0real, 1real)
}

proof fn lemma_depth(e: CloudEvent)
    requires
        e.depth_pct.finite(),
    ensures
        e.depth().finite(),
        accuracy::dist(e.depth().value() - exact_depth(e)) <= 2real / 8388608real,
        0real <= e.depth().value() <= 1real,
{
    let hundred = Single::lit(HUNDRED);
    let v = e.depth_pct.value();
    accuracy::lemma_ample();
    accuracy::lemma_constants();
    accuracy::lemma_val_zero();
    let q = v / 100real;
    assert(v / hundred.value() == q);
    lemma_finite_is_bounded(e.depth_pct);
    accuracy::law_quotient_is_accurate(e.depth_pct, hundred);
    let r = e.depth_pct.fdiv(hundred);
    crate::charge_laws::law_clamp_limits_the_value(r, Single::lit(ZERO), Single::lit(ONE));
    assert(0real <= accuracy::half_ulp() <= 1real / 2real);
    accuracy::lemma_limited_unit(r.value(), q, accuracy::half_ulp(), accuracy::speck());
    accuracy::lemma_half_ulp(accuracy::dist(accuracy::limited(q, 0real, 1real)));
}

/// A finite number is less than `2^128`, so a hundredth of it is ample.
proof fn lemma_finite_is_bounded(a: Single)
    requires
        a.finite(),
    ensures
        accuracy::dist(a.value() / 100real) <= accuracy::ample(),
{
    let u = pow2(149) as real;
    let m = crate::single::single_spec().mag(a.spec_num());
    accuracy::lemma_val_parts(a);
    crate::root_laws::lemma_magnitude_fits(a);
    lemma_pow2_adds(128, 149);
    lemma_pow2_unfold(127);
    lemma_pow2_unfold(128);
    lemma_pow2_pos(149);
    let top = pow2(128) as real;
    assert(pow2(277) as real == top * u) by (nonlinear_arith)
        requires
            pow2(277) == pow2(128) * pow2(149),
            top == pow2(128) as real,
            u == pow2(149) as real,
    ;
    reals::lemma_cancels(accuracy::dist(a.value()), top, u);
    assert(accuracy::dist(a.value() / 100real) == accuracy::dist(a.value()) / 100real);
}

/// The least span of a ramp.
proof fn lemma_least_ramp()
    ensures
        Single::lit(EPSILON).finite(),
        Single::lit(EPSILON).value() == 1real / 8388608real,
{
    let eps = Single::lit(EPSILON);
    let u = pow2(149) as real;
    crate::single::lemma_single_sizes();
    lemma2_to64();
    lemma_pow2_adds(23, 103);
    lemma_pow2_adds(23, 126);
    lemma_pow2_pos(149);
    lemma_fundamental_div_mod_converse(0x3400_0000, 0x80_0000, 104, 0);
    assert(0x3400_0000 - 103 * 0x80_0000 == 0x80_0000);
    assert(crate::rounding::code_mag(24, 0x3400_0000) == pow2(126)) by {
        assert(pow2((24 - 1) as nat) == 0x80_0000);
    }
    let m = eps.units() as real;
    assert(8388608real * m == u);
    reals::lemma_quotient(m, u);
    assert((1real / 8388608real) * u == m);
    reals::lemma_cancels(m / u, 1real / 8388608real, u);
}

/// How far along a ramp of at least a microsecond a point is.
proof fn lemma_along(into: Span, ramp: Span)
    requires
        into.wf(),
        ramp.wf(),
        into.total() <= ramp.total(),
        ramp.total() >= 1000,
    ensures
        ({
            let frac = into.spec_seconds().fdiv(
                ramp.spec_seconds().fmax(Single::lit(EPSILON)),
            );
            let x = into.total() as real / ramp.total() as real;
            &&& frac.finite()
            &&& 0real <= x <= 1real
            &&& accuracy::dist(frac.value() - x) <= 12real / 8388608real
        }),
{
    let a = into.exact_seconds();
    let b = ramp.exact_seconds();
    let eps = Single::lit(EPSILON);
    let m = into.total() as real;
    let n = ramp.total() as real;
    accuracy::lemma_ample();
    lemma_least_ramp();
    accuracy::law_seconds_are_accurate(into);
    accuracy::law_seconds_are_accurate(ramp);
    assert(n >= 1000real);
    assert(0real <= m <= n);
    assert(b >= 1real / 1000000real);
    accuracy::lemma_steps_of(b, 4, 4real);
    accuracy::law_values_keep_order(ramp.spec_seconds(), eps);
    accuracy::law_values_keep_order(eps, ramp.spec_seconds());
    let long = ramp.spec_seconds().fmax(eps);
    assert(long.value() == ramp.spec_seconds().value());
    // the quotient of the spans is that of their nanoseconds
    let x = m / n;
    reals::lemma_quotient(m, n);
    let q = a / b;
    reals::lemma_quotient(a, b);
    assert(x * b == a) by {
        assert(b * 1000000000real == n);
        reals::lemma_associates(x, b, 1000000000real);
        assert((x * b) * 1000000000real == m);
    }
    reals::lemma_cancels(q, x, b);
    reals::lemma_zero(n);
    reals::lemma_cancels(x, 1real, n);
    reals::lemma_cancels(0real, x, n);
    reals::lemma_over_is_times(0real, b);
    reals::lemma_zero(1real / b);
    accuracy::lemma_step_ratio(into.spec_seconds(), long, a, b, 4, 4, 0real);
    accuracy::lemma_steps_of(x, 11, 11real);
}

/// While a cloud comes its shade grows in proportion to the time, from none to
/// its depth; its ramp lasts at least a microsecond.
pub proof fn law_cloud_comes_evenly(e: CloudEvent, t: Timestamp)
    requires
        e.depth_pct.finite(),
        e.ramp_in.wf(),
        e.ramp_in.total() >= 1000,
        0 <= t.total() - e.start.total() < e.ramp_in.total(),
        t.total() < e.end_total(),
    ensures
        ({
            let passed = (t.total() - e.start.total()) as real / e.ramp_in.total() as real;
            &&& e.attenuation(t).finite()
            &&& accuracy::dist(e.attenuation(t).value() - exact_depth(e) * passed)
                <= accuracy::steps(20)
        }),
{
    let elapsed = t.total() - e.start.total();
    let into = crate::time::spec_since(t, e.start);
    lemma_span(elapsed, into);
    lemma_depth(e);
    lemma_along(into, e.ramp_in);
    let frac = into.spec_seconds().fdiv(e.ramp_in.spec_seconds().fmax(Single::lit(EPSILON)));
    let x = elapsed as real / e.ramp_in.total() as real;
    lemma_shade(e.depth(), frac, exact_depth(e), x);
}

/// While a cloud goes its shade shrinks in proportion to the time, from its
/// depth to none; its ramp lasts at least a microsecond.
pub proof fn law_cloud_goes_evenly(e: CloudEvent, t: Timestamp)
    requires
        e.depth_pct.finite(),
        e.ramp_in.wf(),
        e.plateau.wf(),
        e.ramp_out.wf(),
        e.ramp_out.total() >= 1000,
        e.ramp_in.total() + e.plateau.total() <= t.total() - e.start.total(),
        t.total() < e.end_total(),
    ensures
        ({
            let gone = t.total() - e.start.total() - e.ramp_in.total() - e.plateau.total();
            let left = 1real - gone as real / e.ramp_out.total() as real;
            &&& e.attenuation(t).finite()
            &&& accuracy::dist(e.attenuation(t).value() - exact_depth(e) * left)
                <= accuracy::steps(24)
        }),
{
    let gone = t.total() - e.start.total() - e.ramp_in.total() - e.plateau.total();
    let into = Span {
        secs: (gone / crate::time::NANOS_PER_SEC as int) as u64,
        nanos: (gone % crate::time::NANOS_PER_SEC as int) as u32,
    };
    assert(gone < e.ramp_out.total());
    lemma_span(gone, into);
    lemma_depth(e);
    lemma_along(into, e.ramp_out);
    let one = Single::lit(ONE);
    let frac = into.spec_seconds().fdiv(e.ramp_out.spec_seconds().fmax(Single::lit(EPSILON)));
    let x = gone as real / e.ramp_out.total() as real;
    accuracy::lemma_ample();
    accuracy::lemma_constants();
    accuracy::law_difference_is_accurate(one, frac);
    accuracy::lemma_half_ulp(accuracy::dist(1real - frac.value()));
    lemma_shade(e.depth(), one.fsub(frac), exact_depth(e), 1real - x);
}

/// A span from its nanoseconds.
pub(crate) proof fn lemma_span(total: int, s: Span)
    requires
        0 <= total,
        total < (u64::MAX + 1) * crate::time::NANOS_PER_SEC,
        s.secs == (total / crate::time::NANOS_PER_SEC as int) as u64,
        s.nanos == (total % crate::time::NANOS_PER_SEC as int) as u32,
    ensures
        s.wf(),
        s.total() == total,
{
    let n = crate::time::NANOS_PER_SEC as int;
    lemma_fundamental_div_mod(total, n);
    assert(total / n < u64::MAX + 1) by (nonlinear_arith)
        requires
            total == n * (total / n) + total % n,
            total < (u64::MAX + 1) * n,
            total % n >= 0,
            n > 0,
    ;
}

/// The product of a depth and a fraction.
proof fn lemma_shade(depth: Single, frac: Single, d: real, x: real)
    requires
        depth.finite(),
        frac.finite(),
        0real <= depth.value() <= 1real,
        accuracy::dist(depth.value() - d) <= 2real / 8388608real,
        0real <= x <= 1real,
        accuracy::dist(frac.value() - x) <= 16real / 8388608real,
    ensures
        depth.fmul(frac).finite(),
        accuracy::dist(depth.fmul(frac).value() - d * x) <= accuracy::steps(20),
{
    let a = depth.value();
    let b = frac.value();
    accuracy::lemma_ample();
    accuracy::lemma_dist_product(a, b);
    reals::lemma_scales(a, 1real, accuracy::dist(b));
    reals::lemma_zero(accuracy::dist(b));
    accuracy::law_product_is_accurate(depth, frac);
    accuracy::lemma_half_ulp(accuracy::dist(a * b));
    // a * b - d * x == a * (b - x) + (a - d) * x
    reals::lemma_distributes(b, x, a);
    reals::lemma_distributes(a, d, x);
    accuracy::lemma_dist_product(a, b - x);
    accuracy::lemma_dist_product(a - d, x);
    reals::lemma_scales(a, 1real, accuracy::dist(b - x));
    reals::lemma_zero(accuracy::dist(b - x));
    reals::lemma_scales(x, 1real, accuracy::dist(a - d));
    reals::lemma_zero(accuracy::dist(a - d));
}

/// A number of seconds as a span is the span nearest to it.
pub proof fn law_span_is_nearest(v: Single)
    requires
        v.fspan() is Some,
    ensures
        v.finite(),
        accuracy::dist((v.fspan()->0).exact_seconds() - v.value()) <= 1real / 2000000000real,
{
    let f = crate::single::single_spec();
    let u = pow2(149);
    let a = v.spec_num();
    let m = f.mag(a);
    crate::single::lemma_single_sizes();
    lemma_pow2_pos(149);
    let n = m * 1_000_000_000;
    let r = crate::seconds::nearest_nanos(f, a);
    assert(r == crate::rounding::rne(n, u));
    accuracy::lemma_rne_close(n, u);
    let s = v.fspan()->0;
    lemma_span(r as int, s);
    accuracy::lemma_val_parts(v);
    if v.is_negative() {
        crate::ieee::lemma_mag_zero(f, a);
    }
    let ur = u as real;
    let rr = r as real;
    let x = v.value();
    assert(x * ur == m as real);
    let e = r * u - n;
    assert((r * u) as real == rr * ur) by (nonlinear_arith)
        requires
            rr == r as real,
            ur == u as real,
    ;
    assert(e as real == rr * ur - 1000000000real * (m as real));
    reals::lemma_associates(1000000000real, x, ur);
    reals::lemma_distributes(rr, 1000000000real * x, ur);
    let d = rr - 1000000000real * x;
    assert(d * ur == e as real);
    reals::lemma_associates(2real, d, ur);
    reals::lemma_associates(-2real, d, ur);
    reals::lemma_zero(ur);
    reals::lemma_cancels(2real * d, 1real, ur);
    reals::lemma_cancels(-2real * d, 1real, ur);
}

/// The gap to the next cloud is the negative logarithm of the draw over the
/// rate, in hours, to the nearest nanosecond and the precision of the numbers.
pub proof fn law_gap_is_exponential(log_draw: Single, rate: Single)
    requires
        log_draw.finite(),
        rate.finite(),
        rate.value() > 0real,
        log_draw.value() <= 0real,
        accuracy::dist(log_draw.value() / rate.value()) <= 1000000000real,
    ensures
        ({
            let seconds = -log_draw.value() / rate.value() * 3600real;
            let gap = crate::weather::exp_gap(log_draw, rate);
            let v = log_draw.fneg().fdiv(rate).fmul(Single::lit(crate::weather::HOUR_S));
            v.fspan() is Some ==> accuracy::dist(gap.exact_seconds() - seconds)
                <= accuracy::dist(seconds) * accuracy::steps(2) + 1real / 1000000000real
        }),
{
    let hour = Single::lit(crate::weather::HOUR_S);
    let l = log_draw.value();
    let r = rate.value();
    let t = accuracy::speck();
    accuracy::lemma_ample();
    accuracy::lemma_constants();
    accuracy::lemma_negated_val(log_draw);
    let q = -l / r;
    reals::lemma_quotient(-l, r);
    reals::lemma_quotient(l, r);
    assert((-(l / r)) * r == -l) by (nonlinear_arith)
        requires
            (l / r) * r == l,
    ;
    reals::lemma_cancels(q, -(l / r), r);
    accuracy::law_quotient_is_accurate(log_draw.fneg(), rate);
    let x = log_draw.fneg().fdiv(rate);
    accuracy::lemma_one_step(x.value(), q, t);
    accuracy::lemma_dist_product(q, 3600real);
    accuracy::lemma_step_times(x, hour, q, 1, t);
    let v = x.fmul(hour);
    if v.fspan() is Some {
        law_span_is_nearest(v);
    }
}

/// Clouds compound: of the light that the others let pass, one cloud more
/// takes its own share.
pub proof fn law_clouds_compound(events: Seq<CloudEvent>, e: CloudEvent, t: Timestamp)
    requires
        t.wf(),
        forall|i: int| 0 <= i < events.len() ==> (#[trigger] events[i]).wf(),
        forall|i: int| 0 <= i < events.len() ==> !(#[trigger] events[i]).depth_pct.nan(),
        e.wf(),
        !e.depth_pct.nan(),
    ensures
        ({
            let before = crate::weather::transmission(events, t).value();
            let after = crate::weather::transmission(events.push(e), t);
            let shade = e.attenuation(t).value();
            &&& crate::weather::transmission(Seq::empty(), t).value() == 1real
            &&& accuracy::dist(after.value() - before * (1real - shade)) <= accuracy::steps(2)
        }),
{
    let one = Single::lit(ONE);
    let rest = crate::weather::transmission(events, t);
    let a = e.attenuation(t);
    let z = Single::lit(ZERO);
    accuracy::lemma_ample();
    accuracy::lemma_constants();
    accuracy::lemma_val_zero();
    crate::weather_laws::law_transmission_is_a_fraction(events, t);
    crate::weather_laws::law_attenuation_is_within_depth(e, t);
    crate::single_laws::law_complement_is_a_fraction(a);
    assert(events.push(e).drop_last() =~= events);
    accuracy::law_values_keep_order(z, rest);
    accuracy::law_values_keep_order(rest, one);
    accuracy::law_values_keep_order(z, a);
    accuracy::law_values_keep_order(a, one);
    let left = one.fsub(a);
    accuracy::law_values_keep_order(z, left);
    accuracy::law_values_keep_order(left, one);
    accuracy::law_difference_is_accurate(one, a);
    let exact = 1real - a.value();
    accuracy::lemma_half_ulp(exact);
    let r = rest.value();
    let l = left.value();
    accuracy::lemma_dist_product(r, l);
    reals::lemma_scales(r, 1real, l);
    reals::lemma_zero(l);
    accuracy::law_product_is_accurate(rest, left);
    accuracy::lemma_half_ulp(accuracy::dist(r * l));
    reals::lemma_distributes(l, exact, r);
    accuracy::lemma_dist_product(r, l - exact);
    reals::lemma_scales(r, 1real, accuracy::dist(l - exact));
    reals::lemma_zero(accuracy::dist(l - exact));
}

/// The sunlight is the clear sky's, times what the clouds let pass.
pub proof fn law_sunlight_is_what_passes(w: Weather, t: Timestamp, sine: Single)
    requires
        w.wf(),
        t.wf(),
        forall|i: int| 0 <= i < w.events@.len() ==> !(#[trigger] w.events@[i]).depth_pct.nan(),
        w.clear_sky(t, sine).finite(),
        accuracy::dist(w.clear_sky(t, sine).value()) <= accuracy::ample(),
    ensures
        w.sunlight(t, sine).finite(),
        accuracy::close(
            w.sunlight(t, sine).value(),
            w.clear_sky(t, sine).value() * crate::weather::transmission(w.events@, t).value(),
            accuracy::half_ulp(),
            accuracy::speck(),
        ),
{
    let one = Single::lit(ONE);
    let z = Single::lit(ZERO);
    let c = w.clear_sky(t, sine);
    let p = crate::weather::transmission(w.events@, t);
    accuracy::lemma_constants();
    accuracy::lemma_val_zero();
    crate::weather_laws::law_transmission_is_a_fraction(w.events@, t);
    accuracy::law_values_keep_order(z, p);
    accuracy::law_values_keep_order(p, one);
    accuracy::lemma_dist_product(c.value(), p.value());
    reals::lemma_scales(p.value(), 1real, accuracy::dist(c.value()));
    reals::lemma_zero(accuracy::dist(c.value()));
    accuracy::law_product_is_accurate(c, p);
}

} // verus!
