//! What a tick does to the pressure of a steam boiler, in real numbers.

use crate::accuracy;
use crate::reals;
use crate::single::{Single, ZERO};
use crate::steam_boiler::{SteamBoiler, SteamBoilerConfig};
use crate::time::{Span, Timestamp};
use vstd::prelude::*;

verus! {

/// The demand in kg/h that counts: none where it is negative or not finite.
pub open spec fn exact_demand_kg_h(raw: Single) -> real {
    if raw.finite() && raw.value() > 0real {
        raw.value()
    } else {
        0real
    }
}

/// The heat that the demand takes is its weight times the heat per kg.
pub proof fn law_demand_takes_its_heat(c: SteamBoilerConfig, raw: Single)
    requires
        c.wh_per_kg.finite(),
        accuracy::dist(exact_demand_kg_h(raw) * c.wh_per_kg.value()) <= accuracy::ample(),
    ensures
        c.demand_w(raw).finite(),
        accuracy::close(
            c.demand_w(raw).value(),
            exact_demand_kg_h(raw) * c.wh_per_kg.value(),
            accuracy::half_ulp(),
            accuracy::speck(),
        ),
{
    let zero = Single::lit(ZERO);
    accuracy::lemma_val_zero();
    let kg = if raw.finite() {
        raw.fmax(zero)
    } else {
        zero
    };
    if raw.finite() {
        accuracy::law_values_keep_order(zero, raw);
    }
    accuracy::law_product_is_accurate(kg, c.wh_per_kg);
}

/// The difference of a power and an approximate demand.
proof fn lemma_surplus(p: Single, demand: Single, d: real)
    requires
        p.finite(),
        demand.finite(),
        accuracy::close(demand.value(), d, accuracy::half_ulp(), accuracy::speck()),
        accuracy::dist(p.value()) + accuracy::dist(d) <= accuracy::ample() / 16real,
    ensures
        p.fsub(demand).finite(),
        accuracy::dist(p.fsub(demand).value() - (p.value() - d)) <= (accuracy::dist(p.value())
            + accuracy::dist(d)) * accuracy::steps(2) + 2real * accuracy::speck(),
{
    let h = accuracy::half_ulp();
    let t = accuracy::speck();
    let v = p.value();
    let w = demand.value();
    let a = accuracy::dist(v);
    let b = accuracy::dist(d);
    accuracy::lemma_ample();
    let off = accuracy::dist(w - d);
    assert(b * h <= b) by (nonlinear_arith)
        requires
            b >= 0real,
            h == 1real / 16777216real,
    ;
    accuracy::law_difference_is_accurate(p, demand);
    let room = accuracy::dist(v - w);
    assert(room <= a + b + off);
    accuracy::lemma_half_ulp(room);
    accuracy::lemma_half_ulp(b);
    accuracy::lemma_steps_of(a + b, 2, 2real);
}

/// A tick takes time, and its numbers are finite and far from overflow.
pub open spec fn is_heatable(before: SteamBoiler, power_w: Single, dt: Span) -> bool {
    let demand = exact_demand_kg_h(before.demand_source@.cached) * before.cfg.wh_per_kg.value();
    let heat = accuracy::dist(power_w.value()) + accuracy::dist(demand);
    let s = dt.exact_seconds();
    let cap = before.cfg.capacity_wh_per_bar.value();
    &&& dt.wf()
    &&& dt.total() > 0
    &&& before.pressure_bar.finite()
    &&& before.cfg.target_bar.finite() && before.cfg.max_bar.finite()
    &&& before.cfg.wh_per_kg.finite() && before.cfg.capacity_wh_per_bar.finite()
    &&& cap > 0real
    &&& power_w.finite()
    &&& accuracy::dist(before.pressure_bar.value()) <= accuracy::ample() / 16real
    &&& heat <= accuracy::ample() / 16real
    &&& heat * s <= accuracy::ample() / 16real
    &&& heat * s / 3600real / cap <= accuracy::ample() / 16real
}

/// The pressure after a tick at a power: it has moved by
/// `(power - demand) * dt / 3600 / capacity` bar, between the target and the
/// maximum.
pub open spec fn pressure_shows(
    before: SteamBoiler,
    pressure_bar: Single,
    power_w: Single,
    dt: Span,
) -> bool {
    let power = power_w.value();
    let demand = exact_demand_kg_h(before.demand_source@.cached) * before.cfg.wh_per_kg.value();
    let heat = accuracy::dist(power) + accuracy::dist(demand);
    let s = dt.exact_seconds();
    let cap = before.cfg.capacity_wh_per_bar.value();
    let due = before.pressure_bar.value() + (power - demand) * s / 3600real / cap;
    &&& pressure_bar.finite()
    &&& accuracy::dist(
        pressure_bar.value() - accuracy::limited(
            due,
            before.cfg.target_bar.value(),
            before.cfg.max_bar.value(),
        ),
    ) <= accuracy::dist(due) * accuracy::half_ulp() + heat * s / 3600real / cap
        * accuracy::steps(40) + accuracy::speck() * (10real + (10real + s) / cap)
}

/// The pressure moves by the surplus of heat over the capacity: in a tick of
/// `dt` by `(power - demand) * dt / 3600 / capacity` bar, held between the
/// target and the maximum, to the precision of the numbers.
pub proof fn law_pressure_follows_the_surplus(
    before: SteamBoiler,
    after: SteamBoiler,
    now: Timestamp,
    dt: Span,
)
    requires
        before.wf(),
        SteamBoiler::is_tick(before, after, now, dt),
        is_heatable(before, after.active.published, dt),
    ensures
        pressure_shows(before, after.pressure_bar, after.active.published, dt),
{
    let c = before.cfg;
    let p = after.active.published;
    let raw = before.demand_source@.cached;
    let demand = c.demand_w(raw);
    let d = exact_demand_kg_h(raw) * c.wh_per_kg.value();
    let power = p.value();
    let g = power - d;
    let heat = accuracy::dist(power) + accuracy::dist(d);
    let s = dt.exact_seconds();
    let cap = c.capacity_wh_per_bar.value();
    let t = accuracy::speck();
    let hour = Single::lit(crate::decay::SECS_PER_HOUR);
    accuracy::lemma_ample();
    accuracy::lemma_pow2_wide();
    accuracy::lemma_constants();
    accuracy::lemma_val_zero();
    lemma_positive_span(dt);
    accuracy::law_values_keep_order(c.target_bar, c.max_bar);
    accuracy::law_values_keep_order(dt.spec_seconds(), Single::lit(ZERO));
    law_demand_takes_its_heat(c, raw);
    lemma_surplus(p, demand, d);
    let one = accuracy::steps(2);
    let t1 = heat * one + 2real * t;
    assert(accuracy::dist(g) <= heat);
    let diff = accuracy::dist(g);
    assert(diff * s <= heat * s) by (nonlinear_arith)
        requires
            diff <= heat,
            s > 0real,
    ;
    assert(0real <= t * s <= 20real) by (nonlinear_arith)
        requires
            0real < s <= 20000000000000000000real,
            0real < t <= 1real / 1000000000000000000real,
    ;
    let work = heat * s;
    assert(work >= 0real) by (nonlinear_arith)
        requires
            work == heat * s,
            heat >= 0real,
            s > 0real,
    ;
    accuracy::lemma_steps_of(work, 2, 2real);
    assert(t1 * s == work * one + 2real * (t * s)) by (nonlinear_arith)
        requires
            t1 == heat * one + 2real * t,
            work == heat * s,
    ;
    accuracy::lemma_step_seconds(p.fsub(demand), dt, g, t1);
    let x1 = p.fsub(demand).fmul(dt.spec_seconds());
    let y1 = g * s;
    let e1 = 2real * (t1 * s) + t;
    // per hour
    accuracy::lemma_dist_product(g, s);
    assert(accuracy::dist(y1) == diff * s);
    assert(accuracy::dist(y1 / 3600real) == accuracy::dist(y1) / 3600real) by (nonlinear_arith);
    assert(t1 * s >= 0real) by (nonlinear_arith)
        requires
            t1 >= 0real,
            s >= 0real,
    ;
    assert(0real <= e1 / 3600real <= e1 / 2real) by (nonlinear_arith)
        requires
            e1 >= 0real,
    ;
    accuracy::lemma_step_over(x1, hour, y1, 5, e1);
    let x2 = x1.fdiv(hour);
    let y2 = y1 / 3600real;
    let e2 = 2real * (e1 / 3600real) + t;
    // per bar
    accuracy::lemma_below_a_unit(c.capacity_wh_per_bar);
    let inv = 1real / cap;
    let unit = heat * s / 3600real / cap;
    let q = t * inv;
    assert(inv > 0real && 0real <= q <= 1real / 2real) by (nonlinear_arith)
        requires
            inv == 1real / cap,
            cap >= 2real * t,
            t > 0real,
            q == t * inv,
    {
        assert(cap * inv == 1real);
        assert(t * inv <= (cap / 2real) * inv);
    }
    assert(accuracy::dist(y2 / cap) <= unit) by {
        accuracy::lemma_dist_product(y2, inv);
        assert(y2 / cap == y2 * inv && accuracy::dist(y2) * inv <= (heat * s / 3600real) * inv
            && (heat * s / 3600real) * inv == unit) by (nonlinear_arith)
            requires
                inv == 1real / cap,
                cap > 0real,
                inv > 0real,
                accuracy::dist(y2) == diff * s / 3600real,
                diff * s <= heat * s,
                unit == heat * s / 3600real / cap,
        ;
    }
    let e3 = e2 / cap;
    assert(e3 == e2 * inv) by (nonlinear_arith)
        requires
            e3 == e2 / cap,
            inv == 1real / cap,
            cap > 0real,
    ;
    assert(unit == work / 3600real * inv) by (nonlinear_arith)
        requires
            unit == work / 3600real / cap,
            inv == 1real / cap,
            cap > 0real,
    ;
    let ws = work * one;
    let ts = t * s;
    assert(e2 == (4real * ws + 8real * ts + 2real * t) / 3600real + t);
    assert(e2 * inv == (4real * (ws * inv) + 8real * (ts * inv) + 2real * q) / 3600real + q)
        by (nonlinear_arith)
        requires
            e2 == (4real * ws + 8real * ts + 2real * t) / 3600real + t,
            q == t * inv,
    ;
    assert(ws * inv / 3600real == unit * one) by (nonlinear_arith)
        requires
            ws == work * one,
            unit == work / 3600real * inv,
    ;
    assert(ts * inv == q * s) by (nonlinear_arith)
        requires
            ts == t * s,
            q == t * inv,
    ;
    assert(0real <= q * s <= 10000000000000000000real) by (nonlinear_arith)
        requires
            0real <= q <= 1real / 2real,
            0real < s <= 20000000000000000000real,
    ;
    accuracy::lemma_steps_of(unit, 2, 2real);
    assert(unit >= 0real) by (nonlinear_arith)
        requires
            unit == work / 3600real * inv,
            work >= 0real,
            inv > 0real,
    ;
    accuracy::lemma_step_over(x2, c.capacity_wh_per_bar, y2, 6, e2);
    let x3 = x2.fdiv(c.capacity_wh_per_bar);
    let y3 = y2 / cap;
    let e4 = 2real * e3 + t;
    accuracy::lemma_stays_ample(x3.value(), y3, 7, e4, accuracy::ample() / 2real);
    let pressure = before.pressure_bar;
    accuracy::law_sum_is_accurate(pressure, x3);
    let sum = pressure.fadd(x3);
    accuracy::lemma_sum_error(pressure.value(), x3.value(), y3, sum.value(), 7, e4);
    crate::charge_laws::law_clamp_limits_the_value(sum, c.target_bar, c.max_bar);
    let w = accuracy::dist(y3);
    accuracy::lemma_steps_of(w, 8, 8real);
    accuracy::lemma_steps_of(unit, 40, 40real);
    accuracy::lemma_steps_of(unit, 2, 2real);
    assert(t * (10real + (10real + s) / cap) == 10real * t + 10real * q + q * s)
        by (nonlinear_arith)
        requires
            q == t * inv,
            inv == 1real / cap,
            cap > 0real,
    {
        assert((10real + s) / cap == (10real + s) * inv);
    }
}

/// A span that is not zero is a positive number of seconds.
pub(crate) proof fn lemma_positive_span(dt: Span)
    requires
        dt.wf(),
        dt.total() > 0,
    ensures
        dt.spec_seconds().finite(),
        dt.spec_seconds().value() > 0real,
        0real < dt.exact_seconds() <= 20000000000000000000real,
{
    let n = dt.total() as real;
    let x = dt.exact_seconds();
    accuracy::law_seconds_are_accurate(dt);
    assert(n <= 20000000000000000000000000000real);
    assert(0real < x <= 20000000000000000000real) by (nonlinear_arith)
        requires
            1real <= n <= 20000000000000000000000000000real,
            x == n / 1000000000real,
    ;
    let v = dt.spec_seconds().value();
    assert(v > 0real) by (nonlinear_arith)
        requires
            x - v <= x * accuracy::steps(4),
            accuracy::steps(4) == 4real / 8388608real,
            x > 0real,
    ;
}

/// At or under the target the boiler wants what the demand takes and what
/// closes the gap within the tick, `(target - pressure) * capacity * 3600 /
/// dt`, up to its rating, to the precision of the numbers.
pub proof fn law_need_closes_the_gap(
    c: SteamBoilerConfig,
    pressure: Single,
    demand_w: Single,
    dt: Span,
)
    requires
        dt.wf(),
        dt.total() > 0,
        pressure.finite(),
        demand_w.finite(),
        c.target_bar.finite(),
        c.capacity_wh_per_bar.finite(),
        c.rated_upper_w.finite(),
        pressure.value() <= c.target_bar.value(),
        accuracy::dist(c.target_bar.value() - pressure.value()) <= accuracy::ample() / 16real,
        accuracy::dist(
            (c.target_bar.value() - pressure.value()) * c.capacity_wh_per_bar.value(),
        ) <= accuracy::ample() / 100000real,
        accuracy::dist(
            (c.target_bar.value() - pressure.value()) * c.capacity_wh_per_bar.value() * 3600real
                / dt.exact_seconds(),
        ) <= accuracy::ample() / 16real,
        accuracy::dist(demand_w.value()) <= accuracy::ample() / 16real,
    ensures
        ({
            let s = dt.exact_seconds();
            let closing = (c.target_bar.value() - pressure.value())
                * c.capacity_wh_per_bar.value() * 3600real / s;
            let wanted = demand_w.value() + closing;
            let need = c.need_w(pressure, demand_w, dt.spec_seconds());
            &&& need.finite()
            &&& accuracy::dist(
                need.value() - accuracy::lesser(wanted, c.rated_upper_w.value()),
            ) <= accuracy::dist(wanted) * accuracy::half_ulp() + accuracy::dist(closing)
                * accuracy::steps(11) + accuracy::speck() * (2real + 300000real / s)
        }),
{
    let target = c.target_bar;
    let cap = c.capacity_wh_per_bar;
    let hour = Single::lit(crate::decay::SECS_PER_HOUR);
    let gap = target.value() - pressure.value();
    let s = dt.exact_seconds();
    let t = accuracy::speck();
    let k = accuracy::dist(cap.value());
    accuracy::lemma_ample();
    accuracy::lemma_pow2_wide();
    accuracy::lemma_constants();
    lemma_positive_span(dt);
    lemma_least_span(dt);
    accuracy::law_seconds_are_accurate(dt);
    accuracy::law_values_keep_order(pressure, target);
    accuracy::law_difference_is_accurate(target, pressure);
    accuracy::lemma_one_step(target.fsub(pressure).value(), gap, 0real);
    assert(0real * k == 0real) by (nonlinear_arith);
    accuracy::lemma_step_times(target.fsub(pressure), cap, gap, 1, 0real);
    let x1 = target.fsub(pressure).fmul(cap);
    let y1 = gap * cap.value();
    accuracy::lemma_dist_product(y1, 3600real);
    accuracy::lemma_step_times(x1, hour, y1, 2, t);
    let x2 = x1.fmul(hour);
    let y2 = y1 * 3600real;
    let e2 = 2real * (t * 3600real) + t;
    let inv = 1real / s;
    reals::lemma_quotient(1real, s);
    assert(inv <= 1000000000real) by {
        reals::lemma_scales(1real / 1000000000real, s, 1000000000real);
        reals::lemma_cancels(inv, 1000000000real, s);
    }
    reals::lemma_inverse(s);
    reals::lemma_over_is_times(e2, s);
    let ti = t * inv;
    assert(e2 * inv == 7201real * ti) by (nonlinear_arith)
        requires
            e2 == 7201real * t,
            ti == t * inv,
    ;
    reals::lemma_scales(inv, 1000000000real, t);
    reals::lemma_product_sign(t, inv);
    accuracy::lemma_step_ratio(x2, dt.spec_seconds(), y2, s, 3, 4, e2);
    let rec = x2.fdiv(dt.spec_seconds());
    let closing = y2 / s;
    let e3 = 4real * (e2 / s) + t;
    accuracy::lemma_stays_ample(rec.value(), closing, 10, e3, accuracy::ample() / 2real);
    accuracy::law_sum_is_accurate(demand_w, rec);
    let sum = demand_w.fadd(rec);
    accuracy::lemma_sum_error(demand_w.value(), rec.value(), closing, sum.value(), 10, e3);
    accuracy::law_values_keep_order(c.rated_upper_w, sum);
    accuracy::law_values_keep_order(sum, c.rated_upper_w);
    reals::lemma_over_is_times(300000real, s);
    reals::lemma_distributes(2real, 300000real * inv, t);
    reals::lemma_commutes(300000real * inv, t);
    assert(t * (300000real * inv) == 300000real * ti) by (nonlinear_arith)
        requires
            ti == t * inv,
    ;
}

/// A span that is not zero is at least a nanosecond.
proof fn lemma_least_span(dt: Span)
    requires
        dt.wf(),
        dt.total() > 0,
    ensures
        dt.exact_seconds() >= 1real / 1000000000real,
{
    let n = dt.total() as real;
    assert(n >= 1real);
}

} // verus!
