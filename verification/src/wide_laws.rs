//! Energies, averages and statistics, in real numbers.

use crate::accuracy;
use crate::double::{Double, DTWO, DZERO};
use crate::energy::{EnergyAccum, MS_PER_HOUR};
use crate::reals;
use crate::scenario::{BatteryTotals, WindowTotals};
use crate::single::Single;
use crate::wide_accuracy;
use vstd::arithmetic::div_mod::*;
use vstd::arithmetic::power2::*;
use vstd::prelude::*;

verus! {

/// Multiplying an approximate value by an approximate one.
proof fn lemma_wide_product(a: Double, b: Double, x: real, y: real, n: nat, m: nat, t: real)
    requires
        a.finite(),
        b.finite(),
        accuracy::close(a.value(), x, accuracy::steps(n), t),
        accuracy::close(b.value(), y, accuracy::steps(m), 0real),
        n <= 400,
        m <= 400,
        t >= 0real,
        2real * accuracy::dist(x * y) + 2real * (t * accuracy::dist(y)) <= accuracy::ample(),
    ensures
        a.dmul(b).finite(),
        accuracy::close(
            a.dmul(b).value(),
            x * y,
            accuracy::steps(n + m + 2),
            4real * (t * accuracy::dist(y)) + accuracy::speck(),
        ),
{
    let v = a.value();
    let w = b.value();
    let d = accuracy::dist(y);
    accuracy::lemma_scaled(w, y, accuracy::steps(m), 0real, v);
    reals::lemma_commutes(v, w);
    reals::lemma_commutes(v, y);
    reals::lemma_zero(accuracy::dist(v));
    accuracy::lemma_scaled(v, x, accuracy::steps(n), t, y);
    reals::lemma_product_sign(t, d);
    accuracy::lemma_after(v * w, v * y, x * y, n, m, t * d);
    accuracy::lemma_stays_ample(
        v * w,
        x * y,
        n + m + 1,
        2real * (t * d),
        accuracy::ample(),
    );
    wide_accuracy::law_wide_product_is_accurate(a, b);
    wide_accuracy::lemma_wide_speck();
    accuracy::lemma_then(
        a.dmul(b).value(),
        v * w,
        x * y,
        n + m + 1,
        2real * (t * d),
        accuracy::speck(),
    );
}

/// Dividing an approximate value by an approximate one.
proof fn lemma_wide_ratio(a: Double, b: Double, x: real, y: real, n: nat, m: nat, t: real)
    requires
        a.finite(),
        b.finite(),
        y != 0real,
        accuracy::close(a.value(), x, accuracy::steps(n), t),
        accuracy::close(b.value(), y, accuracy::steps(m), 0real),
        n <= 400,
        m <= 400,
        t >= 0real,
        2real * accuracy::dist(x / y) + 2real * (t / accuracy::dist(y)) <= accuracy::ample(),
    ensures
        b.value() != 0real,
        a.ddiv(b).finite(),
        accuracy::close(
            a.ddiv(b).value(),
            x / y,
            accuracy::steps(n + m + 3),
            4real * (t / accuracy::dist(y)) + accuracy::speck(),
        ),
{
    let v = a.value();
    let w = b.value();
    accuracy::lemma_divisor(v, w, y, m);
    accuracy::lemma_scaled(v, x, accuracy::steps(n), t, y);
    let d = accuracy::dist(y);
    reals::lemma_over_is_times(t, d);
    reals::lemma_inverse(d);
    reals::lemma_product_sign(t, 1real / d);
    accuracy::lemma_after(v / w, v / y, x / y, n, m + 1, t / d);
    accuracy::lemma_stays_ample(
        v / w,
        x / y,
        n + m + 2,
        2real * (t / d),
        accuracy::ample(),
    );
    wide_accuracy::law_wide_quotient_is_accurate(a, b);
    wide_accuracy::lemma_wide_speck();
    accuracy::lemma_then(
        a.ddiv(b).value(),
        v / w,
        x / y,
        n + m + 2,
        2real * (t / d),
        accuracy::speck(),
    );
}

/// A bit pattern of a whole number.
proof fn lemma_wide_constant(bits: u64, field: nat, v: nat)
    requires
        1023 <= field <= 1075,
        field * 0x10_0000_0000_0000 <= bits < (field + 1) * 0x10_0000_0000_0000,
        bits - (field - 1) * 0x10_0000_0000_0000 == v * pow2((1075 - field) as nat),
    ensures
        Double::lit(bits).finite(),
        Double::lit(bits).value() == v as real,
{
    let k = (field - 1) as nat;
    let c = bits as nat;
    crate::double::lemma_double_sizes();
    lemma2_to64_rest();
    lemma_fundamental_div_mod_converse(
        c as int,
        0x10_0000_0000_0000,
        field as int,
        c - field * 0x10_0000_0000_0000,
    );
    assert(pow2((53 - 1) as nat) == 0x10_0000_0000_0000);
    assert(c / 0x10_0000_0000_0000 == field);
    assert(c < 1076 * 0x10_0000_0000_0000);
    let sig = (c - k * 0x10_0000_0000_0000) as nat;
    let a = Double::lit(bits);
    assert(crate::rounding::code_mag(53, c) == sig * pow2(k));
    lemma_pow2_adds((1075 - field) as nat, k);
    assert((1075 - field) as nat + k == 1074);
    lemma_pow2_pos(1074);
    let w = pow2((1075 - field) as nat);
    assert(sig * pow2(k) == v * pow2(1074)) by (nonlinear_arith)
        requires
            sig == v * w,
            pow2(1074) == w * pow2(k),
    ;
    assert(a.units() == v * pow2(1074));
    let u = pow2(1074) as real;
    assert((v * pow2(1074)) as real == v as real * u) by (nonlinear_arith)
        requires
            u == pow2(1074) as real,
    ;
    reals::lemma_quotient(v as real * u, u);
    reals::lemma_cancels((v as real * u) / u, v as real, u);
}

/// The energy under the line from one power to the next, exactly.
pub open spec fn exact_trapezoid(a: real, b: real, dt_ms: nat) -> real {
    (a + b) / 2real * (dt_ms as real / 3600000real)
}

/// The energy between two samples is the mean power times the hours between
/// them, to the precision of the numbers.
pub proof fn law_trapezoid_is_mean_power_times_time(a: Single, b: Single, dt_ms: nat)
    requires
        a.finite(),
        b.finite(),
        dt_ms <= u64::MAX,
        accuracy::dist(a.value()) + accuracy::dist(b.value()) <= accuracy::ample()
            / 10000000000000000000real,
    ensures
        ({
            let hours = dt_ms as real / 3600000real;
            let sum = accuracy::dist(a.value()) + accuracy::dist(b.value());
            let r = crate::energy::trapezoid(a, b, dt_ms);
            &&& r.finite()
            &&& accuracy::dist(
                r.value() - exact_trapezoid(a.value(), b.value(), dt_ms),
            ) <= sum * hours * accuracy::steps(20) + accuracy::speck() * (2real + 40real * hours)
        }),
{
    let x = a.value();
    let y = b.value();
    let sum = accuracy::dist(x) + accuracy::dist(y);
    let t = accuracy::speck();
    let n = dt_ms as real;
    let hour = Double::lit(MS_PER_HOUR);
    let two = Double::lit(DTWO);
    let hours = n / 3600000real;
    accuracy::lemma_ample();
    accuracy::lemma_pow2_wide();
    wide_accuracy::lemma_wide_speck();
    lemma2_to64();
    lemma2_to64_rest();
    assert(pow2(51) == 0x8_0000_0000_0000);
    assert((1075 - 1024) as nat == 51);
    lemma_wide_constant(DTWO, 1024, 2);
    lemma_hours(dt_ms);
    let span = Double::dint(dt_ms).ddiv(hour);
    // the mean power
    wide_accuracy::law_widening_is_accurate(a);
    wide_accuracy::law_widening_is_accurate(b);
    let aw = a.widened();
    let bw = b.widened();
    accuracy::lemma_half_ulp(accuracy::dist(x));
    accuracy::lemma_half_ulp(accuracy::dist(y));
    wide_accuracy::law_wide_sum_is_accurate(aw, bw);
    let both = aw.dadd(bw);
    accuracy::lemma_half_ulp(accuracy::dist(aw.value() + bw.value()));
    let e = sum / 4194304real + 4real * t;
    assert(accuracy::dist(both.value() - (x + y)) <= e);
    wide_accuracy::law_wide_quotient_is_accurate(both, two);
    let mean = both.ddiv(two);
    let exact = (x + y) / 2real;
    accuracy::lemma_half_ulp(accuracy::dist(both.value() / 2real));
    let off = accuracy::dist(mean.value() - exact);
    assert(off <= sum / 4194304real + 4real * t);
    // the product
    let m = mean.value();
    accuracy::lemma_exact_is_close(m);
    reals::lemma_zero(accuracy::dist(hours));
    let dm = accuracy::dist(m);
    assert(dm <= 2real * sum + 4real * t);
    accuracy::lemma_dist_product(m, hours);
    reals::lemma_scales(dm, 2real * sum + 4real * t, hours);
    reals::lemma_scales(hours, 20000000000000real, 2real * sum + 4real * t);
    reals::lemma_commutes(2real * sum + 4real * t, hours);
    lemma_wide_product(mean, span, m, hours, 0, 5, 0real);
    let r = mean.dmul(span).value();
    accuracy::lemma_steps_of(accuracy::dist(m * hours), 7, 7real);
    reals::lemma_distributes(m, exact, hours);
    accuracy::lemma_dist_product(m - exact, hours);
    reals::lemma_scales(off, sum / 4194304real + 4real * t, hours);
    reals::lemma_distributes(2real * sum, 4real * t, hours);
    reals::lemma_distributes(sum / 4194304real, 4real * t, hours);
    reals::lemma_associates(2real, sum, hours);
    reals::lemma_associates(4real, t, hours);
    let sh = sum * hours;
    assert((sum / 4194304real) * hours == sh / 4194304real) by (nonlinear_arith)
        requires
            sh == sum * hours,
    ;
    accuracy::lemma_steps_of(sh, 20, 20real);
    reals::lemma_distributes(2real, 40real * hours, t);
    assert(t * (40real * hours) == 40real * (t * hours)) by (nonlinear_arith);
    reals::lemma_product_sign(t, hours);
    assert(crate::energy::trapezoid(a, b, dt_ms) == mean.dmul(span));
}

/// Milliseconds in hours.
proof fn lemma_hours(dt_ms: nat)
    requires
        dt_ms <= u64::MAX,
    ensures
        ({
            let span = Double::dint(dt_ms).ddiv(Double::lit(MS_PER_HOUR));
            let hours = dt_ms as real / 3600000real;
            &&& 0real <= hours <= 20000000000000real
            &&& span.finite()
            &&& accuracy::close(span.value(), hours, accuracy::steps(5), 0real)
        }),
{
    let n = dt_ms as real;
    let hour = Double::lit(MS_PER_HOUR);
    let hours = n / 3600000real;
    let t = accuracy::speck();
    let whole = Double::dint(dt_ms);
    accuracy::lemma_ample();
    accuracy::lemma_pow2_wide();
    wide_accuracy::lemma_wide_speck();
    lemma2_to64();
    lemma2_to64_rest();
    assert(pow2(31) == 0x8000_0000);
    assert(0x414b_7740_0000_0000 - 1043 * 0x10_0000_0000_0000 == 3600000 * 0x8000_0000int);
    assert((1075 - 1044) as nat == 31);
    lemma_wide_constant(MS_PER_HOUR, 1044, 3600000);
    wide_accuracy::law_wide_integer_is_accurate(dt_ms);
    accuracy::lemma_one_step(whole.value(), n, 0real);
    accuracy::lemma_exact_is_close(3600000real);
    assert(0real <= n <= 20000000000000000000real);
    assert(n / hour.value() == hours);
    lemma_wide_ratio(whole, hour, n, 3600000real, 1, 0, 0real);
    let span = whole.ddiv(hour);
    accuracy::lemma_steps_of(hours, 4, 4real);
    accuracy::lemma_steps_of(hours, 5, 5real);
    if dt_ms == 0 {
        accuracy::lemma_half_ulp(0real);
        assert(whole.value() == 0real);
        assert(whole.value() / hour.value() == 0real);
        wide_accuracy::law_wide_quotient_is_accurate(whole, hour);
        lemma_below_a_wide_unit(span);
    } else {
        assert(n >= 1real);
    }
}

/// A number is a whole number of units, so one nearer to zero than a unit is
/// zero.
proof fn lemma_below_a_wide_unit(a: Double)
    requires
        a.finite(),
        accuracy::dist(a.value()) <= wide_accuracy::wide_speck(),
    ensures
        a.value() == 0real,
{
    let u = pow2(1074) as real;
    let t = wide_accuracy::wide_speck();
    lemma_pow2_pos(1074);
    let n = a.units() as real;
    reals::lemma_quotient(n, u);
    reals::lemma_quotient(1real, 2real * u);
    reals::lemma_associates(2real, t, u);
    assert(t * (2real * u) == 2real * (t * u)) by (nonlinear_arith);
    let v = a.value();
    let d = accuracy::dist(v);
    accuracy::lemma_dist_product(v, u);
    reals::lemma_scales(d, t, u);
    assert(accuracy::dist(n) <= 1real / 2real);
    assert(a.units() == 0);
    wide_accuracy::lemma_wide_speck();
}

/// A sample follows another, with numbers that are finite and far from
/// overflow.
pub open spec fn is_countable(e: EnergyAccum, power_w: Single, ts_ms: i64) -> bool {
    &&& e.last_w is Some
    &&& e.last_w->0.finite() && power_w.finite() && e.total_wh.finite()
    &&& e.last_ts_ms < ts_ms
    &&& accuracy::dist(e.last_w->0.value()) + accuracy::dist(power_w.value()) <= accuracy::ample()
        / 10000000000000000000real
    &&& accuracy::dist(e.total_wh.value()) <= accuracy::ample() / 16real
}

/// The accumulator after a sample: it has grown by the mean of the two powers
/// times the hours between them.
pub open spec fn has_counted(
    e: EnergyAccum,
    power_w: Single,
    ts_ms: i64,
    after: EnergyAccum,
) -> bool {
    let hours = (ts_ms - e.last_ts_ms) as real / 3600000real;
    let last = e.last_w->0.value();
    let next = power_w.value();
    let due = e.total_wh.value() + (last + next) / 2real * hours;
    &&& after.last_w == Some(power_w)
    &&& after.last_ts_ms == ts_ms
    &&& after.total_wh.finite()
    &&& accuracy::dist(after.total_wh.value() - due) <= accuracy::dist(due) * accuracy::half_ulp()
        + (accuracy::dist(last) + accuracy::dist(next)) * hours * accuracy::steps(21)
        + accuracy::speck() * (4real + 80real * hours)
}

/// A sample later than the last adds the energy between the two.
pub proof fn law_energy_adds_up(e: EnergyAccum, power_w: Single, ts_ms: i64)
    requires
        is_countable(e, power_w, ts_ms),
    ensures
        has_counted(e, power_w, ts_ms, e.advanced(power_w, ts_ms)),
{
    let dt = (ts_ms - e.last_ts_ms) as nat;
    let last = e.last_w->0;
    let x = last.value();
    let y = power_w.value();
    let hours = dt as real / 3600000real;
    let sum = accuracy::dist(x) + accuracy::dist(y);
    let t = accuracy::speck();
    accuracy::lemma_ample();
    accuracy::lemma_pow2_wide();
    lemma_hours(dt);
    law_trapezoid_is_mean_power_times_time(last, power_w, dt);
    let step = crate::energy::trapezoid(last, power_w, dt);
    let exact = exact_trapezoid(x, y, dt);
    let off = accuracy::dist(step.value() - exact);
    let sh = sum * hours;
    reals::lemma_scales(hours, 20000000000000real, sum);
    reals::lemma_product_sign(sum, hours);
    accuracy::lemma_steps_of(sh, 20, 20real);
    accuracy::lemma_steps_of(sh, 21, 21real);
    reals::lemma_distributes(2real, 40real * hours, t);
    reals::lemma_distributes(4real, 80real * hours, t);
    assert(t * (40real * hours) == 40real * (t * hours)) by (nonlinear_arith);
    assert(t * (80real * hours) == 80real * (t * hours)) by (nonlinear_arith);
    reals::lemma_scales(hours, 20000000000000real, t);
    reals::lemma_product_sign(t, hours);
    // the exact step is no more than the sum times the hours
    let mean = (x + y) / 2real;
    accuracy::lemma_dist_product(mean, hours);
    reals::lemma_scales(accuracy::dist(mean), sum, hours);
    wide_accuracy::law_wide_sum_is_accurate(e.total_wh, step);
    let due = e.total_wh.value() + exact;
    let room = accuracy::dist(e.total_wh.value() + step.value());
    accuracy::lemma_half_ulp(room);
    accuracy::lemma_half_ulp(accuracy::dist(due));
}

// ---------------------------------------------------------------------------
// Reports

/// The average of a window is the sum of its samples over their number.
pub proof fn law_window_average_is_the_mean(w: WindowTotals)
    requires
        w.count > 0,
        w.sum_w.finite(),
        accuracy::dist(w.sum_w.value()) <= accuracy::ample() / 4real,
    ensures
        crate::scenarios::window_average(w).finite(),
        accuracy::close(
            crate::scenarios::window_average(w).value(),
            w.sum_w.value() / w.count as real,
            accuracy::steps(4),
            accuracy::speck(),
        ),
{
    let n = w.count as real;
    let x = w.sum_w.value();
    wide_accuracy::law_wide_integer_is_accurate(w.count as nat);
    accuracy::lemma_one_step(Double::dint(w.count as nat).value(), n, 0real);
    accuracy::lemma_exact_is_close(x);
    reals::lemma_over_is_times(0real, n);
    reals::lemma_zero(1real / n);
    let q = x / n;
    reals::lemma_quotient(x, n);
    accuracy::lemma_dist_product(q, n);
    reals::lemma_scales(1real, n, accuracy::dist(q));
    reals::lemma_zero(accuracy::dist(q));
    lemma_wide_ratio(w.sum_w, Double::dint(w.count as nat), x, n, 0, 1, 0real);
}

/// A sum, exactly.
pub open spec fn exact_total(s: Seq<real>) -> real
    decreases s.len(),
{
    if s.len() == 0 {
        0real
    } else {
        exact_total(s.drop_last()) + s.last()
    }
}

/// The sum of the distances from zero, exactly.
pub open spec fn exact_reach(s: Seq<real>) -> real
    decreases s.len(),
{
    if s.len() == 0 {
        0real
    } else {
        exact_reach(s.drop_last()) + accuracy::dist(s.last())
    }
}

pub(crate) proof fn lemma_reach(s: Seq<real>)
    ensures
        accuracy::dist(exact_total(s)) <= exact_reach(s),
        exact_reach(s) >= 0real,
        s.len() > 0 ==> exact_reach(s.drop_last()) <= exact_reach(s),
    decreases s.len(),
{
    if s.len() > 0 {
        lemma_reach(s.drop_last());
    }
}

/// `sum` is the total of the terms as nearly as adding them up one by one, each
/// off by `j` steps at most, gives it.
pub open spec fn adds_up(sum: real, terms: Seq<real>, j: nat) -> bool {
    accuracy::dist(sum - exact_total(terms)) <= exact_reach(terms) * accuracy::steps(
        (j + 1) * terms.len(),
    ) + (2 * terms.len()) as real * accuracy::speck()
}

/// A sum of single- or double-precision numbers stays within range.
pub(crate) proof fn lemma_adds_up_ample(sum: real, terms: Seq<real>, j: nat)
    requires
        adds_up(sum, terms, j),
        terms.len() <= 1000,
        j <= 20,
        exact_reach(terms) <= accuracy::ample() / 16real,
    ensures
        accuracy::dist(sum) <= accuracy::ample() / 4real,
{
    let r = exact_reach(terms);
    let n = (j + 1) * terms.len();
    let t = accuracy::speck();
    accuracy::lemma_ample();
    lemma_reach(terms);
    assert(0 <= n <= 21000) by (nonlinear_arith)
        requires
            n == (j + 1) * terms.len(),
            0 <= j <= 20,
            0 <= terms.len() <= 1000,
    ;
    accuracy::lemma_steps_of(r, n, n as real);
    reals::lemma_scales(n as real, 21000real, r);
    reals::lemma_scales((2 * terms.len()) as real, 2000real, t);
}

pub(crate) proof fn lemma_empty_sum(sum: real, terms: Seq<real>, j: nat)
    requires
        terms.len() == 0,
        sum == 0real,
    ensures
        adds_up(sum, terms, j),
{
    reals::lemma_zero(accuracy::steps((j + 1) * terms.len()));
    reals::lemma_zero(accuracy::speck());
}

/// One more term.
pub(crate) proof fn lemma_added_term(
    sum: real,
    before: real,
    term: real,
    terms: Seq<real>,
    j: nat,
)
    requires
        terms.len() > 0,
        terms.len() <= 1000,
        j <= 20,
        adds_up(before, terms.drop_last(), j),
        accuracy::close(term, terms.last(), accuracy::steps(j), accuracy::speck()),
        accuracy::close(sum, before + term, accuracy::half_ulp(), 0real),
    ensures
        adds_up(sum, terms, j),
{
    let rest = terms.drop_last();
    lemma_reach(rest);
    accuracy::lemma_ample();
    accuracy::lemma_fold_step(
        sum,
        before,
        exact_total(rest),
        exact_reach(rest),
        term,
        terms.last(),
        rest.len(),
        j,
        accuracy::speck(),
    );
}

/// The energies that batteries charged.
pub open spec fn charges(per: Seq<(u64, BatteryTotals)>) -> Seq<real> {
    per.map_values(|x: (u64, BatteryTotals)| x.1.charge_wh.value())
}

/// The energies that batteries discharged.
pub open spec fn discharges(per: Seq<(u64, BatteryTotals)>) -> Seq<real> {
    per.map_values(|x: (u64, BatteryTotals)| x.1.discharge_wh.value())
}

/// The energies that arrays produced.
pub open spec fn yields(per: Seq<(u64, Double)>) -> Seq<real> {
    per.map_values(|x: (u64, Double)| x.1.value())
}

/// The reported totals are the sums over the batteries: of what they charged,
/// and of what they discharged.
pub proof fn law_battery_totals_add_up(per: Seq<(u64, BatteryTotals)>)
    requires
        per.len() <= 1000,
        forall|i: int|
            0 <= i < per.len() ==> (#[trigger] per[i]).1.charge_wh.finite()
                && per[i].1.discharge_wh.finite(),
        exact_reach(charges(per)) <= accuracy::ample() / 16real,
        exact_reach(discharges(per)) <= accuracy::ample() / 16real,
    ensures
        crate::scenarios::charged_sum(per).finite(),
        crate::scenarios::discharged_sum(per).finite(),
        adds_up(crate::scenarios::charged_sum(per).value(), charges(per), 0),
        adds_up(crate::scenarios::discharged_sum(per).value(), discharges(per), 0),
    decreases per.len(),
{
    let zero = Double::lit(DZERO);
    wide_accuracy::lemma_wide_zero(zero);
    accuracy::lemma_ample();
    lemma_reach(charges(per));
    lemma_reach(discharges(per));
    if per.len() == 0 {
        lemma_empty_sum(0real, charges(per), 0);
        lemma_empty_sum(0real, discharges(per), 0);
    } else {
        let rest = per.drop_last();
        assert(charges(per).drop_last() =~= charges(rest));
        assert(discharges(per).drop_last() =~= discharges(rest));
        assert forall|i: int| 0 <= i < rest.len() implies (#[trigger] rest[i]).1.charge_wh.finite()
            && rest[i].1.discharge_wh.finite() by {
            assert(rest[i] == per[i]);
        }
        law_battery_totals_add_up(rest);
        let c = per.last().1.charge_wh;
        let d = per.last().1.discharge_wh;
        assert(per[per.len() - 1].1.charge_wh.finite());
        let before_c = crate::scenarios::charged_sum(rest);
        let before_d = crate::scenarios::discharged_sum(rest);
        lemma_adds_up_ample(before_c.value(), charges(rest), 0);
        lemma_adds_up_ample(before_d.value(), discharges(rest), 0);
        lemma_reach(charges(rest));
        lemma_reach(discharges(rest));
        wide_accuracy::law_wide_sum_is_accurate(before_c, c);
        wide_accuracy::law_wide_sum_is_accurate(before_d, d);
        accuracy::lemma_exact_is_close(c.value());
        accuracy::lemma_exact_is_close(d.value());
        lemma_added_term(
            before_c.dadd(c).value(),
            before_c.value(),
            c.value(),
            charges(per),
            0,
        );
        lemma_added_term(
            before_d.dadd(d).value(),
            before_d.value(),
            d.value(),
            discharges(per),
            0,
        );
    }
}

/// The reported production is the sum over the arrays.
pub proof fn law_production_adds_up(per: Seq<(u64, Double)>)
    requires
        per.len() <= 1000,
        forall|i: int| 0 <= i < per.len() ==> (#[trigger] per[i]).1.finite(),
        exact_reach(yields(per)) <= accuracy::ample() / 16real,
    ensures
        crate::scenarios::produced_sum(per).finite(),
        adds_up(crate::scenarios::produced_sum(per).value(), yields(per), 0),
    decreases per.len(),
{
    let zero = Double::lit(DZERO);
    wide_accuracy::lemma_wide_zero(zero);
    accuracy::lemma_ample();
    lemma_reach(yields(per));
    if per.len() == 0 {
        lemma_empty_sum(0real, yields(per), 0);
    } else {
        let rest = per.drop_last();
        assert(yields(per).drop_last() =~= yields(rest));
        assert forall|i: int| 0 <= i < rest.len() implies (#[trigger] rest[i]).1.finite() by {
            assert(rest[i] == per[i]);
        }
        law_production_adds_up(rest);
        let c = per.last().1;
        assert(per[per.len() - 1].1.finite());
        let before = crate::scenarios::produced_sum(rest);
        lemma_adds_up_ample(before.value(), yields(rest), 0);
        lemma_reach(yields(rest));
        wide_accuracy::law_wide_sum_is_accurate(before, c);
        accuracy::lemma_exact_is_close(c.value());
        lemma_added_term(before.dadd(c).value(), before.value(), c.value(), yields(per), 0);
    }
}

/// The states of charge, exactly.
pub open spec fn levels(s: Seq<Single>) -> Seq<real> {
    s.map_values(|x: Single| x.value())
}

proof fn lemma_wide_sum_adds_up(s: Seq<Single>)
    requires
        s.len() <= 1000,
        forall|i: int| 0 <= i < s.len() ==> (#[trigger] s[i]).finite(),
        exact_reach(levels(s)) <= accuracy::ample() / 16real,
    ensures
        crate::soc_stats::wide_sum(s).finite(),
        adds_up(crate::soc_stats::wide_sum(s).value(), levels(s), 1),
    decreases s.len(),
{
    let zero = Double::lit(crate::double::DSIGN);
    wide_accuracy::lemma_wide_zero(zero);
    wide_accuracy::lemma_wide_speck();
    accuracy::lemma_ample();
    lemma_reach(levels(s));
    if s.len() == 0 {
        lemma_empty_sum(0real, levels(s), 1);
    } else {
        let rest = s.drop_last();
        assert(levels(s).drop_last() =~= levels(rest));
        assert forall|i: int| 0 <= i < rest.len() implies (#[trigger] rest[i]).finite() by {
            assert(rest[i] == s[i]);
        }
        lemma_wide_sum_adds_up(rest);
        let c = s.last();
        assert(s[s.len() - 1].finite());
        let before = crate::soc_stats::wide_sum(rest);
        lemma_adds_up_ample(before.value(), levels(rest), 1);
        lemma_reach(levels(rest));
        wide_accuracy::law_widening_is_accurate(c);
        accuracy::lemma_one_step(c.widened().value(), c.value(), wide_accuracy::wide_speck());
        accuracy::lemma_steps_of(accuracy::dist(c.value()), 1, 1real);
        wide_accuracy::law_wide_sum_is_accurate(before, c.widened());
        lemma_added_term(
            before.dadd(c.widened()).value(),
            before.value(),
            c.widened().value(),
            levels(s),
            1,
        );
    }
}

/// The mean state of charge is the sum over the batteries by their number, to
/// the precision of adding them up one by one.
pub proof fn law_mean_is_the_sum_by_the_number(s: Seq<Single>)
    requires
        0 < s.len() <= 200,
        forall|i: int| 0 <= i < s.len() ==> (#[trigger] s[i]).finite(),
        exact_reach(levels(s)) <= accuracy::ample() / 1000real,
    ensures
        ({
            let n = s.len() as real;
            let total = exact_total(levels(s));
            let mean = crate::soc_stats::wide_sum(s).ddiv(Double::dint(s.len()));
            let error = exact_reach(levels(s)) * accuracy::steps(2 * s.len()) + (2 * s.len())
                as real * accuracy::speck();
            &&& mean.finite()
            &&& accuracy::close(
                mean.value(),
                total / n,
                accuracy::steps(4),
                4real * (error / n) + accuracy::speck(),
            )
        }),
{
    let n = s.len() as real;
    let count = Double::dint(s.len());
    let terms = levels(s);
    let total = exact_total(terms);
    let sum = crate::soc_stats::wide_sum(s);
    let t = accuracy::speck();
    let r = exact_reach(terms);
    let error = r * accuracy::steps(2 * s.len()) + (2 * s.len()) as real * t;
    accuracy::lemma_ample();
    lemma_reach(terms);
    lemma_wide_sum_adds_up(s);
    assert((1 + 1) * terms.len() == 2 * s.len());
    wide_accuracy::law_wide_integer_is_accurate(s.len());
    accuracy::lemma_one_step(count.value(), n, 0real);
    accuracy::lemma_steps_of(r, 2 * s.len(), 2real * n);
    reals::lemma_scales(2real * n, 400real, r);
    reals::lemma_scales((2 * s.len()) as real, 400real, t);
    reals::lemma_product_sign(2real * n, r);
    reals::lemma_product_sign((2 * s.len()) as real, t);
    accuracy::lemma_steps_of(accuracy::dist(total), 0, 0real);
    reals::lemma_zero(accuracy::dist(total));
    assert(accuracy::close(sum.value(), total, accuracy::steps(0), error));
    lemma_smaller(total, n);
    lemma_smaller(error, n);
    lemma_wide_ratio(sum, count, total, n, 0, 1, error);
}

/// Dividing by a whole number brings a value no further from zero.
pub(crate) proof fn lemma_smaller(x: real, n: real)
    requires
        n >= 1real,
    ensures
        accuracy::dist(x / n) <= accuracy::dist(x),
        x >= 0real ==> x / n <= x,
{
    let q = x / n;
    reals::lemma_quotient(x, n);
    accuracy::lemma_dist_product(q, n);
    reals::lemma_scales(1real, n, accuracy::dist(q));
    reals::lemma_zero(accuracy::dist(q));
}

/// The median stands in the middle of the order: as many states of charge
/// stand before it as behind it, or one fewer.
pub proof fn law_median_is_in_the_middle(n: nat)
    requires
        n > 0,
    ensures
        ({
            let at = crate::soc_stats::middle(n);
            let before = at;
            let behind = n - 1 - at;
            &&& 0 <= at < n
            &&& before == behind || before == behind - 1
        }),
{
}

/// The root of a magnitude, counted in units.
proof fn lemma_wide_root_units(m: nat)
    requires
        1 <= m < pow2(1201),
    ensures
        ({
            let w = 4 * (m * pow2(1074));
            let code = crate::double::double_spec().root(m);
            let x = 2real * crate::rounding::code_mag(53, code) as real;
            &&& code < crate::double::DINFINITY
            &&& x * x <= w as real + 3real * w as real / 8388608real
            &&& x * x >= w as real - 3real * w as real / 8388608real
        }),
{
    let u = pow2(1074);
    let w = 4 * (m * u);
    let r = crate::ieee::integer_root(w);
    crate::reactive_laws::lemma_integer_root_bounds(w);
    lemma_pow2_pos(1074);
    lemma_pow2_unfold(1075);
    lemma_pow2_unfold(1076);
    lemma_pow2_adds(537, 537);
    let half = pow2(537);
    assert(m * u >= u) by (nonlinear_arith)
        requires
            m >= 1,
            u > 0,
    ;
    if r + 1 <= half {
        assert((r + 1) * (r + 1) <= half * half) by (nonlinear_arith)
            requires
                0 <= r + 1 <= half,
        ;
    }
    assert(r >= half);
    // the root is far below the range of the rounding
    lemma_pow2_adds(1201, 1074);
    lemma_pow2_unfold(2276);
    lemma_pow2_unfold(2277);
    lemma_pow2_adds(1139, 1139);
    lemma_pow2_unfold(2278);
    let top = pow2(1139);
    assert(m * u < pow2(1201) * u) by (nonlinear_arith)
        requires
            m < pow2(1201),
            u > 0,
    ;
    assert(w < pow2(2277));
    if r >= top {
        assert(r * r >= top * top) by (nonlinear_arith)
            requires
                r >= top,
                top >= 0,
        ;
    }
    crate::rounding::lemma_pow2_monotone(1141, 1201);
    lemma_pow2_unfold(1141);
    lemma_pow2_unfold(1140);
    let n = if r * r == w {
        2 * r
    } else {
        2 * r + 1
    };
    assert(n <= 4 * pow2(1201));
    wide_accuracy::lemma_rounding_error(n, 4);
    let code = crate::double::double_spec().root(m);
    assert(code == crate::double::double_spec().round(n, 4));
    let big = r as real;
    crate::rounding::lemma_pow2_monotone(64, 537);
    lemma2_to64_rest();
    assert(big >= 1000000000000000000real);
    let x = 2real * crate::rounding::code_mag(53, code) as real;
    let quarter = n as real / 4real;
    accuracy::lemma_half_ulp(quarter);
    assert(big * big == (r * r) as real) by (nonlinear_arith)
        requires
            big == r as real,
    ;
    assert((big + 1real) * (big + 1real) == ((r + 1) * (r + 1)) as real) by (nonlinear_arith)
        requires
            big == r as real,
    ;
    crate::root_laws::lemma_square_near(x, big, w as real);
}


/// The root of a positive number squares to it, to three steps at least.
pub proof fn law_wide_root_squares_back(a: Double)
    requires
        a.finite(),
        0real < a.value() <= accuracy::ample(),
    ensures
        a.dsqrt().finite(),
        a.dsqrt().value() >= 0real,
        accuracy::close(
            a.dsqrt().value() * a.dsqrt().value(),
            a.value(),
            accuracy::steps(3),
            0real,
        ),
{
    reveal(Double::dsqrt);
    crate::double::lemma_double_sizes();
    let f = crate::double::double_spec();
    let v = a.value();
    accuracy::lemma_steps_of(v, 3, 3real);
    wide_accuracy::lemma_sign_of_val(a);
    if a.code() == 0 {
        crate::ieee::lemma_mag_zero(f, a.spec_num());
        wide_accuracy::lemma_wide_speck();
    }
    wide_accuracy::lemma_val_parts(a);
    let u = pow2(1074) as real;
    let m = f.mag(a.spec_num());
    assert(v * u == m as real);
    if m == 0 {
        reals::lemma_zero(u);
        reals::lemma_cancels(v, 0real, u);
    }
    lemma_pow2_adds(126, 1074);
    lemma_pow2_unfold(1201);
    lemma_pow2_pos(1200);
    reals::lemma_scales(v, accuracy::ample(), u);
    assert(pow2(1200) as real == accuracy::ample() * u) by (nonlinear_arith)
        requires
            pow2(1200) == pow2(126) * pow2(1074),
            accuracy::ample() == pow2(126) as real,
            u == pow2(1074) as real,
    ;
    assert(m <= pow2(1200));
    lemma_wide_root_units(m);
    let code = f.root(m);
    wide_accuracy::lemma_signed_code(false, code);
    wide_accuracy::lemma_sign_of_val(a.dsqrt());
    let k = crate::rounding::code_mag(53, code) as real;
    let y = a.dsqrt().value();
    reals::lemma_quotient(k, u);
    assert(y * u == k);
    let w = 4 * (m * pow2(1074));
    assert(w as real == 4real * (m as real * u)) by (nonlinear_arith)
        requires
            w == 4 * (m * pow2(1074)),
            u == pow2(1074) as real,
    ;
    // all in squares of units
    let yy = y * y;
    let kk = k * k;
    assert(kk == yy * (u * u)) by {
        reals::lemma_associates(y, u, y * u);
        reals::lemma_associates(u, y, u);
        reals::lemma_commutes(u, y);
        reals::lemma_associates(y, u, u);
        reals::lemma_associates(y, y, u * u);
    }
    let uu = u * u;
    reals::lemma_associates(v, u, u);
    assert(w as real == 4real * (v * uu));
    let x = 2real * k;
    assert(x * x == 4real * kk) by (nonlinear_arith)
        requires
            x == 2real * k,
            kk == k * k,
    ;
    let vu = v * uu;
    let hi = v + 3real * v / 8388608real;
    let lo = v - 3real * v / 8388608real;
    assert(hi * uu == vu + 3real * vu / 8388608real) by (nonlinear_arith)
        requires
            hi == v + 3real * v / 8388608real,
            vu == v * uu,
    ;
    assert(lo * uu == vu - 3real * vu / 8388608real) by (nonlinear_arith)
        requires
            lo == v - 3real * v / 8388608real,
            vu == v * uu,
    ;
    assert(uu > 0real) by (nonlinear_arith)
        requires
            uu == u * u,
            u > 0real,
    ;
    reals::lemma_cancels(yy, hi, uu);
    reals::lemma_cancels(lo, yy, uu);
}

/// The magnitude of a number.
proof fn lemma_wide_magnitude(a: Double)
    requires
        a.finite(),
    ensures
        a.dabs().finite(),
        a.dabs().value() == accuracy::dist(a.value()),
{
    wide_accuracy::lemma_sign_of_val(a);
    wide_accuracy::lemma_negated_val(a);
    if a.is_negative() {
        assert(a.dabs() == a.dneg());
    } else {
        assert(a.dabs() == a);
    }
}

proof fn lemma_wide_hypotenuse(p: Double, q: Double)
    requires
        p.finite(),
        q.finite(),
        1real / 1000real <= p.value() * p.value() + q.value() * q.value() <= accuracy::ample()
            / 4real,
    ensures
        ({
            let s = p.dmul(p).dadd(q.dmul(q)).dsqrt();
            &&& s.finite()
            &&& s.value() > 0real
            &&& accuracy::close(
                s.value() * s.value(),
                p.value() * p.value() + q.value() * q.value(),
                accuracy::steps(7),
                0real,
            )
        }),
{
    let x = p.value() * p.value();
    let y = q.value() * q.value();
    let t = accuracy::speck();
    accuracy::lemma_ample();
    wide_accuracy::lemma_wide_speck();
    crate::root_laws::lemma_square_sign(p.value());
    crate::root_laws::lemma_square_sign(q.value());
    wide_accuracy::law_wide_product_is_accurate(p, p);
    wide_accuracy::law_wide_product_is_accurate(q, q);
    let a = p.dmul(p);
    let b = q.dmul(q);
    let total = x + y;
    accuracy::lemma_half_ulp(x);
    accuracy::lemma_half_ulp(y);
    accuracy::lemma_steps_of(total, 1, 1real);
    let raw = a.value() + b.value();
    assert(accuracy::close(raw, total, accuracy::steps(1), 2real * t));
    accuracy::lemma_stays_ample(raw, total, 1, 2real * t, accuracy::ample());
    wide_accuracy::law_wide_sum_is_accurate(a, b);
    let sum = a.dadd(b);
    accuracy::lemma_then(sum.value(), raw, total, 1, 2real * t, 0real);
    accuracy::lemma_absorbed(sum.value(), total, 2, 4real * t);
    accuracy::lemma_steps_of(total, 3, 3real);
    law_wide_root_squares_back(sum);
    let r = sum.dsqrt().value();
    accuracy::lemma_after(r * r, sum.value(), total, 3, 3, 0real);
    accuracy::lemma_steps_of(total, 7, 7real);
    if r == 0real {
        reals::lemma_zero(0real);
    }
}

/// The power factor is the active part of the apparent power: squared and
/// multiplied with the sum of the squares of both powers it gives the square
/// of the active power, where the powers are not tiny.
pub proof fn law_power_factor_is_the_active_part(p: Double, q: Double)
    requires
        p.finite(),
        q.finite(),
        1real / 1000real <= p.value() * p.value() + q.value() * q.value() <= accuracy::ample()
            / 4real,
    ensures
        crate::scenarios::power_factor(p, q) is Some,
        ({
            let pf = crate::scenarios::power_factor(p, q)->0;
            let total = p.value() * p.value() + q.value() * q.value();
            &&& pf.finite()
            &&& accuracy::dist(
                pf.value() * pf.value() * total - p.value() * p.value(),
            ) <= total * accuracy::steps(20)
        }),
{
    let s = p.dmul(p).dadd(q.dmul(q)).dsqrt();
    let r = s.value();
    let x = accuracy::dist(p.value());
    let total = p.value() * p.value() + q.value() * q.value();
    let t = accuracy::speck();
    accuracy::lemma_ample();
    wide_accuracy::lemma_wide_speck();
    lemma_wide_hypotenuse(p, q);
    lemma_wide_magnitude(p);
    crate::root_laws::lemma_square_of_distance(p.value());
    crate::root_laws::lemma_square_sign(q.value());
    if s.rank() == 0 {
        wide_accuracy::lemma_wide_zero(s);
    }
    accuracy::lemma_steps_of(total, 7, 7real);
    accuracy::lemma_steps_of(total, 20, 20real);
    let rr = r * r;
    let ratio = x / r;
    reals::lemma_quotient(x, r);
    reals::lemma_inverse(r);
    reals::lemma_over_is_times(x, r);
    reals::lemma_product_sign(x, 1real / r);
    // the ratio is hardly more than one
    if ratio > 2real {
        reals::lemma_scales(2real, ratio, r);
        let y = 2real * r;
        reals::lemma_scales(y, x, y);
        reals::lemma_scales(y, x, x);
        assert(y * y == 4real * rr) by (nonlinear_arith)
            requires
                y == 2real * r,
                rr == r * r,
        ;
    }
    wide_accuracy::law_wide_quotient_is_accurate(p.dabs(), s);
    let pf = p.dabs().ddiv(s);
    let f = pf.value();
    accuracy::lemma_half_ulp(ratio);
    let e = f - ratio;
    assert(accuracy::dist(e) <= 1real / 4194304real);
    // f^2 against ratio^2
    let ff = f * f;
    let gg = ratio * ratio;
    let both = f + ratio;
    reals::lemma_distributes(f, ratio, both);
    reals::lemma_distributes(f, ratio, f);
    reals::lemma_distributes(f, ratio, ratio);
    reals::lemma_commutes(f, ratio);
    assert(e * both == ff - gg);
    accuracy::lemma_dist_product(e, both);
    reals::lemma_scales(accuracy::dist(e), 1real / 4194304real, accuracy::dist(both));
    assert(accuracy::dist(both) <= 5real);
    assert((1real / 4194304real) * accuracy::dist(both) == accuracy::dist(both) / 4194304real)
        by (nonlinear_arith);
    let d = ff - gg;
    assert(accuracy::dist(d) <= 5real / 4194304real);
    // gg * rr is the square of the active power
    assert(gg * rr == x * x) by {
        reals::lemma_associates(ratio, ratio, r * r);
        reals::lemma_associates(ratio, r, r);
        reals::lemma_commutes(ratio, r);
        reals::lemma_associates(r, ratio, r);
        reals::lemma_associates(ratio, r, ratio * r);
        assert(ratio * (ratio * (r * r)) == ratio * ((ratio * r) * r));
        assert(ratio * (x * r) == (ratio * r) * x) by (nonlinear_arith);
    }
    // ff * total - x * x == ff * (total - rr) + d * rr
    reals::lemma_distributes(total, rr, ff);
    reals::lemma_distributes(ff, gg, rr);
    let gap = total - rr;
    accuracy::lemma_dist_product(ff, gap);
    accuracy::lemma_dist_product(d, rr);
    crate::root_laws::lemma_square_sign(f);
    assert(f <= 3real && f >= -1real);
    assert(ff <= 9real) by (nonlinear_arith)
        requires
            ff == f * f,
            -1real <= f <= 3real,
    ;
    // the ratio is in fact at most about one
    reals::lemma_scales(gg, gg, 1real);
    if gg > 11real / 10real {
        reals::lemma_scales(11real / 10real, gg, rr);
    }
    assert(ff <= 12real / 10real);
    reals::lemma_scales(ff, 12real / 10real, accuracy::dist(gap));
    crate::root_laws::lemma_square_sign(r);
    reals::lemma_scales(accuracy::dist(d), 5real / 4194304real, rr);
    assert((5real / 4194304real) * rr == 5real * rr / 4194304real) by (nonlinear_arith);
}

/// The seconds of a scenario are its milliseconds over a thousand.
pub proof fn law_elapsed_counts_seconds(j: crate::scenario::ScenarioJournal, now: crate::time::Timestamp)
    requires
        j.elapsed_ms(now) <= u64::MAX,
    ensures
        j.elapsed(now).finite(),
        accuracy::close(
            j.elapsed(now).value(),
            j.elapsed_ms(now) as real / 1000real,
            accuracy::steps(4),
            accuracy::speck(),
        ),
        j.started_at is None ==> j.elapsed_ms(now) == 0,
        j.started_at matches Some(start) ==> j.ended_at is None && start.spec_millis()
            <= now.spec_millis() ==> j.elapsed_ms(now) == now.spec_millis()
            - start.spec_millis(),
{
    let n = j.elapsed_ms(now);
    let x = n as real;
    let thousand = Double::lit(crate::scenario::DTHOUSAND);
    accuracy::lemma_ample();
    accuracy::lemma_pow2_wide();
    lemma2_to64();
    lemma2_to64_rest();
    assert(pow2(43) == 0x800_0000_0000);
    assert((1075 - 1032) as nat == 43);
    assert(0x408f_4000_0000_0000 - 1031 * 0x10_0000_0000_0000 == 1000 * 0x800_0000_0000int);
    lemma_wide_constant(crate::scenario::DTHOUSAND, 1032, 1000);
    wide_accuracy::law_wide_integer_is_accurate(n);
    accuracy::lemma_one_step(Double::dint(n).value(), x, 0real);
    accuracy::lemma_exact_is_close(1000real);
    assert(0real <= x <= 20000000000000000000real);
    lemma_wide_ratio(Double::dint(n), thousand, x, 1000real, 1, 0, 0real);
}

/// What a component has moved since the start of a scenario is what it has
/// moved less what it had moved then.
pub proof fn law_energy_since_is_a_difference(total: Double, base: Double)
    requires
        total.finite(),
        base.finite(),
        accuracy::dist(total.value() - base.value()) <= accuracy::ample(),
    ensures
        total.dsub(base).finite(),
        accuracy::close(
            total.dsub(base).value(),
            total.value() - base.value(),
            accuracy::half_ulp(),
            0real,
        ),
{
    wide_accuracy::law_wide_difference_is_accurate(total, base);
}

} // verus!
