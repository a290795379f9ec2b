//! Square roots, and what is computed with them, in real numbers.

use crate::accuracy;
use crate::reals;
use crate::single::{Single, ZERO};
use vstd::arithmetic::power2::*;
use vstd::prelude::*;

verus! {

/// The square of `m` lies within three steps of `w` where `m` lies within one
/// of its integer root.
pub(crate) proof fn lemma_square_near(m: real, r: real, w: real)
    requires
        r >= 1000000000000000000real,
        r * r <= w,
        w <= (r + 1real) * (r + 1real),
        m <= r + r / 8388608real,
        m >= r - r / 8388608real,
    ensures
        m * m <= w + 3real * w / 8388608real,
        m * m >= w - 3real * w / 8388608real,
{
    let q = r * r;
    let d = r / 8388608real;
    let up = r + d;
    let low = r - d;
    let rd = r * d;
    assert(rd == q / 8388608real) by (nonlinear_arith)
        requires
            rd == r * d,
            d == r / 8388608real,
            q == r * r,
    ;
    let dd = d * d;
    assert(dd == rd / 8388608real) by (nonlinear_arith)
        requires
            rd == r * d,
            d == r / 8388608real,
            dd == d * d,
    ;
    reals::lemma_distributes(r, d, up);
    reals::lemma_distributes(r, d, r);
    reals::lemma_distributes(r, d, d);
    reals::lemma_distributes(r, d, low);
    reals::lemma_commutes(d, r);
    assert(up * up == q + 2real * rd + dd);
    assert(low * low == q - 2real * rd + dd);
    reals::lemma_product_sign(r, r);
    reals::lemma_scales(m, up, m);
    reals::lemma_scales(m, up, up);
    assert(m * m <= up * up);
    reals::lemma_scales(low, m, low);
    reals::lemma_scales(low, m, m);
    assert(low * low <= m * m);
    // (r + 1)^2 is hardly more than r^2
    reals::lemma_distributes(r, 1real, r + 1real);
    reals::lemma_distributes(r, 1real, r);
    reals::lemma_zero(r + 1real);
    reals::lemma_zero(r);
    assert((r + 1real) * (r + 1real) == q + 2real * r + 1real);
    reals::lemma_scales(1000000000real, d, r);
    assert(rd >= 1000000000real * r);
    assert(2real * r + 1real <= rd);
}

/// The root of a magnitude, counted in units.
proof fn lemma_root_units(m: nat)
    requires
        1 <= m < pow2(277),
    ensures
        ({
            let w = 4 * (m * pow2(149));
            let code = crate::single::single_spec().root(m);
            let x = 2real * crate::rounding::code_mag(24, code) as real;
            &&& code < crate::single::INFINITY
            &&& x * x <= w as real + 3real * w as real / 8388608real
            &&& x * x >= w as real - 3real * w as real / 8388608real
        }),
{
    let u = pow2(149);
    let w = 4 * (m * u);
    let r = crate::ieee::integer_root(w);
    crate::reactive_laws::lemma_integer_root_bounds(w);
    lemma_pow2_pos(149);
    lemma_pow2_unfold(150);
    lemma_pow2_unfold(151);
    lemma_pow2_adds(75, 75);
    let half = pow2(75);
    assert(m * u >= u) by (nonlinear_arith)
        requires
            m >= 1,
            u > 0,
    ;
    if r + 1 <= half {
        assert((r + 1) * (r + 1) <= half * half) by (nonlinear_arith)
            requires
                0 <= r + 1 <= half,
        ;
    }
    assert(r >= half);
    // the root is far below the range of the rounding
    lemma_pow2_adds(277, 149);
    lemma_pow2_unfold(427);
    lemma_pow2_unfold(428);
    lemma_pow2_adds(214, 214);
    let top = pow2(214);
    assert(m * u < pow2(277) * u) by (nonlinear_arith)
        requires
            m < pow2(277),
            u > 0,
    ;
    assert(w < pow2(428));
    if r >= top {
        assert(r * r >= top * top) by (nonlinear_arith)
            requires
                r >= top,
                top >= 0,
        ;
    }
    crate::rounding::lemma_pow2_monotone(216, 276);
    lemma_pow2_unfold(216);
    lemma_pow2_unfold(215);
    let n = if r * r == w {
        2 * r
    } else {
        2 * r + 1
    };
    assert(n <= 4 * pow2(276));
    accuracy::lemma_rounding_error(n, 4);
    let code = crate::single::single_spec().root(m);
    assert(code == crate::single::single_spec().round(n, 4));
    let big = r as real;
    crate::rounding::lemma_pow2_monotone(64, 75);
    lemma2_to64_rest();
    assert(big >= 1000000000000000000real);
    let x = 2real * crate::rounding::code_mag(24, code) as real;
    let quarter = n as real / 4real;
    accuracy::lemma_half_ulp(quarter);
    assert(big * big == (r * r) as real) by (nonlinear_arith)
        requires
            big == r as real,
    ;
    assert((big + 1real) * (big + 1real) == ((r + 1) * (r + 1)) as real) by (nonlinear_arith)
        requires
            big == r as real,
    ;
    lemma_square_near(x, big, w as real);
}

/// The root of a number that is not negative squares to it, to three steps.
pub proof fn law_root_squares_back(a: Single)
    requires
        a.finite(),
        a.value() >= 0real,
    ensures
        a.fsqrt().finite(),
        a.fsqrt().value() >= 0real,
        accuracy::close(
            a.fsqrt().value() * a.fsqrt().value(),
            a.value(),
            accuracy::steps(3),
            0real,
        ),
{
    reveal(Single::fsqrt);
    crate::single::lemma_single_sizes();
    accuracy::lemma_val_zero();
    accuracy::law_values_keep_order(Single::lit(ZERO), a);
    let f = crate::single::single_spec();
    let v = a.value();
    accuracy::lemma_steps_of(v, 3, 3real);
    if a.code() == 0 {
        accuracy::law_values_keep_order(a, Single::lit(ZERO));
        reals::lemma_zero(0real);
    } else {
        accuracy::law_values_keep_order(a, Single::lit(ZERO));
        accuracy::lemma_val_parts(a);
        let u = pow2(149) as real;
        let m = f.mag(a.spec_num());
        assert(v * u == m as real);
        if m == 0 {
            reals::lemma_zero(u);
            reals::lemma_cancels(v, 0real, u);
        }
        lemma_magnitude_fits(a);
        lemma_root_units(m);
        let code = f.root(m);
        accuracy::lemma_signed_code(false, code);
        accuracy::lemma_sign_of_val(a.fsqrt());
        let k = crate::rounding::code_mag(24, code) as real;
        let y = a.fsqrt().value();
        reals::lemma_quotient(k, u);
        assert(y * u == k);
        let w = 4 * (m * pow2(149));
        assert(w as real == 4real * (m as real * u)) by (nonlinear_arith)
            requires
                w == 4 * (m * pow2(149)),
                u == pow2(149) as real,
        ;
        // all in squares of units
        let yy = y * y;
        let kk = k * k;
        assert(kk == yy * (u * u)) by {
            reals::lemma_associates(y, u, y * u);
            reals::lemma_associates(u, y, u);
            reals::lemma_commutes(u, y);
            reals::lemma_associates(y, u, u);
            reals::lemma_associates(y, y, u * u);
        }
        let uu = u * u;
        reals::lemma_associates(v, u, u);
        assert(w as real == 4real * (v * uu));
        let x = 2real * k;
        assert(x * x == 4real * kk) by (nonlinear_arith)
            requires
                x == 2real * k,
                kk == k * k,
        ;
        let vu = v * uu;
        let hi = v + 3real * v / 8388608real;
        let lo = v - 3real * v / 8388608real;
        assert(hi * uu == vu + 3real * vu / 8388608real) by (nonlinear_arith)
            requires
                hi == v + 3real * v / 8388608real,
                vu == v * uu,
        ;
        assert(lo * uu == vu - 3real * vu / 8388608real) by (nonlinear_arith)
            requires
                lo == v - 3real * v / 8388608real,
                vu == v * uu,
        ;
        assert(uu > 0real) by (nonlinear_arith)
            requires
                uu == u * u,
                u > 0real,
        ;
        reals::lemma_cancels(yy, hi, uu);
        reals::lemma_cancels(lo, yy, uu);
    }
}

/// The magnitude of a finite number is below `2^277` units.
pub(crate) proof fn lemma_magnitude_fits(a: Single)
    requires
        a.finite(),
    ensures
        crate::single::single_spec().mag(a.spec_num()) < pow2(277),
{
    let f = crate::single::single_spec();
    let top = crate::ieee::Num { neg: false, code: 0x7f7f_ffff };
    crate::single::lemma_single_sizes();
    lemma2_to64();
    vstd::arithmetic::div_mod::lemma_fundamental_div_mod_converse(
        0x7f7f_ffff,
        0x80_0000,
        254,
        0x7f_ffff,
    );
    assert(crate::rounding::code_mag(24, 0x7f7f_ffff) == 0xff_ffff * pow2(253)) by {
        assert(pow2((24 - 1) as nat) == 0x80_0000);
        assert(0x7f7f_ffff - 253 * 0x80_0000 == 0xff_ffff);
    }
    lemma_pow2_adds(24, 253);
    lemma_pow2_pos(253);
    if a.code() < 0x7f7f_ffff {
        crate::ieee::lemma_mag_ordered(f, a.spec_num(), top);
    }
    assert(f.mag(top) < pow2(277));
}

/// Squaring doubles the relative error.
proof fn lemma_squared(z: real, x: real, n: nat)
    requires
        accuracy::close(z, x, accuracy::steps(n), 0real),
        n <= 400,
    ensures
        accuracy::close(z * z, x * x, accuracy::steps(2 * n + 1), 0real),
{
    accuracy::lemma_scaled(z, x, accuracy::steps(n), 0real, z);
    accuracy::lemma_scaled(z, x, accuracy::steps(n), 0real, x);
    reals::lemma_commutes(z, x);
    reals::lemma_zero(accuracy::dist(z));
    reals::lemma_zero(accuracy::dist(x));
    accuracy::lemma_after(z * z, x * z, x * x, n, n, 0real);
    assert(n + n + 1 == 2 * n + 1);
}

/// The apparent power of an active and a reactive power, as it is computed.
pub open spec fn computed_apparent(p: Single, q: Single) -> Single {
    p.fmul(p).fadd(q.fmul(q)).fsqrt()
}

/// The apparent power squares to the sum of the squares, where it is not tiny.
pub proof fn law_apparent_power_is_the_hypotenuse(p: Single, q: Single)
    requires
        p.finite(),
        q.finite(),
        p.value() * p.value() + q.value() * q.value() <= accuracy::ample() / 4real,
        p.value() * p.value() + q.value() * q.value() >= 1real / 1000real,
    ensures
        ({
            let s = computed_apparent(p, q);
            &&& s.finite()
            &&& s.value() >= 0real
            &&& accuracy::close(
                s.value() * s.value(),
                p.value() * p.value() + q.value() * q.value(),
                accuracy::steps(7),
                0real,
            )
        }),
{
    let x = p.value() * p.value();
    let y = q.value() * q.value();
    let t = accuracy::speck();
    accuracy::lemma_ample();
    assert(x >= 0real && y >= 0real) by {
        lemma_square_sign(p.value());
        lemma_square_sign(q.value());
    }
    accuracy::law_product_is_accurate(p, p);
    accuracy::law_product_is_accurate(q, q);
    let a = p.fmul(p);
    let b = q.fmul(q);
    let total = x + y;
    accuracy::lemma_half_ulp(x);
    accuracy::lemma_half_ulp(y);
    accuracy::lemma_steps_of(total, 1, 1real);
    let raw = a.value() + b.value();
    assert(accuracy::close(raw, total, accuracy::steps(1), 2real * t));
    accuracy::lemma_stays_ample(raw, total, 1, 2real * t, accuracy::ample());
    accuracy::law_sum_is_accurate(a, b);
    let sum = a.fadd(b);
    accuracy::lemma_then(sum.value(), raw, total, 1, 2real * t, 0real);
    accuracy::lemma_absorbed(sum.value(), total, 2, 4real * t);
    accuracy::lemma_steps_of(total, 3, 3real);
    law_root_squares_back(sum);
    let r = sum.fsqrt().value();
    accuracy::lemma_after(r * r, sum.value(), total, 3, 3, 0real);
}

pub(crate) proof fn lemma_square_sign(x: real)
    ensures
        x * x >= 0real,
{
    assert(x * x >= 0real) by (nonlinear_arith);
}

/// The current of a phase is the apparent power over the voltage: current
/// times voltage squares to the sum of the squares of the powers, where
/// neither is tiny.
pub proof fn law_current_carries_the_apparent_power(p: Single, q: Single, v: Single)
    requires
        p.finite(),
        q.finite(),
        v.finite(),
        v.value() != 0real,
        p.value() * p.value() + q.value() * q.value() <= accuracy::ample() / 4real,
        p.value() * p.value() + q.value() * q.value() >= 1real / 1000real,
        v.value() * v.value() <= 100000real * (p.value() * p.value() + q.value() * q.value()),
        accuracy::dist(computed_apparent(p, q).value() / v.value()) <= accuracy::ample(),
    ensures
        ({
            let i = crate::grid_state::apparent_current(p, q, v);
            let w = i.value() * v.value();
            &&& i.finite()
            &&& accuracy::close(
                w * w,
                p.value() * p.value() + q.value() * q.value(),
                accuracy::steps(13),
                0real,
            )
        }),
{
    let total = p.value() * p.value() + q.value() * q.value();
    let s = computed_apparent(p, q);
    let r = s.value();
    let x = v.value();
    let d = accuracy::dist(x);
    let ratio = r / x;
    let z = accuracy::dist(ratio);
    accuracy::lemma_ample();
    accuracy::lemma_val_zero();
    accuracy::law_values_keep_order(v, Single::lit(ZERO));
    law_apparent_power_is_the_hypotenuse(p, q);
    accuracy::law_quotient_is_accurate(s, v);
    let i = s.fdiv(v);
    accuracy::lemma_one_step(i.value(), ratio, accuracy::speck());
    reals::lemma_quotient(r, x);
    accuracy::lemma_dist_product(ratio, x);
    // the current is at least a milliampere
    accuracy::lemma_steps_of(total, 7, 7real);
    lemma_square_of_distance(x);
    if z < 1real / 1000real {
        reals::lemma_scales(z, 1real / 1000real, d);
        assert(r <= d / 1000real);
        let k = d / 1000real;
        reals::lemma_scales(r, k, r);
        reals::lemma_scales(r, k, k);
        assert(k * k == d * d / 1000000real) by (nonlinear_arith)
            requires
                k == d / 1000real,
        ;
    }
    accuracy::lemma_absorbed(i.value(), ratio, 1, accuracy::speck());
    accuracy::lemma_scaled(i.value(), ratio, accuracy::steps(2), 0real, x);
    reals::lemma_zero(d);
    let w = i.value() * x;
    assert(accuracy::close(w, r, accuracy::steps(2), 0real));
    lemma_squared(w, r, 2);
    accuracy::lemma_after(w * w, r * r, total, 7, 5, 0real);
}

pub(crate) proof fn lemma_square_of_distance(x: real)
    ensures
        accuracy::dist(x) * accuracy::dist(x) == x * x,
{
    assert((-x) * (-x) == x * x) by (nonlinear_arith);
}

/// On the circle of the apparent power the squares of the active power and of
/// the reactive power that is left add up to the square of the radius.
pub proof fn law_circle_is_kept(s: Single, p: Single)
    requires
        s.finite(),
        p.finite(),
        accuracy::dist(p.value()) <= s.value(),
        s.value() * s.value() <= accuracy::ample() / 16real,
    ensures
        ({
            let q = crate::reactive::circle_q(s, p);
            let radius = s.value() * s.value();
            &&& q.finite()
            &&& q.value() >= 0real
            &&& accuracy::dist(
                q.value() * q.value() + p.value() * p.value() - radius,
            ) <= radius * accuracy::steps(8) + 16real * accuracy::speck()
        }),
{
    let zero = Single::lit(ZERO);
    let x = s.value() * s.value();
    let y = p.value() * p.value();
    let t = accuracy::speck();
    accuracy::lemma_ample();
    accuracy::lemma_val_zero();
    lemma_square_sign(s.value());
    lemma_square_sign(p.value());
    let d = accuracy::dist(p.value());
    lemma_square_of_distance(p.value());
    reals::lemma_scales(d, s.value(), d);
    reals::lemma_scales(d, s.value(), s.value());
    assert(y <= x);
    accuracy::law_product_is_accurate(s, s);
    accuracy::law_product_is_accurate(p, p);
    let a = s.fmul(s);
    let b = p.fmul(p);
    accuracy::lemma_half_ulp(x);
    accuracy::lemma_half_ulp(y);
    accuracy::law_difference_is_accurate(a, b);
    accuracy::lemma_half_ulp(accuracy::dist(a.value() - b.value()));
    let left = a.fsub(b);
    accuracy::law_values_keep_order(left, zero);
    accuracy::law_values_keep_order(zero, left);
    let kept = left.fmax(zero);
    let k = kept.value();
    accuracy::lemma_steps_of(x, 8, 8real);
    assert(accuracy::dist(k - (x - y)) <= 3real * x / 8388608real + 4real * t);
    law_root_squares_back(kept);
    accuracy::lemma_steps_of(k, 3, 3real);
}

/// A power-factor limit alone allows as much reactive power either way as the
/// limit times the active power.
pub proof fn law_power_factor_limits_the_reactive_power(k: Single, p: Single)
    requires
        k.finite(),
        p.finite(),
        k.value() >= 0real,
        k.value() * accuracy::dist(p.value()) <= accuracy::ample(),
    ensures
        ({
            let c = crate::reactive::ReactiveCapability { pf_limit: Some(k), apparent_va: None };
            let bounds = c.q_bounds(p);
            let most = k.value() * accuracy::dist(p.value());
            &&& bounds.0.finite()
            &&& bounds.1.finite()
            &&& accuracy::close(
                bounds.1.value(),
                most,
                accuracy::half_ulp(),
                accuracy::speck(),
            )
            &&& bounds.0.value() == -bounds.1.value()
        }),
{
    let c = crate::reactive::ReactiveCapability { pf_limit: Some(k), apparent_va: None };
    let m = p.fabs();
    crate::slew_laws::lemma_magnitude(p);
    reals::lemma_product_sign(k.value(), accuracy::dist(p.value()));
    accuracy::law_product_is_accurate(k, m);
    let q = k.fmul(m);
    accuracy::lemma_negated_val(q);
    accuracy::lemma_val_zero();
    accuracy::law_values_keep_order(Single::lit(ZERO), k);
    accuracy::law_values_keep_order(Single::lit(ZERO), m);
    crate::single_laws::law_product_of_nonnegative(k, m);
    crate::single_laws::lemma_negated_units(q);
    crate::single::lemma_single_sizes();
    assert(c.limits_at(p) == Some((q.fneg(), q)));
}

} // verus!
