//! Spans in seconds keep the order of spans.

use crate::single::{Single, ONE};
use crate::time::{Span, BILLION, NANOS_PER_SEC};
use vstd::arithmetic::div_mod::*;
use vstd::arithmetic::power2::*;
use vstd::prelude::*;

verus! {

/// The code of a rounded magnitude below `2^277` units stands for a multiple
/// of the step of its binade.
pub(crate) proof fn lemma_rounded(n: nat, d: nat)
    requires
        d > 0,
        n < d * pow2(277),
    ensures
        ({
            let k = crate::rounding::binade(24, n, d);
            let q = crate::rounding::rne(n, d * pow2(k));
            let c = crate::rounding::round_code(24, 255, n, d);
            &&& k < 254
            &&& n < d * pow2(24 + k)
            &&& k > 0 ==> n >= d * pow2(23 + k)
            &&& q <= 0x100_0000
            &&& k > 0 ==> q >= 0x80_0000
            &&& c == k * 0x80_0000 + q
            &&& crate::rounding::code_mag(24, c) == q * pow2(k)
        }),
{
    let k = crate::rounding::binade(24, n, d);
    let step = pow2(k);
    let w = d * step;
    let q = crate::rounding::rne(n, w);
    lemma2_to64();
    lemma_pow2_pos(k);
    crate::rounding_laws::lemma_binade_bounds(24, n, d);
    assert(w > 0) by (nonlinear_arith)
        requires
            w == d * step,
            d > 0,
            step > 0,
    ;
    if k >= 254 {
        let high = pow2((24 + k - 1) as nat);
        crate::rounding::lemma_pow2_monotone(277, (24 + k - 1) as nat);
        assert(d * pow2(277) <= d * high) by (nonlinear_arith)
            requires
                pow2(277) <= high,
        ;
    }
    lemma_pow2_adds(24, k);
    lemma_fundamental_div_mod(n as int, w as int);
    let low = n / w;
    let r = n % w;
    assert(d * (0x100_0000 * step) == 0x100_0000 * w) by (nonlinear_arith)
        requires
            w == d * step,
    ;
    assert(low < 0x100_0000) by (nonlinear_arith)
        requires
            n < 0x100_0000 * w,
            n == w * low + r,
            r >= 0,
    ;
    if k > 0 {
        lemma_pow2_adds(23, k);
        assert((24 + k - 1) as nat == 23 + k);
        assert(d * (0x80_0000 * step) == 0x80_0000 * w) by (nonlinear_arith)
            requires
                w == d * step,
        ;
        assert(low >= 0x80_0000) by (nonlinear_arith)
            requires
                n >= 0x80_0000 * w,
                n < w * low + w,
        ;
    }
    let c = k * 0x80_0000 + q;
    assert(pow2((24 - 1) as nat) == 0x80_0000);
    assert(c <= 255 * 0x80_0000);
    if q == 0x100_0000 {
        lemma_fundamental_div_mod_converse(c as int, 0x80_0000, (k + 2) as int, 0);
        lemma_pow2_unfold(k + 1);
        assert(c - (k + 1) * 0x80_0000 == 0x80_0000);
        assert(0x80_0000 * pow2(k + 1) == 0x100_0000 * step);
    } else if q >= 0x80_0000 {
        lemma_fundamental_div_mod_converse(c as int, 0x80_0000, (k + 1) as int, q - 0x80_0000);
        assert(c - k * 0x80_0000 == q);
    } else {
        assert(k == 0);
    }
}

/// One more than a rounded whole number rounds to no more than the next whole
/// number does.
proof fn lemma_next_whole(s: nat)
    requires
        s < pow2(64),
    ensures
        crate::rounding::round_code(
            24,
            255,
            crate::rounding::code_mag(24, crate::rounding::round_code(24, 255, s * pow2(149), 1))
                + pow2(149),
            1,
        ) <= crate::rounding::round_code(24, 255, (s + 1) * pow2(149), 1),
{
    let unit = pow2(149);
    let n = s * unit;
    lemma_pow2_pos(149);
    lemma_pow2_adds(64, 149);
    assert(n < pow2(213)) by (nonlinear_arith)
        requires
            n == s * unit,
            s < pow2(64),
            unit > 0,
            pow2(213) == pow2(64) * unit,
    ;
    assert((s + 1) * unit == n + unit) by (nonlinear_arith)
        requires
            n == s * unit,
    ;
    crate::rounding::lemma_pow2_monotone(213, 277);
    lemma_rounded(n, 1);
    let k = crate::rounding::binade(24, n, 1);
    let step = pow2(k);
    if k >= 190 {
        crate::rounding::lemma_pow2_monotone(213, 23 + k);
    }
    assert(1 * step == step);
    let q = crate::rounding::rne(n, step);
    let c = crate::rounding::round_code(24, 255, n, 1);
    let a = q * step;
    lemma_pow2_pos(k);
    if a <= n {
        crate::rounding_laws::law_rounding_is_monotone(24, 255, a + unit, 1, n + unit, 1);
    } else {
        lemma_fundamental_div_mod(n as int, step as int);
        let q0 = n / step;
        let r = n % step;
        if r == 0 {
            assert(q0 * step == step * q0) by (nonlinear_arith);
        }
        assert(r > 0 && q == q0 + 1);
        if k <= 149 {
            lemma_pow2_adds(k, (149 - k) as nat);
            let w = pow2((149 - k) as nat);
            assert(n == (s * w) * step) by (nonlinear_arith)
                requires
                    n == s * unit,
                    unit == step * w,
            ;
            lemma_fundamental_div_mod_converse(n as int, step as int, (s * w) as int, 0);
            assert(false);
        }
        // a step is at least two seconds, so a second more is lost in rounding
        lemma_pow2_unfold(150);
        crate::rounding::lemma_pow2_monotone(150, k);
        assert(step >= 2 * unit);
        if k == 150 {
            assert(step == 2 * unit);
            lemma_fundamental_div_mod(s as int, 2);
            assert(n == (s / 2) * step + (s % 2) * unit) by (nonlinear_arith)
                requires
                    n == s * unit,
                    step == 2 * unit,
                    s == 2 * (s / 2) + s % 2,
            ;
            assert((s % 2) * unit == 0 || (s % 2) * unit == unit) by (nonlinear_arith)
                requires
                    s % 2 == 0 || s % 2 == 1,
            ;
            lemma_fundamental_div_mod_converse(
                n as int,
                step as int,
                (s / 2) as int,
                ((s % 2) * unit) as int,
            );
            assert(r == unit);
            assert(q % 2 == 0);
        }
        lemma_lost_second(q, k);
        crate::rounding_laws::law_rounding_is_monotone(24, 255, n, 1, n + unit, 1);
    }
}

/// Where the step of a binade is two seconds or more, a second past a
/// representable number rounds back to it; past an odd one only where the step
/// is more than two seconds.
proof fn lemma_lost_second(q: nat, k: nat)
    requires
        150 <= k < 190,
        0x80_0000 <= q <= 0x100_0000,
        k == 150 ==> q % 2 == 0,
    ensures
        crate::rounding::round_code(24, 255, q * pow2(k) + pow2(149), 1) == k * 0x80_0000 + q,
{
    let unit = pow2(149);
    let step = pow2(k);
    let m = q * step + unit;
    lemma2_to64();
    lemma_pow2_pos(149);
    lemma_pow2_pos(k);
    lemma_pow2_unfold(150);
    if k > 150 {
        lemma_pow2_unfold(151);
        crate::rounding::lemma_pow2_monotone(151, k);
    }
    assert(step >= 2 * unit);
    assert(k > 150 ==> step > 2 * unit);
    lemma_pow2_adds(24, k);
    lemma_pow2_adds(23, k);
    lemma_pow2_unfold(k + 1);
    if q < 0x100_0000 {
        assert(0x80_0000 * step <= q * step && (q + 1) * step <= 0x100_0000 * step)
            by (nonlinear_arith)
            requires
                0x80_0000 <= q < 0x100_0000,
        ;
        assert((q + 1) * step == q * step + step) by (nonlinear_arith);
        assert(1 * pow2(24 + k) == pow2(24 + k));
        assert(1 * pow2((24 + k - 1) as nat) == pow2(23 + k));
        crate::rounding::lemma_binade_is(24, m, 1, k);
        assert(q * step == step * q) by (nonlinear_arith);
        lemma_fundamental_div_mod_converse(m as int, step as int, q as int, unit as int);
        assert(1 * step == step);
        assert(crate::rounding::rne(m, step) == q);
    } else {
        lemma_pow2_adds(24, k + 1);
        let wide = pow2(k + 1);
        assert(1 * pow2(24 + (k + 1)) == pow2(24 + (k + 1)));
        assert(1 * pow2((24 + (k + 1) - 1) as nat) == pow2(24 + k));
        crate::rounding::lemma_binade_is(24, m, 1, k + 1);
        lemma_fundamental_div_mod_converse(m as int, wide as int, 0x80_0000, unit as int);
        assert(1 * wide == wide);
        assert(crate::rounding::rne(m, wide) == 0x80_0000);
        assert((k + 1) * 0x80_0000 + 0x80_0000 == k * 0x80_0000 + q);
    }
    assert((24 - 1) as nat == 23);
    assert(k * 0x80_0000 + q <= 255 * 0x80_0000);
}

/// A whole number of seconds is the number nearest to it.
proof fn lemma_whole(s: nat)
    requires
        s <= u64::MAX,
    ensures
        Single::fint(s).finite(),
        Single::fint(s).rank() == crate::rounding::round_code(24, 255, s * pow2(149), 1),
        Single::fint(s).units() == crate::rounding::code_mag(
            24,
            crate::rounding::round_code(24, 255, s * pow2(149), 1),
        ),
{
    lemma2_to64();
    lemma2_to64_rest();
    crate::single_laws::lemma_integer_up_to(s, 64);
    reveal(Single::fint);
    crate::single::lemma_single_sizes();
}

/// The nanoseconds as part of a second are a fraction, and grow with them.
proof fn lemma_parts(a: nat, b: nat)
    requires
        a <= b < NANOS_PER_SEC,
    ensures
        ({
            let pa = Single::fint(a).fdiv(Single::lit(BILLION));
            let pb = Single::fint(b).fdiv(Single::lit(BILLION));
            &&& crate::single_laws::is_fraction(pa)
            &&& crate::single_laws::is_fraction(pb)
            &&& pa.rank() <= pb.rank()
        }),
{
    let billion = Single::lit(BILLION);
    let unit = pow2(149);
    lemma2_to64();
    lemma_fundamental_div_mod_converse(0x4e6e_6b28, 0x80_0000, 156, 0x6e_6b28);
    lemma_pow2_adds(6, 149);
    let m = crate::rounding::code_mag(24, 0x4e6e_6b28);
    assert(0x4e6e_6b28 - 155 * 0x80_0000 == 0x80_0000 + 0x6e_6b28);
    assert(m == (0x80_0000 + 0x6e_6b28) * pow2(155)) by {
        assert(pow2((24 - 1) as nat) == 0x80_0000);
    }
    assert(m == NANOS_PER_SEC as nat * unit) by (nonlinear_arith)
        requires
            m == (0x80_0000 + 0x6e_6b28) * pow2(155),
            pow2(155) == 64 * unit,
            NANOS_PER_SEC as nat == (0x80_0000 + 0x6e_6b28) * 64,
    ;
    crate::rounding_laws::law_rounding_is_exact(24, 255, 0x4e6e_6b28);
    lemma_whole(a);
    lemma_whole(b);
    assert(a * unit <= b * unit && b * unit <= NANOS_PER_SEC as nat * unit) by (nonlinear_arith)
        requires
            a <= b < NANOS_PER_SEC as nat,
    ;
    crate::rounding_laws::law_rounding_is_monotone(24, 255, a * unit, 1, b * unit, 1);
    crate::rounding_laws::law_rounding_is_monotone(24, 255, b * unit, 1, m, 1);
    crate::single_laws::law_ratio_is_a_fraction(Single::fint(a), Single::fint(b), billion);
}

/// A shorter span is no more seconds than a longer one, rounded as they are.
pub proof fn law_seconds_keep_order(a: Span, b: Span)
    requires
        a.wf(),
        b.wf(),
        a.total() <= b.total(),
    ensures
        a.spec_seconds().rank() <= b.spec_seconds().rank(),
{
    let billion = Single::lit(BILLION);
    let wa = Single::fint(a.secs as nat);
    let wb = Single::fint(b.secs as nat);
    let pa = Single::fint(a.nanos as nat).fdiv(billion);
    let pb = Single::fint(b.nanos as nat).fdiv(billion);
    lemma_whole(a.secs as nat);
    lemma_whole(b.secs as nat);
    lemma_parts(a.nanos as nat, a.nanos as nat);
    lemma_parts(b.nanos as nat, b.nanos as nat);
    crate::single_laws::law_sum_is_nearest(wa, pa);
    crate::single_laws::law_sum_is_nearest(wb, pb);
    if a.secs == b.secs {
        lemma_parts(a.nanos as nat, b.nanos as nat);
        crate::single_laws::law_rank_orders_values(pa, pb);
        crate::single_laws::law_nearest_is_monotone(
            wa.units() + pa.units(),
            wb.units() + pb.units(),
        );
    } else {
        let unit = pow2(149);
        let one = Single::lit(ONE);
        let z = Single::lit(0);
        let s = a.secs as nat;
        lemma2_to64_rest();
        crate::single_laws::lemma_one();
        crate::single_laws::law_rank_orders_values(pa, one);
        crate::single_laws::law_rank_orders_values(z, pb);
        crate::single::lemma_single_sizes();
        crate::ieee::lemma_mag_zero(crate::single::single_spec(), z.spec_num());
        crate::single_laws::law_nearest_is_monotone(
            wa.units() + pa.units(),
            wa.units() + unit,
        );
        lemma_next_whole(s);
        lemma_whole(s + 1);
        assert((s + 1) * unit <= b.secs as nat * unit) by (nonlinear_arith)
            requires
                s + 1 <= b.secs as nat,
        ;
        crate::rounding_laws::law_rounding_is_monotone(
            24,
            255,
            (s + 1) * unit,
            1,
            b.secs as nat * unit,
            1,
        );
        crate::single_laws::law_nearest_of_number(wb);
        crate::single_laws::law_nearest_is_monotone(wb.units(), wb.units() + pb.units());
    }
}

} // verus!
