//! Laws of single-precision arithmetic, in terms of the ranks of numbers.

use crate::ieee::Num;
use crate::single::{Single, ONE, SIGN};
use vstd::arithmetic::div_mod::*;
use vstd::arithmetic::power2::*;
use vstd::prelude::*;

verus! {

/// The rank of the number nearest to `v` units.
pub open spec fn nearest(v: int) -> int {
    if v >= 0 {
        crate::single::single_spec().round(v as nat, 1) as int
    } else {
        -(crate::single::single_spec().round((-v) as nat, 1) as int)
    }
}

/// Rounding keeps order, across zero too.
pub proof fn law_nearest_is_monotone(v: int, w: int)
    requires
        v <= w,
    ensures
        nearest(v) <= nearest(w),
{
    let f = crate::single::single_spec();
    if v >= 0 {
        crate::rounding_laws::law_rounding_is_monotone(
            24,
            255,
            v as nat,
            1,
            w as nat,
            1,
        );
    } else if w < 0 {
        crate::rounding_laws::law_rounding_is_monotone(
            24,
            255,
            (-w) as nat,
            1,
            (-v) as nat,
            1,
        );
    }
}

/// A finite number is nearest to its own value.
pub proof fn law_nearest_of_number(a: Single)
    requires
        a.finite(),
    ensures
        nearest(a.units()) == a.rank(),
{
    crate::single::lemma_single_sizes();
    let f = crate::single::single_spec();
    let n = a.spec_num();
    crate::rounding_laws::law_rounding_is_exact(24, 255, n.code as nat);
    if f.mag(n) == 0 {
        // only code 0 has magnitude 0
        crate::rounding_laws::law_rounding_is_exact(24, 255, 0);
        crate::ieee::lemma_mag_zero(f, Num { neg: false, code: 0 });
    }
}

/// The order of ranks is the order of values.
pub proof fn law_rank_orders_values(a: Single, b: Single)
    requires
        a.finite(),
        b.finite(),
    ensures
        a.rank() <= b.rank() <==> a.units() <= b.units(),
{
    law_nearest_of_number(a);
    law_nearest_of_number(b);
    if a.units() <= b.units() {
        law_nearest_is_monotone(a.units(), b.units());
    } else {
        law_nearest_is_monotone(b.units(), a.units());
        if a.rank() == b.rank() {
            assert(a.code() == b.code());
            let f = crate::single::single_spec();
            crate::single::lemma_single_sizes();
            if a.code() == 0 {
                crate::ieee::lemma_mag_zero(f, a.spec_num());
                crate::ieee::lemma_mag_zero(f, b.spec_num());
            }
        }
    }
}

/// The sum of two finite numbers is the number nearest to the exact sum.
pub proof fn law_sum_is_nearest(a: Single, b: Single)
    requires
        a.finite(),
        b.finite(),
    ensures
        !a.fadd(b).nan(),
        a.fadd(b).rank() == nearest(a.units() + b.units()),
{
    reveal(Single::fadd);
    crate::single::lemma_single_sizes();
    let f = crate::single::single_spec();
    let v = a.units() + b.units();
    crate::rounding_laws::law_rounding_is_exact(24, 255, 0);
    crate::ieee::lemma_mag_zero(f, Num { neg: false, code: 0 });
    assert(crate::rounding::code_mag(24, 0) == 0);
    assert(f.round((if v >= 0 { v } else { -v }) as nat, 1) <= f.inf());
}

/// Multiplying by one changes no finite number, and by minus one its sign
/// only.
pub proof fn law_unit_factors(x: Single)
    requires
        x.finite(),
    ensures
        Single::lit(ONE).fmul(x) == x,
        Single::lit((ONE + SIGN) as u32).fmul(x) == x.fneg(),
{
    reveal(Single::fmul);
    crate::single::lemma_single_sizes();
    let f = crate::single::single_spec();
    let one = Single::lit(ONE).spec_num();
    lemma2_to64();
    lemma_pow2_adds(23, 126);
    lemma_fundamental_div_mod_converse(0x3f80_0000, 0x80_0000, 127, 0);
    assert(f.mag(one) == pow2(149));
    lemma_pow2_pos(149);
    let m = f.mag(x.spec_num());
    crate::rounding_laws::law_rounding_ignores_scale(24, 255, m, 1, pow2(149));
    crate::rounding_laws::law_rounding_is_exact(24, 255, x.code());
    assert(pow2(149) * m == m * pow2(149)) by (nonlinear_arith);
    assert(1 * pow2(149) == pow2(149));
}

/// The difference of finite numbers exceeds a number only where the exact
/// difference does.
pub proof fn law_difference_beyond(a: Single, b: Single, s: Single)
    requires
        a.finite(),
        b.finite(),
        s.finite(),
        a.fsub(b).rank() > s.rank(),
    ensures
        a.units() - b.units() > s.units(),
{
    lemma_negated_units(b);
    law_sum_is_nearest(a, b.fneg());
    law_nearest_of_number(s);
    if a.units() - b.units() <= s.units() {
        law_nearest_is_monotone(a.units() - b.units(), s.units());
    }
}

pub proof fn lemma_negated_units(a: Single)
    requires
        a.finite(),
    ensures
        a.fneg().finite(),
        a.fneg().units() == -a.units(),
        a.fneg().rank() == -a.rank(),
{
}

/// The product of two finite numbers is a number.
pub proof fn law_finite_product_is_a_number(a: Single, b: Single)
    requires
        a.finite(),
        b.finite(),
    ensures
        !a.fmul(b).nan(),
{
    reveal(Single::fmul);
    crate::single::lemma_single_sizes();
}

/// Magnitudes up to `2^(23 + k)` units round to codes up to `(k + 1) * 2^23`.
pub(crate) proof fn lemma_round_up_to_power(n: nat, d: nat, k: nat)
    requires
        d > 0,
        k < 254,
        n <= pow2(23 + k) * d,
    ensures
        crate::single::single_spec().round(n, d) <= (k + 1) * 0x80_0000,
{
    let f = crate::single::single_spec();
    let c = (k + 1) * 0x80_0000;
    crate::single::lemma_single_sizes();
    lemma2_to64();
    lemma_fundamental_div_mod_converse(c as int, 0x80_0000, (k + 1) as int, 0);
    lemma_pow2_adds(23, k);
    assert(crate::rounding::code_mag(24, c) == pow2(23 + k)) by {
        assert(c - k * 0x80_0000 == 0x80_0000);
    }
    crate::rounding_laws::law_rounding_is_exact(24, 255, c);
    crate::rounding_laws::law_rounding_is_monotone(24, 255, n, d, pow2(23 + k), 1);
}

/// An integer of `bits` binary digits is a finite number.
pub(crate) proof fn lemma_integer_up_to(x: nat, bits: nat)
    requires
        x <= pow2(bits),
        bits <= 64,
    ensures
        Single::fint(x).finite(),
        !Single::fint(x).is_negative(),
        Single::fint(x).units() <= pow2(bits + 149),
        Single::fint(x).units() >= 0,
{
    reveal(Single::fint);
    crate::single::lemma_single_sizes();
    lemma_pow2_adds(bits, 149);
    lemma_pow2_pos(149);
    assert(x * pow2(149) <= pow2(bits + 149) * 1) by (nonlinear_arith)
        requires
            x <= pow2(bits),
            pow2(bits + 149) == pow2(bits) * pow2(149),
    ;
    let k = (bits + 126) as nat;
    assert(23 + k == bits + 149);
    lemma_round_up_to_power(x * pow2(149), 1, k);
    lemma_units_up_to(Single::fint(x), k);
}

proof fn lemma_units_up_to(a: Single, k: nat)
    requires
        k < 254,
        !a.is_negative(),
        a.code() <= (k + 1) * 0x80_0000,
    ensures
        a.finite(),
        0 <= a.units() <= pow2(23 + k),
{
    let f = crate::single::single_spec();
    crate::single::lemma_single_sizes();
    lemma2_to64();
    let c = (k + 1) * 0x80_0000;
    lemma_fundamental_div_mod_converse(c as int, 0x80_0000, (k + 1) as int, 0);
    lemma_pow2_adds(23, k);
    let top = Num { neg: false, code: c as u64 };
    assert(f.mag(top) == pow2(23 + k)) by {
        assert(c - k * 0x80_0000 == 0x80_0000);
    }
    if a.code() < c {
        crate::ieee::lemma_mag_ordered(f, a.spec_num(), top);
    }
}

/// A span in seconds is a finite number, and not a negative one.
pub proof fn law_seconds_are_finite(dt: crate::time::Span)
    requires
        dt.wf(),
    ensures
        dt.spec_seconds().finite(),
        dt.spec_seconds().rank() >= 0,
{
    let billion = Single::lit(crate::time::BILLION);
    let whole = Single::fint(dt.secs as nat);
    let nanos = Single::fint(dt.nanos as nat);
    let part = nanos.fdiv(billion);
    lemma2_to64();
    lemma2_to64_rest();
    lemma_integer_up_to(dt.secs as nat, 64);
    lemma_integer_up_to(dt.nanos as nat, 30);
    crate::single::lemma_single_sizes();
    let f = crate::single::single_spec();
    // the billion has magnitude at least 2^178
    let m = f.mag(billion.spec_num());
    lemma_fundamental_div_mod_converse(0x4e6e_6b28, 0x80_0000, 156, 0x6e_6b28);
    lemma_pow2_adds(23, 155);
    lemma_pow2_pos(155);
    assert(m == (0x80_0000 + 0x6e_6b28) * pow2(155));
    assert(m >= pow2(178)) by (nonlinear_arith)
        requires
            m == (0x80_0000 + 0x6e_6b28) * pow2(155),
            pow2(178) == 0x80_0000 * pow2(155),
    ;
    lemma_pow2_unfold(179);
    lemma_pow2_unfold(150);
    lemma_pow2_pos(149);
    let n = f.mag(nanos.spec_num());
    assert(n * pow2(149) <= pow2(150) * m) by (nonlinear_arith)
        requires
            n <= 2 * pow2(178),
            m >= pow2(178),
            pow2(150) == 2 * pow2(149),
    {
        assert(n * pow2(149) <= (2 * m) * pow2(149));
    }
    assert(m > 0);
    lemma_round_up_to_power(n * pow2(149), m, 127);
    reveal(Single::fdiv);
    assert(!part.is_negative() && part.code() <= 128 * 0x80_0000);
    lemma_units_up_to(part, 127);
    // the sum is below 2^214 units
    law_sum_is_nearest(whole, part);
    crate::rounding::lemma_pow2_monotone(150, 213);
    lemma_pow2_unfold(214);
    let v = whole.units() + part.units();
    lemma_round_up_to_power(v as nat, 1, 191);
    assert(nearest(v) <= 192 * 0x80_0000);
}

/// The product of finite numbers that are not negative is not negative.
pub proof fn law_product_of_nonnegative(a: Single, b: Single)
    requires
        a.finite(),
        b.finite(),
        a.rank() >= 0,
        b.rank() >= 0,
    ensures
        !a.fmul(b).nan(),
        a.fmul(b).rank() >= 0,
{
    reveal(Single::fmul);
    crate::single::lemma_single_sizes();
    let f = crate::single::single_spec();
    let z = Num { neg: false, code: 0 };
    crate::ieee::lemma_mag_zero(f, z);
    if a.is_negative() || b.is_negative() {
        // a negative zero: the product is a zero
        lemma_pow2_pos(149);
        crate::rounding_laws::law_rounding_is_exact(24, 255, 0);
        crate::rounding_laws::law_rounding_ignores_scale(24, 255, 0, 1, pow2(149));
        if a.code() == 0 {
            crate::ieee::lemma_mag_zero(f, a.spec_num());
        }
        if b.code() == 0 {
            crate::ieee::lemma_mag_zero(f, b.spec_num());
        }
        assert(f.mag(a.spec_num()) * f.mag(b.spec_num()) == 0) by (nonlinear_arith)
            requires
                f.mag(a.spec_num()) == 0 || f.mag(b.spec_num()) == 0,
        ;
        assert(0 * pow2(149) == 0);
    }
}

/// From zero to one.
pub open spec fn is_fraction(a: Single) -> bool {
    0 <= a.rank() <= ONE
}

/// One is `2^149` units.
pub(crate) proof fn lemma_one()
    ensures
        Single::lit(ONE).finite(),
        Single::lit(ONE).units() == pow2(149),
        crate::single::single_spec().mag(Single::lit(ONE).spec_num()) == pow2(149),
        crate::single::single_spec().round(pow2(149), 1) == ONE,
{
    crate::single::lemma_single_sizes();
    lemma2_to64();
    lemma_pow2_adds(23, 126);
    lemma_fundamental_div_mod_converse(0x3f80_0000, 0x80_0000, 127, 0);
    assert(crate::rounding::code_mag(24, 0x3f80_0000) == pow2(149));
    crate::rounding_laws::law_rounding_is_exact(24, 255, 0x3f80_0000);
}

/// A number that is not negative, a zero of either sign among them, has its
/// magnitude as value.
proof fn lemma_units_of_nonnegative(a: Single)
    requires
        a.finite(),
        a.rank() >= 0,
    ensures
        a.units() == crate::single::single_spec().mag(a.spec_num()),
        a.rank() == a.code(),
{
    crate::single::lemma_single_sizes();
    if a.is_negative() {
        crate::ieee::lemma_mag_zero(crate::single::single_spec(), a.spec_num());
    }
}

/// A fraction of a number that is not negative lies between zero and the
/// number.
pub proof fn law_fraction_shrinks(a: Single, b: Single)
    requires
        a.finite(),
        a.rank() >= 0,
        is_fraction(b),
    ensures
        a.fmul(b).finite(),
        0 <= a.fmul(b).rank() <= a.rank(),
{
    law_product_of_nonnegative(a, b);
    reveal(Single::fmul);
    crate::single::lemma_single_sizes();
    let f = crate::single::single_spec();
    lemma_one();
    lemma_units_of_nonnegative(a);
    lemma_units_of_nonnegative(b);
    law_rank_orders_values(b, Single::lit(ONE));
    let m = f.mag(a.spec_num());
    let n = f.mag(b.spec_num());
    let unit = pow2(149);
    lemma_pow2_pos(149);
    assert((m * n) * 1 <= m * unit) by (nonlinear_arith)
        requires
            n <= unit,
    ;
    crate::rounding_laws::law_rounding_is_monotone(24, 255, m * n, unit, m, 1);
    crate::rounding_laws::law_rounding_is_exact(24, 255, a.code());
}

/// A number over a larger one is a fraction, and grows with the numerator.
pub proof fn law_ratio_is_a_fraction(a: Single, b: Single, c: Single)
    requires
        0 <= a.rank() <= b.rank() <= c.rank(),
        c.rank() > 0,
        c.finite(),
    ensures
        is_fraction(a.fdiv(c)),
        is_fraction(b.fdiv(c)),
        a.fdiv(c).rank() <= b.fdiv(c).rank(),
{
    crate::single::lemma_single_sizes();
    let f = crate::single::single_spec();
    lemma_one();
    lemma_units_of_nonnegative(a);
    lemma_units_of_nonnegative(b);
    lemma_units_of_nonnegative(c);
    law_rank_orders_values(a, b);
    law_rank_orders_values(b, c);
    let l = f.mag(a.spec_num());
    let m = f.mag(b.spec_num());
    let n = f.mag(c.spec_num());
    let unit = pow2(149);
    let z = Single::lit(0);
    crate::ieee::lemma_mag_zero(f, z.spec_num());
    law_rank_orders_values(c, z);
    assert(n > 0);
    assert((l * unit) * n <= (m * unit) * n && (m * unit) * 1 <= unit * n) by (nonlinear_arith)
        requires
            l <= m <= n,
    ;
    crate::rounding_laws::law_rounding_is_monotone(24, 255, l * unit, n, m * unit, n);
    crate::rounding_laws::law_rounding_is_monotone(24, 255, m * unit, n, unit, 1);
    lemma_quotient_of_nonnegative(a, c);
    lemma_quotient_of_nonnegative(b, c);
}

/// The quotient by a positive number rounds the quotient of the magnitudes.
proof fn lemma_quotient_of_nonnegative(a: Single, c: Single)
    requires
        a.finite(),
        c.finite(),
        a.rank() >= 0,
        c.rank() > 0,
    ensures
        a.fdiv(c).rank() == crate::single::single_spec().round(
            crate::single::single_spec().mag(a.spec_num()) * pow2(149),
            crate::single::single_spec().mag(c.spec_num()),
        ),
{
    reveal(Single::fdiv);
    crate::single::lemma_single_sizes();
    let f = crate::single::single_spec();
    if a.code() == 0 {
        let n = f.mag(c.spec_num());
        crate::rounding_laws::law_rounding_is_exact(24, 255, 0);
        crate::ieee::lemma_mag_zero(f, Num { neg: false, code: 0 });
        crate::ieee::lemma_mag_zero(f, a.spec_num());
        law_rank_orders_values(c, Single::lit(0));
        assert(0 * pow2(149) == 0);
        crate::rounding_laws::law_rounding_is_monotone(24, 255, 0, n, 0, 1);
    }
}

/// What a fraction leaves of one is a fraction.
pub proof fn law_complement_is_a_fraction(a: Single)
    requires
        is_fraction(a),
    ensures
        is_fraction(Single::lit(ONE).fsub(a)),
{
    lemma_one();
    lemma_negated_units(a);
    lemma_units_of_nonnegative(a);
    law_rank_orders_values(a, Single::lit(ONE));
    law_sum_is_nearest(Single::lit(ONE), a.fneg());
    law_nearest_is_monotone(pow2(149) - a.units(), pow2(149) as int);
    let z = Single::lit(0);
    law_nearest_of_number(z);
    crate::single::lemma_single_sizes();
    crate::ieee::lemma_mag_zero(crate::single::single_spec(), z.spec_num());
    law_nearest_is_monotone(0, pow2(149) - a.units());
}

} // verus!
