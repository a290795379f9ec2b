//! Double-precision arithmetic in real numbers: it is at least as close as
//! single-precision arithmetic.

use crate::accuracy;
use crate::double::{Double, DINFINITY};
use crate::ieee::Num;
use crate::reals;
use crate::single::Single;
use vstd::arithmetic::div_mod::*;
use vstd::arithmetic::power2::*;
use vstd::prelude::*;

verus! {

impl Double {
    /// The real value of a finite number.
    pub open spec fn value(self) -> real {
        self.units() as real / pow2(1074) as real
    }
}

/// The absolute error of one operation near zero, `2^-1075`.
pub open spec fn wide_speck() -> real {
    1real / (2real * pow2(1074) as real)
}

pub(crate) proof fn lemma_wide_speck()
    ensures
        (1real / 2real) / pow2(1074) as real == wide_speck(),
        wide_speck() > 0real,
        wide_speck() <= accuracy::speck(),
        0real / pow2(1074) as real == 0real,
{
    let u = pow2(1074) as real;
    let v = pow2(149) as real;
    lemma_pow2_pos(1074);
    lemma_pow2_pos(149);
    crate::rounding::lemma_pow2_monotone(149, 1074);
    assert((1real / 2real) / u == 1real / (2real * u) && 1real / (2real * u) > 0real && 0real / u
        == 0real) by (nonlinear_arith)
        requires
            u > 0real,
    ;
    let a = 1real / (2real * u);
    let b = 1real / (2real * v);
    reals::lemma_quotient(1real, 2real * u);
    reals::lemma_inverse(2real * v);
    reals::lemma_scales(2real * v, 2real * u, b);
    reals::lemma_commutes(b, 2real * u);
    reals::lemma_commutes(b, 2real * v);
    reals::lemma_cancels(a, b, 2real * u);
}

/// The code of a rounded magnitude stands for a multiple of the step of its
/// binade.
proof fn lemma_wide_rounded(n: nat, d: nat)
    requires
        d > 0,
        n <= d * pow2(1201),
    ensures
        ({
            let k = crate::rounding::binade(53, n, d);
            let q = crate::rounding::rne(n, d * pow2(k));
            let c = crate::rounding::round_code(53, 2047, n, d);
            &&& k <= 1149
            &&& k > 0 ==> n >= d * pow2(52 + k)
            &&& c < DINFINITY
            &&& crate::rounding::code_mag(53, c) == q * pow2(k)
        }),
{
    let k = crate::rounding::binade(53, n, d);
    let step = pow2(k);
    let w = d * step;
    let q = crate::rounding::rne(n, w);
    lemma2_to64();
    lemma2_to64_rest();
    lemma_pow2_pos(k);
    crate::rounding_laws::lemma_binade_bounds(53, n, d);
    assert(w > 0) by (nonlinear_arith)
        requires
            w == d * step,
            d > 0,
            step > 0,
    ;
    if k >= 1150 {
        let high = pow2((53 + k - 1) as nat);
        lemma_pow2_strictly_increases(1201, (53 + k - 1) as nat);
        assert(d * pow2(1201) < d * high) by (nonlinear_arith)
            requires
                pow2(1201) < high,
                d > 0,
        ;
    }
    lemma_pow2_adds(53, k);
    lemma_fundamental_div_mod(n as int, w as int);
    let low = n / w;
    let r = n % w;
    assert(d * (0x20_0000_0000_0000 * step) == 0x20_0000_0000_0000 * w) by (nonlinear_arith)
        requires
            w == d * step,
    ;
    assert(low < 0x20_0000_0000_0000) by (nonlinear_arith)
        requires
            n < 0x20_0000_0000_0000 * w,
            n == w * low + r,
            r >= 0,
    ;
    if k > 0 {
        lemma_pow2_adds(52, k);
        assert((53 + k - 1) as nat == 52 + k);
        assert(d * (0x10_0000_0000_0000 * step) == 0x10_0000_0000_0000 * w) by (nonlinear_arith)
            requires
                w == d * step,
        ;
        assert(low >= 0x10_0000_0000_0000) by (nonlinear_arith)
            requires
                n >= 0x10_0000_0000_0000 * w,
                n < w * low + w,
        ;
    }
    let c = k * 0x10_0000_0000_0000 + q;
    assert(pow2((53 - 1) as nat) == 0x10_0000_0000_0000);
    assert(c <= 2047 * 0x10_0000_0000_0000);
    if q == 0x20_0000_0000_0000 {
        lemma_fundamental_div_mod_converse(c as int, 0x10_0000_0000_0000, (k + 2) as int, 0);
        lemma_pow2_unfold(k + 1);
        assert(c - (k + 1) * 0x10_0000_0000_0000 == 0x10_0000_0000_0000);
        assert(0x10_0000_0000_0000 * pow2(k + 1) == 0x20_0000_0000_0000 * step);
    } else if q >= 0x10_0000_0000_0000 {
        lemma_fundamental_div_mod_converse(
            c as int,
            0x10_0000_0000_0000,
            (k + 1) as int,
            q - 0x10_0000_0000_0000,
        );
        assert(c - k * 0x10_0000_0000_0000 == q);
    } else {
        assert(k == 0);
    }
}

/// A rounded magnitude is off by the relative error and half a unit at most,
/// and by the relative error alone where it is a whole number of units.
pub(crate) proof fn lemma_rounding_error(n: nat, d: nat)
    requires
        d > 0,
        n <= d * pow2(1201),
    ensures
        ({
            let code = crate::double::double_spec().round(n, d);
            let m = crate::rounding::code_mag(53, code) as real;
            let x = n as real / d as real;
            &&& code < DINFINITY
            &&& accuracy::dist(m - x) <= x * accuracy::half_ulp() + 1real / 2real
            &&& d == 1 ==> accuracy::dist(m - x) <= x * accuracy::half_ulp()
        }),
{
    let code = crate::double::double_spec().round(n, d);
    let k = crate::rounding::binade(53, n, d);
    let step = pow2(k);
    let w = d * step;
    let q = crate::rounding::rne(n, w);
    let m = crate::rounding::code_mag(53, code);
    lemma_pow2_pos(k);
    lemma_wide_rounded(n, d);
    assert(w > 0) by (nonlinear_arith)
        requires
            w == d * step,
            d > 0,
            step > 0,
    ;
    accuracy::lemma_rne_close(n, w);
    assert(q * w == m * d) by (nonlinear_arith)
        requires
            m == q * step,
            w == d * step,
    ;
    let e = m * d - n;
    if k > 0 {
        lemma_pow2_adds(52, k);
        lemma2_to64_rest();
        assert(d * (0x10_0000_0000_0000 * step) == 0x10_0000_0000_0000 * w) by (nonlinear_arith)
            requires
                w == d * step,
        ;
        assert(16777216 * e <= n && -16777216 * e <= n);
    } else {
        lemma2_to64();
        assert(w == d) by (nonlinear_arith)
            requires
                w == d * step,
                step == 1,
        ;
        if d == 1 {
            assert(e == 0);
        }
    }
    assert(16777216 * e <= n + 8388608 * d && -16777216 * e <= n + 8388608 * d);
    let mr = m as real;
    let dr = d as real;
    let nr = n as real;
    let x = nr / dr;
    assert((m * d) as real == mr * dr) by (nonlinear_arith)
        requires
            mr == m as real,
            dr == d as real,
    ;
    let er = e as real;
    assert(er == mr * dr - nr);
    reals::lemma_quotient(nr, dr);
    reals::lemma_distributes(mr, x, dr);
    let diff = mr - x;
    assert(diff * dr == er);
    reals::lemma_associates(16777216real, diff, dr);
    reals::lemma_associates(-16777216real, diff, dr);
    reals::lemma_distributes(x, 8388608real, dr);
    reals::lemma_cancels(16777216real * diff, x + 8388608real, dr);
    reals::lemma_cancels(-16777216real * diff, x + 8388608real, dr);
    if d == 1 {
        reals::lemma_zero(diff);
        reals::lemma_zero(x);
        assert(16777216 * e <= n && -16777216 * e <= n);
    }
    accuracy::lemma_half_ulp(x);
}

/// A sign and a finite code as a number.
pub(crate) proof fn lemma_signed_code(neg: bool, code: nat)
    requires
        code < DINFINITY,
    ensures
        ({
            let r = crate::double::double_of(Num { neg, code: code as u64 });
            let m = crate::rounding::code_mag(53, code) as real;
            &&& r.finite()
            &&& r.is_negative() == neg
            &&& r.code() == code
            &&& r.value() == (if neg {
                -m
            } else {
                m
            }) / pow2(1074) as real
        }),
{
    let r = crate::double::double_of(Num { neg, code: code as u64 });
    assert(r.spec_num().code == code);
}

/// The value of a number has its sign, and its magnitude over `2^149`.
pub(crate) proof fn lemma_val_parts(a: Double)
    requires
        a.finite(),
    ensures
        ({
            let m = crate::double::double_spec().mag(a.spec_num()) as real;
            let u = pow2(1074) as real;
            &&& u > 0real
            &&& a.value() * u == if a.is_negative() {
                -m
            } else {
                m
            }
            &&& accuracy::dist(a.value()) * u == m
        }),
{
    let m = crate::double::double_spec().mag(a.spec_num()) as real;
    let u = pow2(1074) as real;
    lemma_pow2_pos(1074);
    assert(u > 0real);
    let n = a.units() as real;
    assert((n / u) * u == n) by (nonlinear_arith)
        requires
            u > 0real,
    ;
    let v = a.value();
    assert(v < 0real <==> n < 0real) by (nonlinear_arith)
        requires
            u > 0real,
            v * u == n,
    ;
    assert((-v) * u == -n) by (nonlinear_arith)
        requires
            v * u == n,
    ;
}

/// The product of two numbers, where it does not overflow, is off by the
/// relative error and a speck at most.
pub proof fn law_wide_product_is_accurate(a: Double, b: Double)
    requires
        a.finite(),
        b.finite(),
        accuracy::dist(a.value() * b.value()) <= accuracy::ample(),
    ensures
        a.dmul(b).finite(),
        accuracy::close(a.dmul(b).value(), a.value() * b.value(), accuracy::half_ulp(), wide_speck()),
{
    reveal(Double::dmul);
    crate::double::lemma_double_sizes();
    let f = crate::double::double_spec();
    let u = pow2(1074) as real;
    lemma_val_parts(a);
    lemma_val_parts(b);
    let ma = f.mag(a.spec_num());
    let mb = f.mag(b.spec_num());
    let n = ma * mb;
    let d = pow2(1074);
    let va = accuracy::dist(a.value());
    let vb = accuracy::dist(b.value());
    let x = n as real / u;
    let v = a.value() * b.value();
    assert(n as real == (ma as real) * (mb as real)) by (nonlinear_arith)
        requires
            n == ma * mb,
    ;
    assert(accuracy::dist(v) == va * vb) by {
        accuracy::lemma_dist_product(a.value(), b.value());
    }
    assert(n as real == (va * vb) * u * u) by (nonlinear_arith)
        requires
            n as real == (ma as real) * (mb as real),
            va * u == ma as real,
            vb * u == mb as real,
    ;
    assert(x == accuracy::dist(v) * u) by (nonlinear_arith)
        requires
            x == n as real / u,
            n as real == accuracy::dist(v) * u * u,
            u > 0real,
    ;
    lemma_within_range(n, d, accuracy::dist(v));
    lemma_rounding_error(n, d);
    let code = f.round(n, d);
    let neg = a.is_negative() != b.is_negative();
    lemma_signed_code(neg, code);
    lemma_signed_error(
        neg,
        crate::rounding::code_mag(53, code) as real,
        x,
        v,
        1real / 2real,
    );
    lemma_wide_speck();
    lemma_sign_of_val(a);
    lemma_sign_of_val(b);
    accuracy::lemma_sign_of_product(a.value(), b.value(), v);
}

/// A magnitude up to `2^126` is within the range of the rounding.
proof fn lemma_within_range(n: nat, d: nat, v: real)
    requires
        d > 0,
        0real <= v <= accuracy::ample(),
        n as real / d as real == v * pow2(1074) as real,
    ensures
        n <= d * pow2(1201),
{
    lemma_pow2_adds(126, 1074);
    lemma_pow2_unfold(1201);
    lemma_pow2_pos(1074);
    let u = pow2(1074) as real;
    let top = pow2(1200);
    assert(top as real == accuracy::ample() * u) by (nonlinear_arith)
        requires
            top == pow2(126) * pow2(1074),
            accuracy::ample() == pow2(126) as real,
            u == pow2(1074) as real,
    ;
    let nr = n as real;
    let dr = d as real;
    assert(nr <= dr * top as real) by (nonlinear_arith)
        requires
            nr / dr == v * u,
            v <= accuracy::ample(),
            top as real == accuracy::ample() * u,
            u > 0real,
            dr > 0real,
    {
        assert(nr == (nr / dr) * dr);
        assert(v * u <= accuracy::ample() * u);
    }
    assert((d * top) as real == dr * top as real) by (nonlinear_arith)
        requires
            dr == d as real,
    ;
    assert(n <= d * top);
    assert(d * top <= d * pow2(1201)) by (nonlinear_arith)
        requires
            pow2(1201) == 2 * top,
            top >= 0,
    ;
}

/// The error of a magnitude, in units, is that of the signed value.
proof fn lemma_signed_error(neg: bool, m: real, x: real, v: real, t: real)
    requires
        accuracy::dist(m - x) <= x * accuracy::half_ulp() + t,
        x == accuracy::dist(v) * pow2(1074) as real,
    ensures
        neg && v == -accuracy::dist(v) ==> accuracy::close(
            -m / pow2(1074) as real,
            v,
            accuracy::half_ulp(),
            t / pow2(1074) as real,
        ),
        !neg && v == accuracy::dist(v) ==> accuracy::close(
            m / pow2(1074) as real,
            v,
            accuracy::half_ulp(),
            t / pow2(1074) as real,
        ),
{
    let u = pow2(1074) as real;
    let h = accuracy::half_ulp();
    lemma_pow2_pos(1074);
    assert(u > 0real);
    let y = m / u;
    let e = y - accuracy::dist(v);
    let s = t / u;
    assert(y * u == m) by (nonlinear_arith)
        requires
            u > 0real,
            y == m / u,
    ;
    assert(-m / u == -y) by (nonlinear_arith)
        requires
            u > 0real,
            y == m / u,
    ;
    assert(e <= accuracy::dist(v) * h + s && -e <= accuracy::dist(v) * h + s) by (nonlinear_arith)
        requires
            u > 0real,
            s == t / u,
            e == y - accuracy::dist(v),
            y * u == m,
            x == accuracy::dist(v) * u,
            m - x <= x * h + t,
            x - m <= x * h + t,
    {
        assert(s * u == t);
        assert(e * u == m - x);
        assert((accuracy::dist(v) * h + s) * u == x * h + t);
    }
}

/// The sum of two numbers, where it does not overflow, is off by the relative
/// error at most.
pub proof fn law_wide_sum_is_accurate(a: Double, b: Double)
    requires
        a.finite(),
        b.finite(),
        accuracy::dist(a.value() + b.value()) <= accuracy::ample(),
    ensures
        a.dadd(b).finite(),
        accuracy::close(a.dadd(b).value(), a.value() + b.value(), accuracy::half_ulp(), 0real),
{
    reveal(Double::dadd);
    crate::double::lemma_double_sizes();
    let f = crate::double::double_spec();
    let u = pow2(1074) as real;
    lemma_val_parts(a);
    lemma_val_parts(b);
    lemma_wide_speck();
    let w = a.units() + b.units();
    let n = if w < 0 {
        -w
    } else {
        w
    };
    let v = a.value() + b.value();
    assert(w as real == v * u) by (nonlinear_arith)
        requires
            w as real == a.units() as real + b.units() as real,
            a.value() * u == a.units() as real,
            b.value() * u == b.units() as real,
            v == a.value() + b.value(),
    ;
    assert(n as real == accuracy::dist(v) * u && (w < 0 <==> v < 0real)) by (nonlinear_arith)
        requires
            w as real == v * u,
            u > 0real,
            n == if w < 0 {
                -w
            } else {
                w
            },
            accuracy::dist(v) == if v < 0real {
                -v
            } else {
                v
            },
    ;
    assert(n as real / 1real == n as real);
    lemma_within_range(n as nat, 1, accuracy::dist(v));
    lemma_rounding_error(n as nat, 1);
    let neg = w < 0;
    let code = f.round(n as nat, 1);
    lemma_signed_code(neg, code);
    lemma_signed_error(
        neg,
        crate::rounding::code_mag(53, code) as real,
        n as real,
        v,
        0real,
    );
    if w == 0 {
        let both = a.is_negative() && b.is_negative();
        lemma_signed_code(both, 0);
        crate::ieee::lemma_mag_zero(f, Num { neg: false, code: 0 });
        assert(crate::rounding::code_mag(53, 0) == 0);
        assert(v == 0real) by (nonlinear_arith)
            requires
                w as real == v * u,
                w == 0,
                u > 0real,
        ;
        assert(-(0nat as real) == 0real);
    }
}

/// The difference of two numbers, likewise.
pub proof fn law_wide_difference_is_accurate(a: Double, b: Double)
    requires
        a.finite(),
        b.finite(),
        accuracy::dist(a.value() - b.value()) <= accuracy::ample(),
    ensures
        a.dsub(b).finite(),
        accuracy::close(a.dsub(b).value(), a.value() - b.value(), accuracy::half_ulp(), 0real),
{
    lemma_negated_val(b);
    law_wide_sum_is_accurate(a, b.dneg());
}

pub(crate) proof fn lemma_negated_val(b: Double)
    requires
        b.finite(),
    ensures
        b.dneg().finite(),
        b.dneg().value() == -b.value(),
{
    assert(b.dneg().units() == -b.units());
    lemma_pow2_pos(1074);
    let n = b.units() as real;
    let u = pow2(1074) as real;
    assert((-n) / u == -(n / u)) by (nonlinear_arith)
        requires
            u > 0real,
    ;
}

/// The quotient of two numbers, where it does not overflow, is off by the
/// relative error and a speck at most.
pub proof fn law_wide_quotient_is_accurate(a: Double, b: Double)
    requires
        a.finite(),
        b.finite(),
        b.value() != 0real,
        accuracy::dist(a.value() / b.value()) <= accuracy::ample(),
    ensures
        a.ddiv(b).finite(),
        accuracy::close(a.ddiv(b).value(), a.value() / b.value(), accuracy::half_ulp(), wide_speck()),
{
    reveal(Double::ddiv);
    crate::double::lemma_double_sizes();
    let f = crate::double::double_spec();
    let u = pow2(1074) as real;
    lemma_val_parts(a);
    lemma_val_parts(b);
    lemma_wide_speck();
    let ma = f.mag(a.spec_num());
    let mb = f.mag(b.spec_num());
    let n = ma * pow2(1074);
    let va = accuracy::dist(a.value());
    let vb = accuracy::dist(b.value());
    let v = a.value() / b.value();
    assert(vb > 0real);
    assert(mb as real > 0real) by (nonlinear_arith)
        requires
            vb * u == mb as real,
            vb > 0real,
            u > 0real,
    ;
    if b.code() == 0 {
        crate::ieee::lemma_mag_zero(f, b.spec_num());
    }
    let x = n as real / mb as real;
    assert(n as real == ma as real * u) by (nonlinear_arith)
        requires
            n == ma * pow2(1074),
            u == pow2(1074) as real,
    ;
    assert(v * b.value() == a.value()) by (nonlinear_arith)
        requires
            v == a.value() / b.value(),
            b.value() != 0real,
    ;
    accuracy::lemma_dist_product(v, b.value());
    assert(x == accuracy::dist(v) * u) by (nonlinear_arith)
        requires
            x == n as real / mb as real,
            n as real == ma as real * u,
            va * u == ma as real,
            vb * u == mb as real,
            va == accuracy::dist(v) * vb,
            vb > 0real,
            u > 0real,
            mb as real > 0real,
    {
        assert(n as real == (accuracy::dist(v) * u) * (mb as real));
    }
    lemma_within_range(n, mb, accuracy::dist(v));
    lemma_rounding_error(n, mb);
    let code = f.round(n, mb);
    let neg = a.is_negative() != b.is_negative();
    lemma_signed_code(neg, code);
    lemma_signed_error(
        neg,
        crate::rounding::code_mag(53, code) as real,
        x,
        v,
        1real / 2real,
    );
    accuracy::lemma_sign_of_product(v, b.value(), a.value());
    lemma_sign_of_val(a);
    lemma_sign_of_val(b);
}

/// A negative number has no positive value, and another no negative one.
pub(crate) proof fn lemma_sign_of_val(a: Double)
    requires
        a.finite(),
    ensures
        a.is_negative() ==> a.value() <= 0real,
        !a.is_negative() ==> a.value() >= 0real,
{
    let u = pow2(1074) as real;
    lemma_val_parts(a);
    let m = crate::double::double_spec().mag(a.spec_num()) as real;
    assert(m >= 0real);
    let v = a.value();
    assert(v * u <= 0real ==> v <= 0real) by (nonlinear_arith)
        requires
            u > 0real,
    ;
    assert(v * u >= 0real ==> v >= 0real) by (nonlinear_arith)
        requires
            u > 0real,
    ;
}

// ---------------------------------------------------------------------------
// Values

/// Zero of either sign.
pub proof fn lemma_wide_zero(z: Double)
    requires
        z.rank() == 0,
    ensures
        z.finite(),
        z.value() == 0real,
{
    crate::double::lemma_double_sizes();
    crate::ieee::lemma_mag_zero(crate::double::double_spec(), z.spec_num());
    lemma_wide_speck();
}

/// A single-precision number in double precision is the same number, as far
/// as single precision tells.
pub proof fn law_widening_is_accurate(a: Single)
    requires
        a.finite(),
        accuracy::dist(a.value()) <= accuracy::ample(),
    ensures
        a.widened().finite(),
        accuracy::close(
            a.widened().value(),
            a.value(),
            accuracy::half_ulp(),
            wide_speck(),
        ),
{
    reveal(Single::widened);
    crate::double::lemma_double_sizes();
    crate::single::lemma_single_sizes();
    accuracy::lemma_val_parts(a);
    accuracy::lemma_sign_of_val(a);
    lemma_wide_speck();
    let u = pow2(149) as real;
    let v = pow2(1074) as real;
    lemma_pow2_pos(149);
    lemma_pow2_pos(1074);
    let m = crate::single::single_spec().mag(a.spec_num());
    let n = m * pow2(1074);
    let d = pow2(149);
    let z = accuracy::dist(a.value());
    assert(n as real == m as real * v) by (nonlinear_arith)
        requires
            n == m * pow2(1074),
            v == pow2(1074) as real,
    ;
    let x = n as real / u;
    reals::lemma_quotient(n as real, u);
    reals::lemma_associates(z, u, v);
    reals::lemma_commutes(u, v);
    reals::lemma_associates(z, v, u);
    assert((z * v) * u == x * u);
    reals::lemma_cancels(x, z * v, u);
    lemma_within_range(n, d, z);
    lemma_rounding_error(n, d);
    let code = crate::double::double_spec().round(n, d);
    lemma_signed_code(a.is_negative(), code);
    lemma_signed_error(
        a.is_negative(),
        crate::rounding::code_mag(53, code) as real,
        x,
        a.value(),
        1real / 2real,
    );
}

/// A whole number is held with the relative error of one rounding.
pub proof fn law_wide_integer_is_accurate(x: nat)
    requires
        x <= u64::MAX,
    ensures
        Double::dint(x).finite(),
        accuracy::close(Double::dint(x).value(), x as real, accuracy::half_ulp(), 0real),
        Double::dint(x).value() >= 0real,
{
    reveal(Double::dint);
    crate::double::lemma_double_sizes();
    lemma_wide_speck();
    let u = pow2(1074) as real;
    lemma_pow2_pos(1074);
    let n = x * pow2(1074);
    assert(n as real == x as real * u && x as real * u >= 0real) by (nonlinear_arith)
        requires
            n == x * pow2(1074),
            u == pow2(1074) as real,
            x >= 0,
            u > 0real,
    ;
    lemma2_to64_rest();
    lemma_pow2_adds(64, 1074);
    crate::rounding::lemma_pow2_monotone(1138, 1201);
    assert(n <= 1 * pow2(1201)) by (nonlinear_arith)
        requires
            n == x * pow2(1074),
            x <= pow2(64),
            pow2(1138) == pow2(64) * pow2(1074),
            pow2(1138) <= pow2(1201),
    ;
    lemma_rounding_error(n, 1);
    let code = crate::double::double_spec().round(n, 1);
    lemma_signed_code(false, code);
    assert(n as real / 1real == n as real);
    lemma_signed_error(
        false,
        crate::rounding::code_mag(53, code) as real,
        n as real,
        x as real,
        0real,
    );
    lemma_sign_of_val(Double::dint(x));
}

/// A double-precision number becomes a single-precision one with the error of
/// one rounding.
pub proof fn law_narrowing_is_accurate(a: Double)
    requires
        a.finite(),
        accuracy::dist(a.value()) <= accuracy::ample(),
    ensures
        a.narrowed().finite(),
        accuracy::close(
            a.narrowed().value(),
            a.value(),
            accuracy::half_ulp(),
            accuracy::speck(),
        ),
{
    reveal(Double::narrowed);
    crate::double::lemma_double_sizes();
    crate::single::lemma_single_sizes();
    lemma_val_parts(a);
    lemma_sign_of_val(a);
    accuracy::lemma_speck();
    let u = pow2(1074) as real;
    let v = pow2(149) as real;
    lemma_pow2_pos(149);
    lemma_pow2_pos(1074);
    let m = crate::double::double_spec().mag(a.spec_num());
    let n = m * pow2(149);
    let d = pow2(1074);
    let z = accuracy::dist(a.value());
    assert(n as real == m as real * v) by (nonlinear_arith)
        requires
            n == m * pow2(149),
            v == pow2(149) as real,
    ;
    let x = n as real / u;
    reals::lemma_quotient(n as real, u);
    reals::lemma_associates(z, u, v);
    reals::lemma_commutes(u, v);
    reals::lemma_associates(z, v, u);
    assert((z * v) * u == x * u);
    reals::lemma_cancels(x, z * v, u);
    accuracy::lemma_within_range(n, d, z);
    accuracy::lemma_rounding_error(n, d);
    let code = crate::single::single_spec().round(n, d);
    accuracy::lemma_signed_code(a.is_negative(), code);
    accuracy::lemma_signed_error(
        a.is_negative(),
        crate::rounding::code_mag(24, code) as real,
        x,
        a.value(),
        1real / 2real,
    );
}

} // verus!
