//! How close single-precision arithmetic comes to the real numbers: every
//! operation is off by half a unit in the last place at most.

use crate::ieee::Num;
use crate::single::{Single, INFINITY};
use crate::time::{Span, BILLION, NANOS_PER_SEC};
use vstd::arithmetic::div_mod::*;
use vstd::arithmetic::power2::*;
use vstd::prelude::*;

verus! {

impl Single {
    /// The real value of a finite number.
    pub open spec fn value(self) -> real {
        self.units() as real / pow2(149) as real
    }
}

impl Span {
    /// The span in seconds, exactly.
    pub open spec fn exact_seconds(self) -> real {
        self.total() as real / 1000000000real
    }
}

/// The distance from zero.
pub open spec fn dist(x: real) -> real {
    if x < 0real {
        -x
    } else {
        x
    }
}

/// `x` limited to a range.
pub open spec fn limited(x: real, lo: real, hi: real) -> real {
    if x < lo {
        lo
    } else if x > hi {
        hi
    } else {
        x
    }
}

/// The smaller of two values.
pub open spec fn lesser(x: real, y: real) -> real {
    if y < x {
        y
    } else {
        x
    }
}

/// The larger of two values.
pub open spec fn greater(x: real, y: real) -> real {
    if x < y {
        y
    } else {
        x
    }
}

/// The relative error of one operation, `2^-24`.
pub open spec fn half_ulp() -> real {
    1real / 16777216real
}

/// The absolute error of one operation near zero, `2^-150`.
pub open spec fn speck() -> real {
    1real / (2real * pow2(149) as real)
}

/// Results up to this one, `2^126`, do not overflow.
pub open spec fn ample() -> real {
    pow2(126) as real
}

/// `r` is `x` up to a relative error and an absolute one.
pub open spec fn close(r: real, x: real, relative: real, absolute: real) -> bool {
    dist(r - x) <= dist(x) * relative + absolute
}

// ---------------------------------------------------------------------------
// Rounding

pub(crate) proof fn lemma_rne_close(n: nat, w: nat)
    requires
        w > 0,
    ensures
        2 * (crate::rounding::rne(n, w) * w - n) <= w,
        2 * (n - crate::rounding::rne(n, w) * w) <= w,
{
    let q = n / w;
    let r = n % w;
    lemma_fundamental_div_mod(n as int, w as int);
    assert((q + 1) * w == q * w + w) by (nonlinear_arith);
    assert(q * w == w * q) by (nonlinear_arith);
}

/// A rounded magnitude is off by the relative error and half a unit at most,
/// and by the relative error alone where it is a whole number of units.
pub(crate) proof fn lemma_rounding_error(n: nat, d: nat)
    requires
        d > 0,
        n <= d * pow2(276),
    ensures
        ({
            let code = crate::single::single_spec().round(n, d);
            let m = crate::rounding::code_mag(24, code) as real;
            let x = n as real / d as real;
            &&& code < INFINITY
            &&& dist(m - x) <= x * half_ulp() + 1real / 2real
            &&& d == 1 ==> dist(m - x) <= x * half_ulp()
        }),
{
    let code = crate::single::single_spec().round(n, d);
    let k = crate::rounding::binade(24, n, d);
    let step = pow2(k);
    let w = d * step;
    let q = crate::rounding::rne(n, w);
    let m = crate::rounding::code_mag(24, code);
    lemma_pow2_pos(k);
    lemma_pow2_pos(276);
    lemma_pow2_unfold(277);
    assert(n < d * pow2(277)) by (nonlinear_arith)
        requires
            n <= d * pow2(276),
            pow2(277) == 2 * pow2(276),
            pow2(276) > 0,
            d > 0,
    ;
    crate::seconds_laws::lemma_rounded(n, d);
    assert(w > 0) by (nonlinear_arith)
        requires
            w == d * step,
            d > 0,
            step > 0,
    ;
    lemma_rne_close(n, w);
    assert(q * w == m * d) by (nonlinear_arith)
        requires
            m == q * step,
            w == d * step,
    ;
    // the code is finite
    assert(d * pow2(276) == pow2(276) * d) by (nonlinear_arith);
    assert(23 + 253 == 276nat);
    crate::single_laws::lemma_round_up_to_power(n, d, 253);
    assert(254 * 0x80_0000 < INFINITY);
    // the error in units of the denominator
    let e = m * d - n;
    if k > 0 {
        lemma_pow2_adds(23, k);
        lemma2_to64();
        assert(d * (0x80_0000 * step) == 0x80_0000 * w) by (nonlinear_arith)
            requires
                w == d * step,
        ;
        assert(16777216 * e <= n && -16777216 * e <= n);
    } else {
        lemma2_to64();
        assert(w == d) by (nonlinear_arith)
            requires
                w == d * step,
                step == 1,
        ;
        if d == 1 {
            assert(e == 0);
        }
    }
    assert(16777216 * e <= n + 8388608 * d && -16777216 * e <= n + 8388608 * d);
    let mr = m as real;
    let dr = d as real;
    let nr = n as real;
    let x = nr / dr;
    assert(e as real == mr * dr - nr) by {
        assert((m * d) as real == mr * dr) by (nonlinear_arith)
            requires
                mr == m as real,
                dr == d as real,
        ;
    }
    assert(x * dr == nr) by (nonlinear_arith)
        requires
            x == nr / dr,
            dr > 0real,
    ;
    let er = e as real;
    assert(16777216real * er <= nr + 8388608real * dr);
    assert(-16777216real * er <= nr + 8388608real * dr);
    assert((mr - x) * dr == er) by (nonlinear_arith)
        requires
            x * dr == nr,
            er == mr * dr - nr,
    ;
    let diff = mr - x;
    assert(16777216real * diff <= x + 8388608real && -16777216real * diff <= x + 8388608real)
        by (nonlinear_arith)
        requires
            diff * dr == er,
            x * dr == nr,
            dr > 0real,
            16777216real * er <= nr + 8388608real * dr,
            -16777216real * er <= nr + 8388608real * dr,
    ;
    if d == 1 {
        assert(dr == 1real);
        assert(16777216 * e <= n && -16777216 * e <= n);
        assert(16777216real * er <= nr && -16777216real * er <= nr);
        assert(diff == er && x == nr);
    }
    lemma_half_ulp(x);
}

pub(crate) proof fn lemma_half_ulp(x: real)
    ensures
        x * half_ulp() * 16777216real == x,
        x * half_ulp() == x / 16777216real,
{
    assert(x * half_ulp() * 16777216real == x && x * half_ulp() == x / 16777216real)
        by (nonlinear_arith)
        requires
            half_ulp() == 1real / 16777216real,
    ;
}

/// A product with steps as a quotient.
pub(crate) proof fn lemma_steps_of(x: real, n: nat, k: real)
    requires
        k == n as real,
    ensures
        x * steps(n) == (k * x) / 8388608real,
{
    assert(x * steps(n) == (k * x) / 8388608real) by (nonlinear_arith)
        requires
            steps(n) == k / 8388608real,
    ;
}

/// A sign and a finite code as a number.
pub(crate) proof fn lemma_signed_code(neg: bool, code: nat)
    requires
        code < INFINITY,
    ensures
        ({
            let r = crate::single::single_of(Num { neg, code: code as u64 });
            let m = crate::rounding::code_mag(24, code) as real;
            &&& r.finite()
            &&& r.is_negative() == neg
            &&& r.code() == code
            &&& r.value() == (if neg {
                -m
            } else {
                m
            }) / pow2(149) as real
        }),
{
    let r = crate::single::single_of(Num { neg, code: code as u64 });
    assert(r.spec_num().code == code);
}

/// The value of a number has its sign, and its magnitude over `2^149`.
pub(crate) proof fn lemma_val_parts(a: Single)
    requires
        a.finite(),
    ensures
        ({
            let m = crate::single::single_spec().mag(a.spec_num()) as real;
            let u = pow2(149) as real;
            &&& u > 0real
            &&& a.value() * u == if a.is_negative() {
                -m
            } else {
                m
            }
            &&& dist(a.value()) * u == m
        }),
{
    let m = crate::single::single_spec().mag(a.spec_num()) as real;
    let u = pow2(149) as real;
    lemma_pow2_pos(149);
    assert(u > 0real);
    let n = a.units() as real;
    assert((n / u) * u == n) by (nonlinear_arith)
        requires
            u > 0real,
    ;
    let v = a.value();
    assert(v < 0real <==> n < 0real) by (nonlinear_arith)
        requires
            u > 0real,
            v * u == n,
    ;
    assert((-v) * u == -n) by (nonlinear_arith)
        requires
            v * u == n,
    ;
}

// ---------------------------------------------------------------------------
// Operations

/// The product of two numbers, where it does not overflow, is off by the
/// relative error and a speck at most.
pub proof fn law_product_is_accurate(a: Single, b: Single)
    requires
        a.finite(),
        b.finite(),
        dist(a.value() * b.value()) <= ample(),
    ensures
        a.fmul(b).finite(),
        close(a.fmul(b).value(), a.value() * b.value(), half_ulp(), speck()),
{
    reveal(Single::fmul);
    crate::single::lemma_single_sizes();
    let f = crate::single::single_spec();
    let u = pow2(149) as real;
    lemma_val_parts(a);
    lemma_val_parts(b);
    let ma = f.mag(a.spec_num());
    let mb = f.mag(b.spec_num());
    let n = ma * mb;
    let d = pow2(149);
    let va = dist(a.value());
    let vb = dist(b.value());
    let x = n as real / u;
    let v = a.value() * b.value();
    assert(n as real == (ma as real) * (mb as real)) by (nonlinear_arith)
        requires
            n == ma * mb,
    ;
    assert(dist(v) == va * vb) by {
        lemma_dist_product(a.value(), b.value());
    }
    assert(n as real == (va * vb) * u * u) by (nonlinear_arith)
        requires
            n as real == (ma as real) * (mb as real),
            va * u == ma as real,
            vb * u == mb as real,
    ;
    assert(x == dist(v) * u) by (nonlinear_arith)
        requires
            x == n as real / u,
            n as real == dist(v) * u * u,
            u > 0real,
    ;
    lemma_within_range(n, d, dist(v));
    lemma_rounding_error(n, d);
    let code = f.round(n, d);
    let neg = a.is_negative() != b.is_negative();
    lemma_signed_code(neg, code);
    lemma_signed_error(
        neg,
        crate::rounding::code_mag(24, code) as real,
        x,
        v,
        1real / 2real,
    );
    lemma_speck();
    lemma_sign_of_val(a);
    lemma_sign_of_val(b);
    lemma_sign_of_product(a.value(), b.value(), v);
}

pub(crate) proof fn lemma_dist_product(x: real, y: real)
    ensures
        dist(x * y) == dist(x) * dist(y),
{
    assert(dist(x * y) == dist(x) * dist(y)) by (nonlinear_arith);
}

/// A magnitude up to `2^126` is within the range of the rounding.
pub(crate) proof fn lemma_within_range(n: nat, d: nat, v: real)
    requires
        d > 0,
        0real <= v <= ample(),
        n as real / d as real == v * pow2(149) as real,
    ensures
        n <= d * pow2(276),
{
    lemma_pow2_adds(126, 149);
    lemma_pow2_unfold(276);
    lemma_pow2_pos(149);
    let u = pow2(149) as real;
    let top = pow2(275);
    assert(top as real == ample() * u) by (nonlinear_arith)
        requires
            top == pow2(126) * pow2(149),
            ample() == pow2(126) as real,
            u == pow2(149) as real,
    ;
    let nr = n as real;
    let dr = d as real;
    assert(nr <= dr * top as real) by (nonlinear_arith)
        requires
            nr / dr == v * u,
            v <= ample(),
            top as real == ample() * u,
            u > 0real,
            dr > 0real,
    {
        assert(nr == (nr / dr) * dr);
        assert(v * u <= ample() * u);
    }
    assert((d * top) as real == dr * top as real) by (nonlinear_arith)
        requires
            dr == d as real,
    ;
    assert(n <= d * top);
    assert(d * top <= d * pow2(276)) by (nonlinear_arith)
        requires
            pow2(276) == 2 * top,
            top >= 0,
    ;
}

/// The error of a magnitude, in units, is that of the signed value.
pub(crate) proof fn lemma_signed_error(neg: bool, m: real, x: real, v: real, t: real)
    requires
        dist(m - x) <= x * half_ulp() + t,
        x == dist(v) * pow2(149) as real,
    ensures
        neg && v == -dist(v) ==> close(
            -m / pow2(149) as real,
            v,
            half_ulp(),
            t / pow2(149) as real,
        ),
        !neg && v == dist(v) ==> close(
            m / pow2(149) as real,
            v,
            half_ulp(),
            t / pow2(149) as real,
        ),
{
    let u = pow2(149) as real;
    let h = half_ulp();
    lemma_pow2_pos(149);
    assert(u > 0real);
    let y = m / u;
    let e = y - dist(v);
    let s = t / u;
    assert(y * u == m) by (nonlinear_arith)
        requires
            u > 0real,
            y == m / u,
    ;
    assert(-m / u == -y) by (nonlinear_arith)
        requires
            u > 0real,
            y == m / u,
    ;
    assert(e <= dist(v) * h + s && -e <= dist(v) * h + s) by (nonlinear_arith)
        requires
            u > 0real,
            s == t / u,
            e == y - dist(v),
            y * u == m,
            x == dist(v) * u,
            m - x <= x * h + t,
            x - m <= x * h + t,
    {
        assert(s * u == t);
        assert(e * u == m - x);
        assert((dist(v) * h + s) * u == x * h + t);
    }
}

pub(crate) proof fn lemma_speck()
    ensures
        (1real / 2real) / pow2(149) as real == speck(),
        speck() > 0real,
        0real / pow2(149) as real == 0real,
{
    let u = pow2(149) as real;
    lemma_pow2_pos(149);
    assert((1real / 2real) / u == 1real / (2real * u) && 1real / (2real * u) > 0real && 0real / u
        == 0real) by (nonlinear_arith)
        requires
            u > 0real,
    ;
}

/// The sum of two numbers, where it does not overflow, is off by the relative
/// error at most.
pub proof fn law_sum_is_accurate(a: Single, b: Single)
    requires
        a.finite(),
        b.finite(),
        dist(a.value() + b.value()) <= ample(),
    ensures
        a.fadd(b).finite(),
        close(a.fadd(b).value(), a.value() + b.value(), half_ulp(), 0real),
{
    reveal(Single::fadd);
    crate::single::lemma_single_sizes();
    let f = crate::single::single_spec();
    let u = pow2(149) as real;
    lemma_val_parts(a);
    lemma_val_parts(b);
    lemma_speck();
    let w = a.units() + b.units();
    let n = if w < 0 {
        -w
    } else {
        w
    };
    let v = a.value() + b.value();
    assert(w as real == v * u) by (nonlinear_arith)
        requires
            w as real == a.units() as real + b.units() as real,
            a.value() * u == a.units() as real,
            b.value() * u == b.units() as real,
            v == a.value() + b.value(),
    ;
    assert(n as real == dist(v) * u && (w < 0 <==> v < 0real)) by (nonlinear_arith)
        requires
            w as real == v * u,
            u > 0real,
            n == if w < 0 {
                -w
            } else {
                w
            },
            dist(v) == if v < 0real {
                -v
            } else {
                v
            },
    ;
    assert(n as real / 1real == n as real);
    lemma_within_range(n as nat, 1, dist(v));
    lemma_rounding_error(n as nat, 1);
    let neg = w < 0;
    let code = f.round(n as nat, 1);
    lemma_signed_code(neg, code);
    lemma_signed_error(
        neg,
        crate::rounding::code_mag(24, code) as real,
        n as real,
        v,
        0real,
    );
    if w == 0 {
        let both = a.is_negative() && b.is_negative();
        lemma_signed_code(both, 0);
        crate::ieee::lemma_mag_zero(f, Num { neg: false, code: 0 });
        assert(crate::rounding::code_mag(24, 0) == 0);
        assert(v == 0real) by (nonlinear_arith)
            requires
                w as real == v * u,
                w == 0,
                u > 0real,
        ;
        assert(-(0nat as real) == 0real);
    }
}

/// The difference of two numbers, likewise.
pub proof fn law_difference_is_accurate(a: Single, b: Single)
    requires
        a.finite(),
        b.finite(),
        dist(a.value() - b.value()) <= ample(),
    ensures
        a.fsub(b).finite(),
        close(a.fsub(b).value(), a.value() - b.value(), half_ulp(), 0real),
{
    lemma_negated_val(b);
    law_sum_is_accurate(a, b.fneg());
}

pub proof fn lemma_negated_val(b: Single)
    requires
        b.finite(),
    ensures
        b.fneg().finite(),
        b.fneg().value() == -b.value(),
{
    crate::single_laws::lemma_negated_units(b);
    lemma_pow2_pos(149);
    let n = b.units() as real;
    let u = pow2(149) as real;
    assert((-n) / u == -(n / u)) by (nonlinear_arith)
        requires
            u > 0real,
    ;
}

/// The quotient of two numbers, where it does not overflow, is off by the
/// relative error and a speck at most.
pub proof fn law_quotient_is_accurate(a: Single, b: Single)
    requires
        a.finite(),
        b.finite(),
        b.value() != 0real,
        dist(a.value() / b.value()) <= ample(),
    ensures
        a.fdiv(b).finite(),
        close(a.fdiv(b).value(), a.value() / b.value(), half_ulp(), speck()),
{
    reveal(Single::fdiv);
    crate::single::lemma_single_sizes();
    let f = crate::single::single_spec();
    let u = pow2(149) as real;
    lemma_val_parts(a);
    lemma_val_parts(b);
    lemma_speck();
    let ma = f.mag(a.spec_num());
    let mb = f.mag(b.spec_num());
    let n = ma * pow2(149);
    let va = dist(a.value());
    let vb = dist(b.value());
    let v = a.value() / b.value();
    assert(vb > 0real);
    assert(mb as real > 0real) by (nonlinear_arith)
        requires
            vb * u == mb as real,
            vb > 0real,
            u > 0real,
    ;
    if b.code() == 0 {
        crate::ieee::lemma_mag_zero(f, b.spec_num());
    }
    let x = n as real / mb as real;
    assert(n as real == ma as real * u) by (nonlinear_arith)
        requires
            n == ma * pow2(149),
            u == pow2(149) as real,
    ;
    assert(v * b.value() == a.value()) by (nonlinear_arith)
        requires
            v == a.value() / b.value(),
            b.value() != 0real,
    ;
    lemma_dist_product(v, b.value());
    assert(x == dist(v) * u) by (nonlinear_arith)
        requires
            x == n as real / mb as real,
            n as real == ma as real * u,
            va * u == ma as real,
            vb * u == mb as real,
            va == dist(v) * vb,
            vb > 0real,
            u > 0real,
            mb as real > 0real,
    {
        assert(n as real == (dist(v) * u) * (mb as real));
    }
    lemma_within_range(n, mb, dist(v));
    lemma_rounding_error(n, mb);
    let code = f.round(n, mb);
    let neg = a.is_negative() != b.is_negative();
    lemma_signed_code(neg, code);
    lemma_signed_error(
        neg,
        crate::rounding::code_mag(24, code) as real,
        x,
        v,
        1real / 2real,
    );
    lemma_sign_of_product(v, b.value(), a.value());
    lemma_sign_of_val(a);
    lemma_sign_of_val(b);
}

/// A negative number has no positive value, and another no negative one.
pub(crate) proof fn lemma_sign_of_val(a: Single)
    requires
        a.finite(),
    ensures
        a.is_negative() ==> a.value() <= 0real,
        !a.is_negative() ==> a.value() >= 0real,
{
    let u = pow2(149) as real;
    lemma_val_parts(a);
    let m = crate::single::single_spec().mag(a.spec_num()) as real;
    assert(m >= 0real);
    let v = a.value();
    assert(v * u <= 0real ==> v <= 0real) by (nonlinear_arith)
        requires
            u > 0real,
    ;
    assert(v * u >= 0real ==> v >= 0real) by (nonlinear_arith)
        requires
            u > 0real,
    ;
}

pub(crate) proof fn lemma_sign_of_product(x: real, y: real, z: real)
    requires
        x * y == z,
    ensures
        y > 0real && z >= 0real ==> x >= 0real,
        y > 0real && z <= 0real ==> x <= 0real,
        y < 0real && z >= 0real ==> x <= 0real,
        y < 0real && z <= 0real ==> x >= 0real,
        x >= 0real && y >= 0real ==> z >= 0real,
        x <= 0real && y <= 0real ==> z >= 0real,
        x >= 0real && y <= 0real ==> z <= 0real,
        x <= 0real && y >= 0real ==> z <= 0real,
{
    assert(y > 0real && z >= 0real ==> x >= 0real) by (nonlinear_arith)
        requires
            x * y == z,
    ;
    assert(y > 0real && z <= 0real ==> x <= 0real) by (nonlinear_arith)
        requires
            x * y == z,
    ;
    assert(y < 0real && z >= 0real ==> x <= 0real) by (nonlinear_arith)
        requires
            x * y == z,
    ;
    assert(y < 0real && z <= 0real ==> x >= 0real) by (nonlinear_arith)
        requires
            x * y == z,
    ;
    assert(x >= 0real && y >= 0real ==> z >= 0real) by (nonlinear_arith)
        requires
            x * y == z,
    ;
    assert(x <= 0real && y <= 0real ==> z >= 0real) by (nonlinear_arith)
        requires
            x * y == z,
    ;
    assert(x >= 0real && y <= 0real ==> z <= 0real) by (nonlinear_arith)
        requires
            x * y == z,
    ;
    assert(x <= 0real && y >= 0real ==> z <= 0real) by (nonlinear_arith)
        requires
            x * y == z,
    ;
}

// ---------------------------------------------------------------------------
// Values

/// The order of ranks is the order of values.
pub proof fn law_values_keep_order(a: Single, b: Single)
    requires
        a.finite(),
        b.finite(),
    ensures
        a.rank() <= b.rank() <==> a.value() <= b.value(),
        a.rank() == b.rank() <==> a.value() == b.value(),
{
    crate::single_laws::law_rank_orders_values(a, b);
    crate::single_laws::law_rank_orders_values(b, a);
    let u = pow2(149) as real;
    lemma_val_parts(a);
    lemma_val_parts(b);
    let x = a.value();
    let y = b.value();
    assert((x <= y) == (x * u <= y * u)) by (nonlinear_arith)
        requires
            u > 0real,
    ;
    assert((y <= x) == (y * u <= x * u)) by (nonlinear_arith)
        requires
            u > 0real,
    ;
    assert(x * u == a.units() as real);
    assert(y * u == b.units() as real);
}

/// Zero.
pub proof fn lemma_val_zero()
    ensures
        Single::lit(0).finite(),
        Single::lit(0).value() == 0real,
{
    let z = Single::lit(0);
    crate::single::lemma_single_sizes();
    crate::ieee::lemma_mag_zero(crate::single::single_spec(), z.spec_num());
    lemma_speck();
}

/// A number is a whole number of units, so one nearer to zero than a unit is
/// zero.
pub(crate) proof fn lemma_below_a_unit(a: Single)
    requires
        a.finite(),
    ensures
        dist(a.value()) <= speck() ==> a.value() == 0real,
        a.value() != 0real ==> dist(a.value()) >= 2real * speck(),
{
    let u = pow2(149) as real;
    lemma_val_parts(a);
    lemma_speck();
    let m = crate::single::single_spec().mag(a.spec_num());
    let v = dist(a.value());
    let t = speck();
    assert(2real * t * u == 1real) by (nonlinear_arith)
        requires
            t == 1real / (2real * u),
            u > 0real,
    ;
    if m == 0 {
        assert(v == 0real) by (nonlinear_arith)
            requires
                v * u == 0real,
                u > 0real,
        ;
    } else {
        assert(m as real >= 1real);
        assert(v >= 2real * t) by (nonlinear_arith)
            requires
                v * u >= 1real,
                2real * t * u == 1real,
                u > 0real,
        ;
    }
}

/// A bit pattern of a whole number.
pub(crate) proof fn lemma_constant(bits: u32, field: nat, v: nat)
    requires
        127 <= field <= 150,
        field * 0x80_0000 <= bits < (field + 1) * 0x80_0000,
        bits - (field - 1) * 0x80_0000 == v * pow2((150 - field) as nat),
    ensures
        Single::lit(bits).finite(),
        Single::lit(bits).value() == v as real,
{
    let k = (field - 1) as nat;
    let c = bits as nat;
    crate::single::lemma_single_sizes();
    lemma2_to64();
    lemma_fundamental_div_mod_converse(
        c as int,
        0x80_0000,
        field as int,
        c - field * 0x80_0000,
    );
    assert(pow2((24 - 1) as nat) == 0x80_0000);
    assert(c / 0x80_0000 == field);
    assert(c < 151 * 0x80_0000);
    let sig = (c - k * 0x80_0000) as nat;
    let a = Single::lit(bits);
    assert(crate::rounding::code_mag(24, c) == sig * pow2(k));
    lemma_pow2_adds((150 - field) as nat, k);
    assert((150 - field) as nat + k == 149);
    lemma_pow2_pos(149);
    let w = pow2((150 - field) as nat);
    assert(sig * pow2(k) == v * pow2(149)) by (nonlinear_arith)
        requires
            sig == v * w,
            pow2(149) == w * pow2(k),
    ;
    assert(a.units() == v * pow2(149));
    let u = pow2(149) as real;
    assert((v * pow2(149)) as real / u == v as real) by (nonlinear_arith)
        requires
            u == pow2(149) as real,
            u > 0real,
    ;
}

/// The constants of the models.
pub proof fn lemma_constants()
    ensures
        Single::lit(crate::single::ONE).finite(),
        Single::lit(crate::single::ONE).value() == 1real,
        Single::lit(crate::single::HUNDRED).finite(),
        Single::lit(crate::single::HUNDRED).value() == 100real,
        Single::lit(crate::decay::SECS_PER_HOUR).finite(),
        Single::lit(crate::decay::SECS_PER_HOUR).value() == 3600real,
        Single::lit(crate::ev_presets::NOMINAL_VOLTAGE_V).finite(),
        Single::lit(crate::ev_presets::NOMINAL_VOLTAGE_V).value() == 230real,
        Single::lit(crate::ev_presets::MIN_CURRENT_A).finite(),
        Single::lit(crate::ev_presets::MIN_CURRENT_A).value() == 6real,
{
    lemma2_to64();
    lemma_constant(crate::single::ONE, 127, 1);
    lemma_constant(crate::single::HUNDRED, 133, 100);
    lemma_constant(crate::decay::SECS_PER_HOUR, 138, 3600);
    lemma_constant(crate::ev_presets::NOMINAL_VOLTAGE_V, 134, 230);
    lemma_constant(crate::ev_presets::MIN_CURRENT_A, 129, 6);
}

/// A whole number is held with the relative error of one rounding.
pub proof fn law_integer_is_accurate(x: nat)
    requires
        x <= u64::MAX,
    ensures
        Single::fint(x).finite(),
        close(Single::fint(x).value(), x as real, half_ulp(), 0real),
        Single::fint(x).value() >= 0real,
{
    reveal(Single::fint);
    crate::single::lemma_single_sizes();
    lemma_speck();
    let u = pow2(149) as real;
    lemma_pow2_pos(149);
    let n = x * pow2(149);
    assert(n as real == x as real * u && x as real * u >= 0real) by (nonlinear_arith)
        requires
            n == x * pow2(149),
            u == pow2(149) as real,
            x >= 0,
            u > 0real,
    ;
    lemma2_to64_rest();
    lemma_pow2_adds(64, 149);
    crate::rounding::lemma_pow2_monotone(213, 276);
    assert(n <= 1 * pow2(276)) by (nonlinear_arith)
        requires
            n == x * pow2(149),
            x <= pow2(64),
            pow2(213) == pow2(64) * pow2(149),
            pow2(213) <= pow2(276),
    ;
    lemma_rounding_error(n, 1);
    let code = crate::single::single_spec().round(n, 1);
    lemma_signed_code(false, code);
    assert(n as real / 1real == n as real);
    lemma_signed_error(
        false,
        crate::rounding::code_mag(24, code) as real,
        n as real,
        x as real,
        0real,
    );
    lemma_sign_of_val(Single::fint(x));
}

// ---------------------------------------------------------------------------
// Several operations

/// `n` steps of `2^-23`: the relative error of `n` operations.
pub open spec fn steps(n: nat) -> real {
    n as real / 8388608real
}

/// One more operation adds a step to the relative error.
pub(crate) proof fn lemma_then(r2: real, r: real, x: real, n: nat, t1: real, t2: real)
    requires
        close(r2, r, half_ulp(), t2),
        close(r, x, steps(n), t1),
        n <= 1000,
        t1 >= 0real,
    ensures
        close(r2, x, steps(n + 1), 2real * t1 + t2),
{
    let h = half_ulp();
    let s = steps(n);
    let a = dist(x);
    let b = dist(r);
    assert(b <= a + dist(r - x));
    assert(dist(r2 - x) <= dist(r2 - r) + dist(r - x));
    assert(steps(n + 1) == s + 2real * h && 0real <= s <= 1real / 8388real) by (nonlinear_arith)
        requires
            s == n as real / 8388608real,
            h == 1real / 16777216real,
            steps(n + 1) == (n as real + 1real) / 8388608real,
            0 <= n <= 1000,
    ;
    assert(a * s + t1 + b * h + t2 <= a * (s + 2real * h) + 2real * t1 + t2) by (nonlinear_arith)
        requires
            b <= a + a * s + t1,
            a >= 0real,
            0real <= s <= 1real / 8388real,
            h == 1real / 16777216real,
            t1 >= 0real,
    {
        assert(b * h <= (a + a * s + t1) * h);
        assert(a * s * h <= a * h);
        assert(t1 * h <= t1);
    }
}

/// A rounded sum of an exact value and an approximate one.
pub(crate) proof fn lemma_sum_error(a: real, r: real, x: real, sum: real, n: nat, t: real)
    requires
        close(r, x, steps(n), t),
        close(sum, a + r, half_ulp(), 0real),
        n <= 1000,
        t >= 0real,
    ensures
        dist(sum - (a + x)) <= dist(a + x) * half_ulp() + dist(x) * steps(n + 1) + 2real * t,
{
    let h = half_ulp();
    let off = dist(r - x);
    let room = dist(a + r);
    let d = dist(a + x);
    let c = dist(x);
    assert(room <= d + off);
    assert(room * h + off <= d * h + c * steps(n + 1) + 2real * t) by (nonlinear_arith)
        requires
            room <= d + off,
            off <= c * steps(n) + t,
            h == 1real / 16777216real,
            steps(n) == n as real / 8388608real,
            steps(n + 1) == (n as real + 1real) / 8388608real,
            0 <= n <= 1000,
            c >= 0real,
            t >= 0real,
    {
        assert(room * h <= (d + off) * h);
        assert(off * h <= (c * steps(n) + t) * h);
        assert(t * h <= t);
        assert(steps(n) * h <= 1real / 8388608real);
        assert((c * steps(n)) * h <= c * (1real / 8388608real)) by {
            assert((c * steps(n)) * h == c * (steps(n) * h));
        }
    }
}

/// Limiting to the range from zero to one keeps the error.
pub(crate) proof fn lemma_limited_unit(r: real, x: real, e: real, t: real)
    requires
        close(r, x, e, t),
        0real <= e <= 1real / 2real,
        t >= 0real,
    ensures
        close(limited(r, 0real, 1real), limited(x, 0real, 1real), e, t),
{
    let a = dist(x);
    if x < 0real {
        assert(a * e <= a) by (nonlinear_arith)
            requires
                0real <= e <= 1real / 2real,
                a >= 0real,
        ;
        assert(dist(0real) * e == 0real) by (nonlinear_arith)
            requires
                dist(0real) == 0real,
        ;
    } else if x > 1real {
        assert(x - x * e >= 1real - e) by (nonlinear_arith)
            requires
                x > 1real,
                e <= 1real / 2real,
        ;
        assert(dist(1real) * e == e) by (nonlinear_arith)
            requires
                dist(1real) == 1real,
        ;
    }
}

/// Scaling scales the error.
pub(crate) proof fn lemma_scaled(r: real, x: real, e: real, t: real, y: real)
    requires
        close(r, x, e, t),
    ensures
        close(r * y, x * y, e, t * dist(y)),
        y != 0real ==> close(r / y, x / y, e, t / dist(y)),
{
    lemma_dist_product(r - x, y);
    lemma_dist_product(x, y);
    assert((r - x) * y == r * y - x * y) by (nonlinear_arith);
    let a = dist(r - x);
    let b = dist(x);
    let d = dist(y);
    assert(a * d <= (b * d) * e + t * d) by (nonlinear_arith)
        requires
            a <= b * e + t,
            d >= 0real,
    ;
    if y != 0real {
        let w = 1real / y;
        let g = dist(w);
        lemma_dist_product(r - x, w);
        lemma_dist_product(x, w);
        assert((r - x) * w == r / y - x / y && x * w == x / y) by (nonlinear_arith)
            requires
                w == 1real / y,
                y != 0real,
        ;
        assert(g == 1real / d) by {
            lemma_dist_product(w, y);
            assert(w * y == 1real) by (nonlinear_arith)
                requires
                    w == 1real / y,
                    y != 0real,
            ;
            assert(g == 1real / d) by (nonlinear_arith)
                requires
                    g * d == 1real,
                    d > 0real,
            ;
        }
        assert(g >= 0real);
        assert(t * g == t / d) by (nonlinear_arith)
            requires
                g == 1real / d,
                d > 0real,
        ;
        assert(a * g <= (b * g) * e + t * g) by (nonlinear_arith)
            requires
                a <= b * e + t,
                g >= 0real,
        ;
    }
}

/// An approximate value lies in about twice the range of the exact one.
pub(crate) proof fn lemma_stays_ample(r: real, x: real, n: nat, t: real, top: real)
    requires
        close(r, x, steps(n), t),
        n <= 1000,
        2real * dist(x) + t <= top,
    ensures
        dist(r) <= top,
{
    let s = steps(n);
    let a = dist(x);
    assert(a * s <= a) by (nonlinear_arith)
        requires
            s == n as real / 8388608real,
            0 <= n <= 1000,
            a >= 0real,
    ;
}

/// Multiplying by a span in seconds.
pub(crate) proof fn lemma_step_seconds(a: Single, dt: Span, x: real, t: real)
    requires
        a.finite(),
        dt.wf(),
        dist(a.value() - x) <= t,
        dist(x) * dt.exact_seconds() * 4real <= ample(),
        t * dt.exact_seconds() * 4real <= ample(),
    ensures
        a.fmul(dt.spec_seconds()).finite(),
        close(
            a.fmul(dt.spec_seconds()).value(),
            x * dt.exact_seconds(),
            steps(5),
            2real * (t * dt.exact_seconds()) + speck(),
        ),
{
    let s = dt.spec_seconds();
    let y = dt.exact_seconds();
    let v = a.value();
    law_seconds_are_accurate(dt);
    lemma_speck();
    assert(y >= 0real) by {
        assert(dt.total() >= 0);
        let n = dt.total() as real;
        assert(n / 1000000000real >= 0real) by (nonlinear_arith)
            requires
                n >= 0real,
        ;
    }
    let d = dist(v);
    let b = dist(x);
    let off = dist(v - x);
    assert(d <= b + off);
    lemma_dist_product(y, v);
    lemma_dist_product(x, y);
    assert(y * d <= b * y + t * y) by (nonlinear_arith)
        requires
            d <= b + t,
            y >= 0real,
    ;
    assert(0real * d == 0real) by (nonlinear_arith);
    lemma_step_times(s, a, y, 4, 0real);
    crate::charge_laws::law_product_commutes(s, a);
    let r = a.fmul(s).value();
    let exact = x * y;
    assert(dist(y * v - exact) <= t * y) by {
        assert(y * v - exact == (v - x) * y) by (nonlinear_arith)
            requires
                exact == x * y,
        ;
        lemma_dist_product(v - x, y);
        assert(off * y <= t * y) by (nonlinear_arith)
            requires
                off <= t,
                y >= 0real,
        ;
    }
    let e = steps(5);
    let m = dist(y * v);
    let w = dist(exact);
    assert(m <= w + t * y);
    assert(m * e <= w * e + t * y) by (nonlinear_arith)
        requires
            m <= w + t * y,
            e == 5real / 8388608real,
            t * y >= 0real,
    {
        assert(m * e <= (w + t * y) * e);
        assert((t * y) * e <= t * y);
    }
}

/// Multiplying an approximate value.
pub(crate) proof fn lemma_step_times(a: Single, b: Single, x: real, n: nat, t: real)
    requires
        a.finite(),
        b.finite(),
        close(a.value(), x, steps(n), t),
        n <= 1000,
        t >= 0real,
        2real * dist(x * b.value()) + t * dist(b.value()) <= ample(),
    ensures
        a.fmul(b).finite(),
        close(
            a.fmul(b).value(),
            x * b.value(),
            steps(n + 1),
            2real * (t * dist(b.value())) + speck(),
        ),
{
    lemma_scaled(a.value(), x, steps(n), t, b.value());
    lemma_stays_ample(a.value() * b.value(), x * b.value(), n, t * dist(b.value()), ample());
    law_product_is_accurate(a, b);
    let d = dist(b.value());
    assert(t * d >= 0real) by (nonlinear_arith)
        requires
            t >= 0real,
            d >= 0real,
    ;
    lemma_then(a.fmul(b).value(), a.value() * b.value(), x * b.value(), n, t * d, speck());
}

/// Two relative errors, one after the other.
pub(crate) proof fn lemma_after(z: real, w: real, x: real, n: nat, j: nat, t: real)
    requires
        close(z, w, steps(j), 0real),
        close(w, x, steps(n), t),
        n <= 1000,
        j <= 1000,
        t >= 0real,
    ensures
        close(z, x, steps(n + j + 1), 2real * t),
{
    let a = dist(x);
    let b = dist(w);
    let p = a * steps(n);
    let q = a * steps(j);
    lemma_steps_of(a, n, n as real);
    lemma_steps_of(a, j, j as real);
    lemma_steps_of(b, j, j as real);
    lemma_steps_of(a, n + j + 1, n as real + j as real + 1real);
    let jr = j as real;
    let nr = n as real;
    assert(0real <= nr * a <= 1000real * a) by (nonlinear_arith)
        requires
            0real <= nr <= 1000real,
            a >= 0real,
    ;
    assert(b <= a + p + t);
    assert(jr * b <= jr * a + jr * p + jr * t) by (nonlinear_arith)
        requires
            b <= a + p + t,
            jr >= 0real,
    ;
    assert(jr * p <= 1000real * p && jr * t <= 1000real * t) by (nonlinear_arith)
        requires
            0real <= jr <= 1000real,
            p >= 0real,
            t >= 0real,
    ;
    assert((nr + jr + 1real) * a == nr * a + jr * a + a) by (nonlinear_arith);
}

/// Multiplying an approximate value by an approximate one.
pub(crate) proof fn lemma_step_product(
    a: Single,
    b: Single,
    x: real,
    y: real,
    n: nat,
    m: nat,
    t: real,
)
    requires
        a.finite(),
        b.finite(),
        close(a.value(), x, steps(n), t),
        close(b.value(), y, steps(m), 0real),
        n <= 400,
        m <= 400,
        t >= 0real,
        2real * dist(x * y) + 2real * (t * dist(y)) <= ample(),
    ensures
        a.fmul(b).finite(),
        close(
            a.fmul(b).value(),
            x * y,
            steps(n + m + 2),
            4real * (t * dist(y)) + speck(),
        ),
{
    let v = a.value();
    let w = b.value();
    let d = dist(y);
    lemma_scaled(w, y, steps(m), 0real, v);
    crate::reals::lemma_commutes(v, w);
    crate::reals::lemma_commutes(v, y);
    assert(0real * dist(v) == 0real) by (nonlinear_arith);
    lemma_scaled(v, x, steps(n), t, y);
    crate::reals::lemma_product_sign(t, d);
    lemma_after(v * w, v * y, x * y, n, m, t * d);
    lemma_stays_ample(v * w, x * y, n + m + 1, 2real * (t * d), ample());
    law_product_is_accurate(a, b);
    lemma_then(a.fmul(b).value(), v * w, x * y, n + m + 1, 2real * (t * d), speck());
}

/// One rounding is at most a step.
pub(crate) proof fn lemma_one_step(r: real, x: real, t: real)
    requires
        close(r, x, half_ulp(), t),
    ensures
        close(r, x, steps(1), t),
{
    lemma_half_ulp(dist(x));
    lemma_steps_of(dist(x), 1, 1real);
}

/// An absolute error of a speck is within a step of a value that is not tiny.
pub(crate) proof fn lemma_absorbed(r: real, x: real, n: nat, t: real)
    requires
        close(r, x, steps(n), t),
        t <= 1000real * speck(),
        dist(x) >= 1real / 1000real,
    ensures
        close(r, x, steps(n + 1), 0real),
{
    lemma_ample();
    let a = dist(x);
    lemma_steps_of(a, n, n as real);
    lemma_steps_of(a, n + 1, n as real + 1real);
    crate::reals::lemma_distributes(n as real, 1real, a);
}

/// A quotient by an approximate divisor.
pub(crate) proof fn lemma_divisor(a: real, b: real, y: real, m: nat)
    requires
        y != 0real,
        close(b, y, steps(m), 0real),
        m <= 1000,
    ensures
        b != 0real,
        close(a / b, a / y, steps(m + 1), 0real),
        dist(b) >= dist(y) / 2real,
{
    let d = dist(y);
    let g = dist(b);
    let mr = m as real;
    lemma_steps_of(d, m, mr);
    assert(0real <= mr * d <= 1000real * d) by (nonlinear_arith)
        requires
            0real <= mr <= 1000real,
            d >= 0real,
    ;
    assert(g >= d / 2real);
    let z = a / b;
    let w = a / y;
    let dz = dist(z);
    let dw = dist(w);
    let e = dist(z - w);
    assert(z * b == a) by (nonlinear_arith)
        requires
            z == a / b,
            b != 0real,
    ;
    assert(w * y == a) by (nonlinear_arith)
        requires
            w == a / y,
            y != 0real,
    ;
    // (z - w) * y == z * (y - b)
    assert((z - w) * y == z * (y - b)) by (nonlinear_arith)
        requires
            z * b == a,
            w * y == a,
    ;
    lemma_dist_product(z - w, y);
    lemma_dist_product(z, y - b);
    let off = dist(y - b);
    assert(off <= (mr * d) / 8388608real);
    let share = mr / 8388608real;
    assert((mr * d) / 8388608real == share * d) by (nonlinear_arith)
        requires
            share == mr / 8388608real,
    ;
    assert(dz * off <= dz * (share * d)) by (nonlinear_arith)
        requires
            off <= share * d,
            dz >= 0real,
    ;
    assert(e <= dz * share) by (nonlinear_arith)
        requires
            e * d <= dz * (share * d),
            d > 0real,
    ;
    assert(dz <= dw + e);
    assert(dz * share <= dw * share + e * share) by (nonlinear_arith)
        requires
            dz <= dw + e,
            share >= 0real,
    ;
    assert(e * share <= e / 8000real) by (nonlinear_arith)
        requires
            0real <= share <= 1000real / 8388608real,
            e >= 0real,
    ;
    // e * (1 - share) <= dw * share, and e <= 2 * dw * share
    let u = dw * share;
    assert(e <= u + e / 8000real);
    assert(e <= 2real * u);
    assert(e * share <= 2real * u * share) by (nonlinear_arith)
        requires
            e <= 2real * u,
            share >= 0real,
    ;
    assert(2real * u * share <= dw / 8388608real) by (nonlinear_arith)
        requires
            u == dw * share,
            0real <= share <= 1000real / 8388608real,
            dw >= 0real,
    {
        assert(share * share <= (1000real / 8388608real) * (1000real / 8388608real));
        assert(2real * u * share == dw * (2real * (share * share)));
    }
    lemma_steps_of(dw, m + 1, mr + 1real);
    assert(u == (mr * dw) / 8388608real) by (nonlinear_arith)
        requires
            u == dw * share,
            share == mr / 8388608real,
    ;
    assert((mr + 1real) * dw == mr * dw + dw) by (nonlinear_arith);
}

/// Dividing an approximate value by an approximate one.
pub(crate) proof fn lemma_step_ratio(
    a: Single,
    b: Single,
    x: real,
    y: real,
    n: nat,
    m: nat,
    t: real,
)
    requires
        a.finite(),
        b.finite(),
        y != 0real,
        close(a.value(), x, steps(n), t),
        close(b.value(), y, steps(m), 0real),
        n <= 400,
        m <= 400,
        t >= 0real,
        2real * dist(x / y) + 2real * (t / dist(y)) <= ample(),
    ensures
        b.value() != 0real,
        a.fdiv(b).finite(),
        close(
            a.fdiv(b).value(),
            x / y,
            steps(n + m + 3),
            4real * (t / dist(y)) + speck(),
        ),
{
    let v = a.value();
    let w = b.value();
    lemma_divisor(v, w, y, m);
    lemma_scaled(v, x, steps(n), t, y);
    let d = dist(y);
    assert(t / d >= 0real) by (nonlinear_arith)
        requires
            t >= 0real,
            d > 0real,
    ;
    lemma_after(v / w, v / y, x / y, n, m + 1, t / d);
    lemma_stays_ample(v / w, x / y, n + m + 2, 2real * (t / d), ample());
    law_quotient_is_accurate(a, b);
    lemma_then(a.fdiv(b).value(), v / w, x / y, n + m + 2, 2real * (t / d), speck());
}

/// Dividing an approximate value.
pub(crate) proof fn lemma_step_over(a: Single, b: Single, x: real, n: nat, t: real)
    requires
        a.finite(),
        b.finite(),
        b.value() != 0real,
        close(a.value(), x, steps(n), t),
        n <= 1000,
        t >= 0real,
        2real * dist(x / b.value()) + t / dist(b.value()) <= ample(),
    ensures
        a.fdiv(b).finite(),
        close(
            a.fdiv(b).value(),
            x / b.value(),
            steps(n + 1),
            2real * (t / dist(b.value())) + speck(),
        ),
{
    lemma_scaled(a.value(), x, steps(n), t, b.value());
    lemma_stays_ample(a.value() / b.value(), x / b.value(), n, t / dist(b.value()), ample());
    law_quotient_is_accurate(a, b);
    let d = dist(b.value());
    assert(t / d >= 0real) by (nonlinear_arith)
        requires
            t >= 0real,
            d > 0real,
    ;
    lemma_then(a.fdiv(b).value(), a.value() / b.value(), x / b.value(), n, t / d, speck());
}

pub(crate) proof fn lemma_exact_is_close(x: real)
    ensures
        close(x, x, steps(0), 0real),
{
    let s = steps(0);
    assert(dist(x) * s >= 0real) by (nonlinear_arith)
        requires
            dist(x) >= 0real,
            s == 0real / 8388608real,
    ;
}

pub(crate) proof fn lemma_ample()
    ensures
        ample() >= 1000000000000000000real,
        speck() <= 1real / 1000000000000000000real,
        speck() > 0real,
{
    lemma_speck();
    lemma2_to64_rest();
    crate::rounding::lemma_pow2_monotone(64, 126);
    crate::rounding::lemma_pow2_monotone(64, 149);
    let u = pow2(149) as real;
    assert(u >= 1000000000000000000real);
    assert(1real / (2real * u) <= 1real / 1000000000000000000real) by (nonlinear_arith)
        requires
            u >= 1000000000000000000real,
    ;
}

/// A span in seconds is held to four steps.
pub proof fn law_seconds_are_accurate(dt: Span)
    requires
        dt.wf(),
    ensures
        dt.spec_seconds().finite(),
        close(dt.spec_seconds().value(), dt.exact_seconds(), steps(4), 0real),
        dt.spec_seconds().value() >= 0real,
{
    let whole = Single::fint(dt.secs as nat);
    let nanos = Single::fint(dt.nanos as nat);
    let billion = Single::lit(BILLION);
    let part = nanos.fdiv(billion);
    law_integer_is_accurate(dt.secs as nat);
    law_integer_is_accurate(dt.nanos as nat);
    lemma2_to64();
    lemma2_to64_rest();
    lemma_ample();
    lemma_billion();
    let w = dt.secs as real;
    let n = dt.nanos as real;
    let b = 1000000000real;
    let q = n / b;
    let h = half_ulp();
    assert(0real <= q < 1real) by (nonlinear_arith)
        requires
            0real <= n < b,
            q == n / b,
            b == 1000000000real,
    ;
    assert(close(nanos.value(), n, steps(1), 0real)) by {
        assert(n * h <= n * steps(1)) by (nonlinear_arith)
            requires
                n >= 0real,
                h == 1real / 16777216real,
                steps(1) == 1real / 8388608real,
        ;
    }
    assert(0real / b == 0real);
    lemma_step_over(nanos, billion, n, 1, 0real);
    assert(close(part.value(), q, steps(2), speck()));
    // a part that is not zero is far larger than a speck
    if dt.nanos == 0 {
        assert(q == 0real);
        lemma_below_a_unit(part);
        assert(dist(q) * steps(2) == 0real) by (nonlinear_arith)
            requires
                dist(q) == 0real,
        ;
        assert(part.value() == 0real);
    } else {
        assert(q >= 1real / b) by (nonlinear_arith)
            requires
                n >= 1real,
                q == n / b,
                b == 1000000000real,
        ;
        assert(speck() <= q * steps(1)) by (nonlinear_arith)
            requires
                q >= 1real / b,
                b == 1000000000real,
                speck() <= 1real / 1000000000000000000real,
                steps(1) == 1real / 8388608real,
        ;
    }
    assert(q * steps(2) + q * steps(1) == q * steps(3)) by (nonlinear_arith)
        requires
            steps(2) == 2real / 8388608real,
            steps(1) == 1real / 8388608real,
            steps(3) == 3real / 8388608real,
    ;
    assert(q * steps(3) >= 0real) by (nonlinear_arith)
        requires
            q >= 0real,
            steps(3) == 3real / 8388608real,
    ;
    assert(dist(part.value() - q) <= q * steps(3));
    assert(w * h <= w * steps(3)) by (nonlinear_arith)
        requires
            w >= 0real,
            h == 1real / 16777216real,
            steps(3) == 3real / 8388608real,
    ;
    let x = dt.exact_seconds();
    assert(x == w + q) by {
        assert(dt.total() as real == w * b + n) by {
            assert((dt.secs * NANOS_PER_SEC) as real == w * b);
        }
        assert((w * b + n) / b == w + n / b) by (nonlinear_arith)
            requires
                b == 1000000000real,
        ;
    }
    let sum = whole.value() + part.value();
    assert(w * steps(3) + q * steps(3) == x * steps(3)) by (nonlinear_arith)
        requires
            x == w + q,
    ;
    assert(close(sum, x, steps(3), 0real));
    assert(w <= 20000000000000000000real);
    lemma_pow2_wide();
    lemma_stays_ample(sum, x, 3, 0real, ample());
    law_sum_is_accurate(whole, part);
    lemma_then(dt.spec_seconds().value(), sum, x, 3, 0real, 0real);
    crate::single_laws::law_seconds_are_finite(dt);
    lemma_val_zero();
    law_values_keep_order(Single::lit(0), dt.spec_seconds());
}

pub(crate) proof fn lemma_pow2_wide()
    ensures
        ample() >= 100000000000000000000000real,
{
    lemma2_to64_rest();
    lemma2_to64();
    lemma_pow2_adds(64, 20);
    crate::rounding::lemma_pow2_monotone(84, 126);
    assert(pow2(84) == 0x1_0000_0000_0000_0000 * 0x10_0000);
}

proof fn lemma_billion()
    ensures
        Single::lit(BILLION).finite(),
        Single::lit(BILLION).value() == 1000000000real,
{
    let unit = pow2(149);
    crate::single::lemma_single_sizes();
    lemma2_to64();
    lemma_fundamental_div_mod_converse(0x4e6e_6b28, 0x80_0000, 156, 0x6e_6b28);
    lemma_pow2_adds(6, 149);
    lemma_pow2_pos(149);
    let m = crate::rounding::code_mag(24, 0x4e6e_6b28);
    assert(0x4e6e_6b28 - 155 * 0x80_0000 == 0x80_0000 + 0x6e_6b28);
    assert(m == (0x80_0000 + 0x6e_6b28) * pow2(155)) by {
        assert(pow2((24 - 1) as nat) == 0x80_0000);
    }
    assert(m == 1000000000 * unit) by (nonlinear_arith)
        requires
            m == (0x80_0000 + 0x6e_6b28) * pow2(155),
            pow2(155) == 64 * unit,
    ;
    assert((1000000000 * unit) as real / unit as real == 1000000000real) by (nonlinear_arith)
        requires
            unit > 0,
    ;
}

// ---------------------------------------------------------------------------
// Sums

/// One more term of a sum whose terms are off by `j` steps: after `k` terms
/// the sum is off by `(j + 1) * k` steps of the terms' distances from zero.
pub(crate) proof fn lemma_fold_step(
    sum: real,
    before: real,
    exact: real,
    spread: real,
    term: real,
    v: real,
    k: nat,
    j: nat,
    t: real,
)
    requires
        dist(before - exact) <= spread * steps((j + 1) * k) + (2 * k) as real * t,
        dist(exact) <= spread,
        k == 0 ==> spread == 0real,
        close(term, v, steps(j), t),
        close(sum, before + term, half_ulp(), 0real),
        j <= 20,
        k <= 1000,
        t >= 0real,
    ensures
        dist(sum - (exact + v)) <= (spread + dist(v)) * steps((j + 1) * (k + 1)) + (2 * (k + 1))
            as real * t,
{
    let n = (j + 1) * k;
    let m = (j + 1) * (k + 1);
    assert(m == n + j + 1 && n <= 21000 && (k >= 1 ==> n >= j + 1)) by (nonlinear_arith)
        requires
            n == (j + 1) * k,
            m == (j + 1) * (k + 1),
            0 <= j <= 20,
            0 <= k <= 1000,
    ;
    let a = spread;
    let b = dist(v);
    let nr = n as real;
    let jr = j as real;
    let kr = (2 * k) as real;
    let kt = kr * t;
    lemma_steps_of(a, n, nr);
    lemma_steps_of(b, j, jr);
    lemma_steps_of(a + b, m, nr + jr + 1real);
    crate::reals::lemma_distributes(a, b, nr + jr + 1real);
    crate::reals::lemma_distributes(nr, jr + 1real, a);
    crate::reals::lemma_distributes(jr, 1real, a);
    crate::reals::lemma_distributes(nr, jr + 1real, b);
    crate::reals::lemma_distributes(jr, 1real, b);
    crate::reals::lemma_zero(a);
    crate::reals::lemma_zero(b);
    crate::reals::lemma_scales(nr, 21000real, a);
    crate::reals::lemma_scales(jr, 20real, b);
    crate::reals::lemma_scales(kr, 2000real, t);
    crate::reals::lemma_product_sign(nr, b);
    crate::reals::lemma_product_sign(nr, a);
    crate::reals::lemma_product_sign(jr, a);
    crate::reals::lemma_product_sign(kr, t);
    let room = dist(before + term);
    lemma_half_ulp(room);
    assert((2 * (k + 1)) as real == kr + 2real);
    crate::reals::lemma_distributes(kr, 2real, t);
}

} // verus!
