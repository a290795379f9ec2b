//! The hull of a reactive capability is the smallest band that covers the
//! bounds on Q at every P up to the rating.

use crate::reactive::ReactiveCapability;
use crate::single::{Single, INFINITY, NEG_INFINITY, ONE, ZERO};
use vstd::arithmetic::div_mod::*;
use vstd::arithmetic::power2::*;
use vstd::prelude::*;

verus! {

/// The band that [`ReactiveCapability::hull`] gives.
pub open spec fn hull_band(c: ReactiveCapability, p_rated_abs: Single) -> (Single, Single) {
    (c.widest_q(p_rated_abs).fneg(), c.widest_q(p_rated_abs))
}

/// One band lies inside the other.
pub open spec fn inside(a: (Single, Single), b: (Single, Single)) -> bool {
    b.0.fle(a.0) && a.1.fle(b.1)
}

/// The bands have the same edges; zeros of either sign are the same.
pub open spec fn same_band(a: (Single, Single), b: (Single, Single)) -> bool {
    a.0.feq(b.0) && a.1.feq(b.1)
}

/// A finite number that is not negative.
pub open spec fn is_amount(v: Single) -> bool {
    v.finite() && v.rank() >= 0
}

/// A finite number above zero.
pub open spec fn is_positive(v: Single) -> bool {
    v.finite() && v.rank() > 0
}

// ---------------------------------------------------------------------------
// Square roots

/// The root that the definition chooses is the integer root.
proof fn lemma_integer_root(n: nat, r: nat)
    requires
        r * r <= n < (r + 1) * (r + 1),
    ensures
        crate::ieee::integer_root(n) == r,
{
    let c = crate::ieee::integer_root(n);
    assert(c * c <= n < (c + 1) * (c + 1));
    assert(c == r) by (nonlinear_arith)
        requires
            r * r <= n < (r + 1) * (r + 1),
            c * c <= n < (c + 1) * (c + 1),
    ;
}

pub(crate) proof fn lemma_integer_root_bounds(n: nat)
    ensures
        crate::ieee::integer_root(n) * crate::ieee::integer_root(n) <= n,
        n < (crate::ieee::integer_root(n) + 1) * (crate::ieee::integer_root(n) + 1),
{
    crate::ieee::lemma_integer_root_exists(n);
    let c = crate::ieee::integer_root(n);
    assert(c * c <= n < (c + 1) * (c + 1));
}

/// Square roots keep the order of numbers that are not negative.
pub proof fn law_roots_keep_order(a: Single, b: Single)
    requires
        is_amount(a),
        is_amount(b),
        a.rank() <= b.rank(),
    ensures
        is_amount(a.fsqrt()) || a.fsqrt().rank() == INFINITY,
        !b.fsqrt().nan(),
        0 <= a.fsqrt().rank() <= b.fsqrt().rank(),
{
    reveal(Single::fsqrt);
    crate::single::lemma_single_sizes();
    let f = crate::single::single_spec();
    let unit = pow2(149);
    if a.code() > 0 {
        crate::single_laws::law_rank_orders_values(a, b);
        let m = f.mag(a.spec_num());
        let n = f.mag(b.spec_num());
        let wa = 4 * (m * unit);
        let wb = 4 * (n * unit);
        assert(m * unit <= n * unit) by (nonlinear_arith)
            requires
                m <= n,
        ;
        lemma_integer_root_bounds(wa);
        lemma_integer_root_bounds(wb);
        let ra = crate::ieee::integer_root(wa);
        let rb = crate::ieee::integer_root(wb);
        assert(ra <= rb) by (nonlinear_arith)
            requires
                ra * ra <= wa,
                wb < (rb + 1) * (rb + 1),
                wa <= wb,
        ;
        let na = if ra * ra == wa {
            2 * ra
        } else {
            2 * ra + 1
        };
        let nb = if rb * rb == wb {
            2 * rb
        } else {
            2 * rb + 1
        };
        assert(na <= nb);
        crate::rounding_laws::law_rounding_is_monotone(24, 255, na, 4, nb, 4);
    }
}

/// A number from `2^-63` up to `2^64`: its square neither overflows nor loses
/// digits to underflow.
pub open spec fn squares_well(s: Single) -> bool {
    0x2000_0000 <= s.rank() < 0x5f80_0000
}

/// A number taken apart: `sig * 2^k` units.
proof fn lemma_parts(s: Single) -> (r: (nat, nat))
    requires
        squares_well(s),
    ensures
        63 <= r.1 <= 189,
        0x80_0000 <= r.0 < 0x100_0000,
        s.code() == r.1 * 0x80_0000 + r.0,
        crate::single::single_spec().mag(s.spec_num()) == r.0 * pow2(r.1),
{
    crate::single::lemma_single_sizes();
    lemma2_to64();
    let c = s.code();
    lemma_fundamental_div_mod(c as int, 0x80_0000);
    let k = (c / 0x80_0000 - 1) as nat;
    let sig = (c - k * 0x80_0000) as nat;
    assert(crate::rounding::code_mag(24, c) == sig * pow2(k)) by {
        assert(pow2((24 - 1) as nat) == 0x80_0000);
    }
    (sig, k)
}

/// The rounded square of `sig * 2^k` units, counted in squares of units, is as
/// near to the exact square as the precision allows.
proof fn lemma_rounded_square(s: Single, sig: nat, k: nat) -> (t: nat)
    requires
        squares_well(s),
        63 <= k <= 189,
        0x80_0000 <= sig < 0x100_0000,
        crate::single::single_spec().mag(s.spec_num()) == sig * pow2(k),
    ensures
        s.fmul(s).finite(),
        s.fmul(s).rank() > 0,
        t == crate::single::single_spec().mag(s.fmul(s).spec_num()) * pow2(149),
        0x100_0000 * t <= 0x100_0001 * ((sig * pow2(k)) * (sig * pow2(k))),
        0x100_0000 * t >= 0xff_ffff * ((sig * pow2(k)) * (sig * pow2(k))),
        sig == 0x80_0000 ==> t == (sig * pow2(k)) * (sig * pow2(k)),
{
    crate::single::lemma_single_sizes();
    let f = crate::single::single_spec();
    let unit = pow2(149);
    let a = pow2(k);
    let m = sig * a;
    let d = m * m;
    lemma2_to64();
    lemma_pow2_pos(149);
    lemma_pow2_pos(k);
    // from 2^172 up to (2^24 - 1) * 2^402
    lemma_pow2_adds(23, k);
    crate::rounding::lemma_pow2_monotone(86, 23 + k);
    assert(m >= pow2(86)) by (nonlinear_arith)
        requires
            m == sig * a,
            sig >= 0x80_0000,
            0x80_0000 * a >= pow2(86),
    ;
    lemma_pow2_adds(86, 86);
    assert(d >= pow2(172)) by (nonlinear_arith)
        requires
            d == m * m,
            m >= pow2(86),
            pow2(172) == pow2(86) * pow2(86),
    ;
    let top = pow2(253);
    lemma_pow2_pos(253);
    lemma_pow2_adds(k, k);
    lemma_pow2_adds(24, 2 * k);
    lemma_pow2_adds(253, 149);
    crate::rounding::lemma_pow2_monotone(24 + 2 * k, 402);
    assert(k + k == 2 * k);
    assert(d * 1 <= (0xff_ffff * top) * unit) by (nonlinear_arith)
        requires
            d == m * m,
            m == sig * a,
            sig <= 0xff_ffff,
            a * a == pow2(2 * k),
            0x100_0000 * pow2(2 * k) <= pow2(402),
            pow2(402) == top * unit,
    {
        assert(d == (sig * sig) * (a * a));
        assert(sig * sig <= 0xff_ffff * 0x100_0000);
        assert((sig * sig) * (a * a) <= (0xff_ffff * 0x100_0000) * (a * a));
        assert((0xff_ffff * 0x100_0000) * (a * a) == 0xff_ffff * (0x100_0000 * (a * a)));
    }
    // the square is finite
    lemma_fundamental_div_mod_converse(0x7f7f_ffff, 0x80_0000, 254, 0x7f_ffff);
    assert(crate::rounding::code_mag(24, 0x7f7f_ffff) == 0xff_ffff * top) by {
        assert(pow2((24 - 1) as nat) == 0x80_0000);
        assert(0x7f7f_ffff - 253 * 0x80_0000 == 0xff_ffff);
    }
    crate::rounding_laws::law_rounding_is_exact(24, 255, 0x7f7f_ffff);
    crate::rounding_laws::law_rounding_is_monotone(24, 255, d, unit, 0xff_ffff * top, 1);
    let c = crate::rounding::round_code(24, 255, d, unit);
    assert(s.fmul(s).code() == c && !s.fmul(s).is_negative()) by {
        reveal(Single::fmul);
    }
    lemma_pow2_adds(24, 253);
    assert(d < unit * pow2(277)) by (nonlinear_arith)
        requires
            d <= (0xff_ffff * top) * unit,
            pow2(277) == 0x100_0000 * top,
            top > 0,
            unit > 0,
    {
        assert(0xff_ffff * top < 0x100_0000 * top);
        assert((0xff_ffff * top) * unit < (0x100_0000 * top) * unit);
    }
    crate::seconds_laws::lemma_rounded(d, unit);
    let j = crate::rounding::binade(24, d, unit);
    let step = pow2(j);
    let q = crate::rounding::rne(d, unit * step);
    let t = (q * step) * unit;
    lemma_pow2_pos(j);
    lemma_pow2_adds(23, j);
    lemma_pow2_adds(23, 149);
    // a step is at most the square over 2^23
    if j > 0 {
        assert(d >= unit * pow2(23 + j));
    } else {
        assert(d >= unit * pow2(23 + j)) by (nonlinear_arith)
            requires
                d >= pow2(172),
                pow2(172) == 0x80_0000 * unit,
                pow2(23 + j) == 0x80_0000,
        ;
    }
    let w = unit * step;
    assert(d >= 0x80_0000 * w) by (nonlinear_arith)
        requires
            d >= unit * pow2(23 + j),
            pow2(23 + j) == 0x80_0000 * step,
            w == unit * step,
    ;
    assert(w > 0) by (nonlinear_arith)
        requires
            w == unit * step,
            unit > 0,
            step > 0,
    ;
    lemma_fundamental_div_mod(d as int, w as int);
    let q0 = d / w;
    let r = d % w;
    assert(t == q * w) by (nonlinear_arith)
        requires
            t == (q * step) * unit,
            w == unit * step,
    ;
    assert(w * q0 == q0 * w) by (nonlinear_arith);
    assert((q0 + 1) * w == q0 * w + w) by (nonlinear_arith);
    assert(2 * t <= 2 * d + w && 2 * t >= 2 * d - w);
    if sig == 0x80_0000 {
        // the square is a power of two
        let e = 46 + 2 * k;
        lemma_pow2_adds(23 + k, 23 + k);
        assert(m == pow2(23 + k));
        assert(d == pow2(e));
        lemma_pow2_adds(149, 23 + j);
        lemma_pow2_adds(149, 24 + j);
        if e < 172 + j {
            lemma_pow2_strictly_increases(e, 172 + j);
        } else if e > 172 + j {
            crate::rounding::lemma_pow2_monotone(173 + j, e);
        }
        assert(d == unit * pow2(23 + j));
        assert(d == 0x80_0000 * w) by (nonlinear_arith)
            requires
                d == unit * pow2(23 + j),
                pow2(23 + j) == 0x80_0000 * step,
                w == unit * step,
        ;
        lemma_fundamental_div_mod_converse(d as int, w as int, 0x80_0000, 0);
    }
    assert(t > 0);
    if q == 0 {
        assert(q * w == 0) by (nonlinear_arith)
            requires
                q == 0,
        ;
    }
    t
}

/// The root of a number's square is the number.
pub proof fn law_root_of_a_square(s: Single)
    requires
        squares_well(s),
    ensures
        s.fmul(s).fsqrt() == s,
{
    crate::single::lemma_single_sizes();
    let f = crate::single::single_spec();
    let unit = pow2(149);
    let (sig, k) = lemma_parts(s);
    let t = lemma_rounded_square(s, sig, k);
    let a = pow2(k);
    let m = sig * a;
    let d = m * m;
    let y = f.mag(s.fmul(s).spec_num());
    let wide = 4 * (y * unit);
    lemma2_to64();
    lemma_pow2_pos(k);
    lemma_integer_root_bounds(wide);
    let r = crate::ieee::integer_root(wide);
    let mid = if r * r == wide {
        2 * r
    } else {
        2 * r + 1
    };
    assert(wide == 4 * t);
    if sig == 0x80_0000 {
        let twice = 2 * m;
        assert(twice * twice == wide && wide < (twice + 1) * (twice + 1)) by (nonlinear_arith)
            requires
                twice == 2 * m,
                wide == 4 * (m * m),
        ;
        lemma_integer_root(wide, twice);
        assert(mid == m * 4);
        crate::rounding_laws::law_rounding_ignores_scale(24, 255, m, 1, 4);
        crate::rounding_laws::law_rounding_is_exact(24, 255, s.code());
        assert(1 * 4 == 4);
    } else {
        lemma_root_near(sig, a, t, r);
        lemma_pow2_adds(24, k);
        lemma_pow2_adds(23, k);
        let w = 4 * a;
        assert(mid > w * sig - 2 * a && mid < w * sig + 2 * a) by {
            assert(w * sig == 4 * (a * sig)) by (nonlinear_arith)
                requires
                    w == 4 * a,
            ;
            assert((2 * sig - 1) * a == 2 * (a * sig) - a) by (nonlinear_arith);
            assert((2 * sig + 1) * a == 2 * (a * sig) + a) by (nonlinear_arith);
        }
        assert(w * sig >= w * 0x80_0001 && w * sig <= w * 0xff_ffff) by (nonlinear_arith)
            requires
                0x80_0001 <= sig <= 0xff_ffff,
        ;
        assert(4 * pow2(24 + k) == w * 0x100_0000);
        assert(4 * pow2(23 + k) == w * 0x80_0000);
        assert((24 + k - 1) as nat == 23 + k);
        crate::rounding::lemma_binade_is(24, mid, 4, k);
        if mid >= w * sig {
            assert(w * sig == sig * w) by (nonlinear_arith);
            lemma_fundamental_div_mod_converse(mid as int, w as int, sig as int, mid - w * sig);
        } else {
            assert(w * sig == (sig - 1) * w + w) by (nonlinear_arith);
            lemma_fundamental_div_mod_converse(
                mid as int,
                w as int,
                sig - 1,
                mid - (sig - 1) * w,
            );
        }
        assert(crate::rounding::rne(mid, w) == sig);
        assert(pow2((24 - 1) as nat) == 0x80_0000);
    }
    assert(f.round(mid, 4) == s.code());
    assert(s.fmul(s).fsqrt() == s) by {
        reveal(Single::fsqrt);
    }
}

/// The integer root of four times a value near `(sig * a)^2` lies near
/// `2 * sig * a`.
proof fn lemma_root_near(sig: nat, a: nat, t: nat, r: nat)
    requires
        a > 0,
        0x80_0000 <= sig < 0x100_0000,
        0x100_0000 * t <= 0x100_0001 * ((sig * a) * (sig * a)),
        0x100_0000 * t >= 0xff_ffff * ((sig * a) * (sig * a)),
        r * r <= 4 * t < (r + 1) * (r + 1),
    ensures
        r >= (2 * sig - 1) * a,
        r * r == 4 * t ==> r > (2 * sig - 1) * a,
        r < (2 * sig + 1) * a,
{
    let d = (sig * a) * (sig * a);
    let aa = a * a;
    assert(aa > 0) by (nonlinear_arith)
        requires
            aa == a * a,
            a > 0,
    ;
    assert(d == (sig * sig) * aa) by (nonlinear_arith)
        requires
            d == (sig * a) * (sig * a),
            aa == a * a,
    ;
    let ss = sig * sig;
    assert(ss <= sig * 0xff_ffff) by (nonlinear_arith)
        requires
            ss == sig * sig,
            sig <= 0xff_ffff,
    ;
    let low = (2 * sig - 1) * a;
    let high = (2 * sig + 1) * a;
    assert(low * low == (4 * ss - 4 * sig + 1) * aa) by (nonlinear_arith)
        requires
            low == (2 * sig - 1) * a,
            ss == sig * sig,
            aa == a * a,
    ;
    assert(high * high == (4 * ss + 4 * sig + 1) * aa) by (nonlinear_arith)
        requires
            high == (2 * sig + 1) * a,
            ss == sig * sig,
            aa == a * a,
    ;
    assert(0x100_0000 * (low * low) < 0x100_0000 * (4 * t)) by (nonlinear_arith)
        requires
            low * low == (4 * ss - 4 * sig + 1) * aa,
            0x100_0000 * t >= 0xff_ffff * (ss * aa),
            ss <= sig * 0xff_ffff,
            sig >= 0x80_0000,
            aa > 0,
    {
        assert(0x100_0000 * (4 * ss - 4 * sig + 1) < 4 * 0xff_ffff * ss);
        assert(0x100_0000 * (4 * ss - 4 * sig + 1) * aa < 4 * 0xff_ffff * ss * aa);
    }
    assert(0x100_0000 * (4 * t) < 0x100_0000 * (high * high)) by (nonlinear_arith)
        requires
            high * high == (4 * ss + 4 * sig + 1) * aa,
            0x100_0000 * t <= 0x100_0001 * (ss * aa),
            ss <= sig * 0xff_ffff,
            aa > 0,
    {
        assert(4 * 0x100_0001 * ss < 0x100_0000 * (4 * ss + 4 * sig + 1));
        assert(4 * 0x100_0001 * ss * aa < 0x100_0000 * (4 * ss + 4 * sig + 1) * aa);
    }
    assert(low >= 0) by (nonlinear_arith)
        requires
            low == (2 * sig - 1) * a,
            sig >= 1,
    ;
    assert(high >= 0) by (nonlinear_arith)
        requires
            high == (2 * sig + 1) * a,
    ;
    assert(r >= low && (r * r == 4 * t ==> r > low) && r < high) by (nonlinear_arith)
        requires
            low * low < 4 * t,
            4 * t < high * high,
            r * r <= 4 * t < (r + 1) * (r + 1),
            low >= 0,
            high >= 0,
    ;
}

// ---------------------------------------------------------------------------
// At most one limit

/// Products of numbers that are not negative grow with a factor.
proof fn lemma_products_keep_order(k: Single, p: Single, r: Single)
    requires
        is_amount(k),
        is_amount(p),
        is_amount(r),
        p.rank() <= r.rank(),
    ensures
        !k.fmul(p).nan(),
        !k.fmul(r).nan(),
        0 <= k.fmul(p).rank() <= k.fmul(r).rank(),
{
    crate::single_laws::law_product_of_nonnegative(k, p);
    crate::single_laws::law_product_of_nonnegative(k, r);
    crate::single_laws::law_rank_orders_values(p, r);
    crate::single::lemma_single_sizes();
    let f = crate::single::single_spec();
    let (a, b, c) = (f.mag(k.spec_num()), f.mag(p.spec_num()), f.mag(r.spec_num()));
    let unit = pow2(149);
    lemma_pow2_pos(149);
    if k.is_negative() || p.is_negative() || r.is_negative() {
        let z = crate::ieee::Num { neg: false, code: 0 };
        crate::ieee::lemma_mag_zero(f, z);
        if k.code() == 0 {
            crate::ieee::lemma_mag_zero(f, k.spec_num());
        }
        if p.code() == 0 {
            crate::ieee::lemma_mag_zero(f, p.spec_num());
        }
        if r.code() == 0 {
            crate::ieee::lemma_mag_zero(f, r.spec_num());
        }
    }
    assert((a * b) * unit <= (a * c) * unit) by (nonlinear_arith)
        requires
            b <= c,
    ;
    crate::rounding_laws::law_rounding_is_monotone(24, 255, a * b, unit, a * c, unit);
    reveal(Single::fmul);
}

/// The circle is widest at zero.
proof fn lemma_circle_shrinks(s: Single, p: Single)
    requires
        is_positive(s),
        is_amount(p),
        p.rank() < s.rank(),
        s.fmul(s).fsqrt() == s,
    ensures
        is_amount(crate::reactive::circle_q(s, p)),
        crate::reactive::circle_q(s, p).rank() <= s.rank(),
        p.rank() == 0 ==> crate::reactive::circle_q(s, p).rank() == s.rank(),
{
    let z = Single::lit(ZERO);
    crate::single::lemma_single_sizes();
    crate::single_laws::law_product_of_nonnegative(s, s);
    let ss = s.fmul(s);
    assert(ss.finite() && ss.rank() > 0) by {
        reveal(Single::fsqrt);
    }
    lemma_products_keep_order(p, z, p);
    lemma_products_keep_order(p, p, s);
    lemma_products_keep_order(s, p, s);
    assert(p.fmul(s) == s.fmul(p)) by {
        reveal(Single::fmul);
        let f = crate::single::single_spec();
        let (a, b) = (f.mag(p.spec_num()), f.mag(s.spec_num()));
        assert(a * b == b * a) by (nonlinear_arith);
    }
    let pp = p.fmul(p);
    assert(pp.finite());
    let f = crate::single::single_spec();
    crate::ieee::lemma_mag_zero(f, z.spec_num());
    crate::single_laws::law_rank_orders_values(z, pp);
    crate::single_laws::lemma_negated_units(pp);
    crate::single_laws::law_sum_is_nearest(ss, pp.fneg());
    crate::single_laws::law_nearest_of_number(ss);
    crate::single_laws::law_nearest_is_monotone(ss.units() - pp.units(), ss.units());
    let left = ss.fsub(pp).fmax(z);
    if p.rank() == 0 {
        assert(p.code() == 0);
        crate::ieee::lemma_mag_zero(f, p.spec_num());
        assert(pp.rank() == 0) by {
            assert(p.fmul(p).rank() <= 0) by {
                reveal(Single::fmul);
                crate::rounding_laws::law_rounding_is_exact(24, 255, 0);
                lemma_pow2_pos(149);
                crate::rounding_laws::law_rounding_ignores_scale(24, 255, 0, 1, pow2(149));
                assert(0 * pow2(149) == 0 && 0nat * 0nat == 0) by (nonlinear_arith);
            }
        }
        crate::single_laws::law_rank_orders_values(pp, z);
    }
    assert(is_amount(left) && left.rank() <= ss.rank());
    law_roots_keep_order(left, ss);
    if p.rank() == 0 {
        law_roots_keep_order(ss, left);
    }
}

/// What a limit must be for its band to be taken from it: positive, and an
/// apparent-power limit the root of its own square (see
/// [`law_root_of_a_square`]).
pub open spec fn sound_limits(c: ReactiveCapability) -> bool {
    &&& c.pf_limit matches Some(k) ==> is_positive(k)
    &&& c.apparent_va matches Some(s) ==> is_positive(s) && s.fmul(s).fsqrt() == s
}

/// With at most one limit set, the hull covers the bounds on Q at every P up
/// to the rating.
pub proof fn law_hull_covers_every_power(
    c: ReactiveCapability,
    p_rated_abs: Single,
    p: Single,
)
    requires
        sound_limits(c),
        c.pf_limit is None || c.apparent_va is None,
        is_amount(p_rated_abs),
        is_amount(p),
        p.rank() <= p_rated_abs.rank(),
    ensures
        inside(c.q_bounds(p), hull_band(c, p_rated_abs)),
{
    crate::single::lemma_single_sizes();
    if let Some(k) = c.pf_limit {
        lemma_products_keep_order(k, p.fabs(), p_rated_abs);
    }
    if let Some(s) = c.apparent_va {
        if p.rank() < s.rank() {
            lemma_circle_shrinks(s, p);
        }
    }
}

/// With at most one limit set, no band is smaller: at some P up to the rating
/// the bounds on Q are the hull. That P is the rating, or zero under an
/// apparent-power limit. A power-factor limit that overflows at the rating has
/// no such P.
pub proof fn law_hull_is_reached(c: ReactiveCapability, p_rated_abs: Single)
    requires
        sound_limits(c),
        c.pf_limit is None || c.apparent_va is None,
        is_amount(p_rated_abs),
        c.pf_limit matches Some(k) ==> k.fmul(p_rated_abs).finite(),
    ensures
        exists|p: Single|
            is_amount(p) && p.rank() <= p_rated_abs.rank() && #[trigger] same_band(
                c.q_bounds(p),
                hull_band(c, p_rated_abs),
            ),
{
    crate::single::lemma_single_sizes();
    let p = if c.apparent_va is Some {
        Single::lit(ZERO)
    } else {
        p_rated_abs
    };
    if let Some(k) = c.pf_limit {
        lemma_products_keep_order(k, p.fabs(), p_rated_abs);
        lemma_products_keep_order(k, p_rated_abs, p.fabs());
    }
    if let Some(s) = c.apparent_va {
        lemma_circle_shrinks(s, p);
    }
    assert(same_band(c.q_bounds(p), hull_band(c, p_rated_abs)));
}

// ---------------------------------------------------------------------------
// Both limits

/// The product is not rounded.
pub open spec fn exact_product(a: Single, b: Single) -> bool {
    a.fmul(b).finite() && a.fmul(b).units() * pow2(149) == a.units() * b.units()
}

/// The sum is not rounded.
pub open spec fn exact_sum(a: Single, b: Single) -> bool {
    a.fadd(b).finite() && a.fadd(b).units() == a.units() + b.units()
}

/// The quotient is not rounded.
pub open spec fn exact_quotient(a: Single, b: Single) -> bool {
    a.fdiv(b).finite() && a.fdiv(b).units() * b.units() == a.units() * pow2(149)
}

/// The root is not rounded.
pub open spec fn exact_root(a: Single) -> bool {
    is_amount(a.fsqrt()) && a.fsqrt().units() * a.fsqrt().units() == a.units() * pow2(149)
}

/// No step on the way to the bounds at `p` is rounded.
pub open spec fn exact_bounds(k: Single, s: Single, p: Single) -> bool {
    let left = s.fmul(s).fsub(p.fmul(p));
    &&& exact_product(k, p.fabs())
    &&& exact_product(s, s)
    &&& exact_product(p, p)
    &&& exact_sum(s.fmul(s), p.fmul(p).fneg())
    &&& exact_root(left.fmax(Single::lit(ZERO)))
}

/// `sqrt(1 + k^2)`.
pub open spec fn norm_of(k: Single) -> Single {
    Single::lit(ONE).fadd(k.fmul(k)).fsqrt()
}

/// The power at which the line and the circle cross.
pub open spec fn crossing(k: Single, s: Single) -> Single {
    s.fdiv(norm_of(k))
}

/// No step on the way to the hull is rounded.
pub open spec fn exact_hull(k: Single, s: Single, p_rated_abs: Single) -> bool {
    &&& exact_product(k, k)
    &&& exact_sum(Single::lit(ONE), k.fmul(k))
    &&& exact_root(Single::lit(ONE).fadd(k.fmul(k)))
    &&& exact_quotient(s, norm_of(k))
    &&& if crossing(k, s).fle(p_rated_abs) {
        exact_product(k, s) && exact_quotient(k.fmul(s), norm_of(k))
    } else {
        exact_bounds(k, s, p_rated_abs)
    }
}

/// The bounds at a power inside the circle, where no step is rounded: the
/// lesser of the line and the circle.
proof fn lemma_exact_bounds(c: ReactiveCapability, k: Single, s: Single, p: Single) -> (r: (
    int,
    int,
))
    requires
        c.pf_limit == Some(k),
        c.apparent_va == Some(s),
        is_positive(k),
        is_positive(s),
        is_amount(p),
        p.rank() < s.rank(),
        exact_bounds(k, s, p),
    ensures
        r.0 >= 0,
        r.1 >= 0,
        r.0 * pow2(149) == k.units() * p.units(),
        r.1 * r.1 == s.units() * s.units() - p.units() * p.units(),
        r.0 == k.fmul(p.fabs()).units(),
        r.1 == crate::reactive::circle_q(s, p).units(),
        is_amount(k.fmul(p.fabs())),
        is_amount(crate::reactive::circle_q(s, p)),
        c.q_bounds(p).1.finite(),
        c.q_bounds(p).1.units() == if r.0 <= r.1 {
            r.0
        } else {
            r.1
        },
        c.q_bounds(p).0.rank() == -c.q_bounds(p).1.rank(),
        c.q_bounds(p).1.rank() >= 0,
        !c.q_bounds(p).0.nan(),
{
    crate::single::lemma_single_sizes();
    let f = crate::single::single_spec();
    let unit = pow2(149) as int;
    lemma_pow2_pos(149);
    let z = Single::lit(ZERO);
    crate::ieee::lemma_mag_zero(f, z.spec_num());
    crate::single_laws::law_product_of_nonnegative(k, p.fabs());
    if p.code() == 0 {
        crate::ieee::lemma_mag_zero(f, p.spec_num());
        crate::ieee::lemma_mag_zero(f, p.fabs().spec_num());
    }
    assert(p.fabs().units() == p.units());
    let line = k.fmul(p.fabs());
    let pp = p.fmul(p);
    let ss = s.fmul(s);
    let left = ss.fsub(pp);
    crate::single_laws::law_product_of_nonnegative(p, p);
    crate::single_laws::lemma_negated_units(pp);
    crate::single_laws::law_rank_orders_values(z, p);
    crate::single_laws::law_rank_orders_values(s, p);
    let (x, y) = (s.units(), p.units());
    assert(left.units() * unit == x * x - y * y) by (nonlinear_arith)
        requires
            left.units() == ss.units() - pp.units(),
            ss.units() * unit == x * x,
            pp.units() * unit == y * y,
    ;
    assert(x * x - y * y > 0) by (nonlinear_arith)
        requires
            x > y,
            y >= 0,
    ;
    assert(left.units() > 0) by (nonlinear_arith)
        requires
            left.units() * unit > 0,
            unit > 0,
    ;
    crate::single_laws::law_rank_orders_values(left, z);
    assert(left.fmax(z) == left);
    let arc = crate::reactive::circle_q(s, p);
    crate::single_laws::law_rank_orders_values(z, line);
    crate::single_laws::law_rank_orders_values(z, arc);
    crate::single_laws::law_rank_orders_values(line, arc);
    crate::single_laws::law_rank_orders_values(arc, line);
    assert(Single::lit(NEG_INFINITY).fmax(line.fneg()) == line.fneg());
    assert(Single::lit(INFINITY).fmin(line) == line);
    (line.units(), arc.units())
}

/// `sqrt(1 + k^2)` and the crossing, where no step is rounded.
proof fn lemma_exact_norm(k: Single, s: Single, p_rated_abs: Single)
    requires
        is_positive(k),
        is_positive(s),
        exact_hull(k, s, p_rated_abs),
    ensures
        k.units() > 0,
        s.units() > 0,
        norm_of(k).units() > 0,
        norm_of(k).units() * norm_of(k).units() == pow2(149) * pow2(149) + k.units() * k.units(),
        crossing(k, s).units() * norm_of(k).units() == s.units() * pow2(149),
        is_positive(crossing(k, s)),
        crossing(k, s).rank() < s.rank(),
{
    crate::single::lemma_single_sizes();
    crate::single_laws::lemma_one();
    let f = crate::single::single_spec();
    let z = Single::lit(ZERO);
    crate::ieee::lemma_mag_zero(f, z.spec_num());
    crate::single_laws::law_rank_orders_values(k, z);
    crate::single_laws::law_rank_orders_values(s, z);
    let unit = pow2(149) as int;
    lemma_pow2_pos(149);
    let kk = k.fmul(k);
    let sum = Single::lit(ONE).fadd(kk);
    let n = norm_of(k);
    let (a, b, m) = (k.units(), s.units(), n.units());
    assert(sum.units() * unit == unit * unit + a * a) by (nonlinear_arith)
        requires
            sum.units() == unit + kk.units(),
            kk.units() * unit == a * a,
    ;
    crate::single_laws::law_rank_orders_values(z, n);
    assert(m > unit) by (nonlinear_arith)
        requires
            m * m == unit * unit + a * a,
            a > 0,
            m >= 0,
            unit > 0,
    ;
    let x = crossing(k, s);
    let v = x.units();
    assert(v > 0 && v < b) by (nonlinear_arith)
        requires
            v * m == b * unit,
            m > unit,
            unit > 0,
            b > 0,
    ;
    crate::single_laws::law_rank_orders_values(x, z);
    crate::single_laws::law_rank_orders_values(s, x);
}

/// With both limits set, and where no step is rounded, the hull covers the
/// bounds on Q at every P up to the rating.
pub proof fn law_exact_hull_covers_every_power(
    k: Single,
    s: Single,
    p_rated_abs: Single,
    p: Single,
)
    requires
        is_positive(k),
        is_positive(s),
        is_amount(p_rated_abs),
        is_amount(p),
        p.rank() <= p_rated_abs.rank(),
        exact_hull(k, s, p_rated_abs),
        p.rank() < s.rank() ==> exact_bounds(k, s, p),
    ensures
        inside(
            (ReactiveCapability { pf_limit: Some(k), apparent_va: Some(s) }).q_bounds(p),
            hull_band(
                ReactiveCapability { pf_limit: Some(k), apparent_va: Some(s) },
                p_rated_abs,
            ),
        ),
{
    let c = ReactiveCapability { pf_limit: Some(k), apparent_va: Some(s) };
    let h = c.widest_q(p_rated_abs);
    lemma_exact_hull(k, s, p_rated_abs);
    crate::single::lemma_single_sizes();
    if p.rank() < s.rank() {
        let unit = pow2(149) as int;
        lemma_pow2_pos(149);
        let (line, arc) = lemma_exact_bounds(c, k, s, p);
        let q = c.q_bounds(p).1;
        let (a, b, m) = (k.units(), s.units(), norm_of(k).units());
        let (y, g) = (p.units(), h.units());
        crate::ieee::lemma_mag_zero(
            crate::single::single_spec(),
            Single::lit(ZERO).spec_num(),
        );
        crate::single_laws::law_rank_orders_values(Single::lit(ZERO), p);
        if crossing(k, s).fle(p_rated_abs) {
            lemma_one_within(a, b, m, unit, y, g, line, arc);
        } else {
            crate::single_laws::law_rank_orders_values(p, p_rated_abs);
            let x = p_rated_abs.units();
            assert(line <= g) by (nonlinear_arith)
                requires
                    line * unit == a * y,
                    g * unit == a * x,
                    y <= x,
                    a > 0,
                    unit > 0,
            ;
        }
        crate::single_laws::law_rank_orders_values(q, h);
    }
}

/// The line or the circle keeps within the hull.
proof fn lemma_one_within(
    k: int,
    s: int,
    n: int,
    unit: int,
    p: int,
    h: int,
    line: int,
    arc: int,
)
    requires
        k > 0,
        s > 0,
        n > 0,
        unit > 0,
        p >= 0,
        h >= 0,
        n * n == unit * unit + k * k,
        h * n == k * s,
        line * unit == k * p,
        arc * arc == s * s - p * p,
    ensures
        line <= h || arc <= h,
{
    if line > h && arc > h {
        // the line is past the hull: n * p > unit * s
        assert(line * n > h * n) by (nonlinear_arith)
            requires
                line > h,
                n > 0,
        ;
        assert(k * (n * p) > k * (unit * s)) by (nonlinear_arith)
            requires
                line * n > k * s,
                line * unit == k * p,
                unit > 0,
                n > 0,
        {
            assert((line * n) * unit > (k * s) * unit);
            assert((line * n) * unit == (line * unit) * n);
            assert((k * p) * n == k * (n * p));
            assert((k * s) * unit == k * (unit * s));
        }
        assert(n * p > unit * s) by (nonlinear_arith)
            requires
                k * (n * p) > k * (unit * s),
                k > 0,
        ;
        assert((n * p) * (n * p) > (unit * s) * (unit * s)) by (nonlinear_arith)
            requires
                n * p > unit * s,
                unit > 0,
                s > 0,
        {
            assert(unit * s > 0);
        }
        // the circle is past it: the opposite
        assert(arc * arc > h * h) by (nonlinear_arith)
            requires
                arc > h,
                h >= 0,
        ;
        let nn = n * n;
        assert(nn > 0) by (nonlinear_arith)
            requires
                nn == n * n,
                n > 0,
        ;
        assert(nn * (s * s - p * p) > (k * s) * (k * s)) by (nonlinear_arith)
            requires
                arc * arc == s * s - p * p,
                arc * arc > h * h,
                nn == n * n,
                nn > 0,
                h * n == k * s,
        {
            assert(nn * (arc * arc) > nn * (h * h));
            assert(nn * (h * h) == (h * n) * (h * n));
        }
        assert(nn * (s * s - p * p) == nn * (s * s) - nn * (p * p)) by (nonlinear_arith);
        assert(nn * (p * p) == (n * p) * (n * p)) by (nonlinear_arith)
            requires
                nn == n * n,
        ;
        assert(nn * (s * s) == (unit * s) * (unit * s) + (k * s) * (k * s)) by (nonlinear_arith)
            requires
                nn == unit * unit + k * k,
        ;
    }
}

/// The hull, where no step is rounded: `k * s / n` at the crossing, else the
/// line at the rating.
proof fn lemma_exact_hull(k: Single, s: Single, p_rated_abs: Single)
    requires
        is_positive(k),
        is_positive(s),
        is_amount(p_rated_abs),
        exact_hull(k, s, p_rated_abs),
    ensures
        ({
            let c = ReactiveCapability { pf_limit: Some(k), apparent_va: Some(s) };
            let h = c.widest_q(p_rated_abs);
            let (a, b, n) = (k.units(), s.units(), norm_of(k).units());
            &&& is_amount(h)
            &&& h.units() >= 0
            &&& a > 0
            &&& b > 0
            &&& n > 0
            &&& n * n == pow2(149) * pow2(149) + a * a
            &&& if crossing(k, s).fle(p_rated_abs) {
                h.units() * n == a * b
            } else {
                &&& h == k.fmul(p_rated_abs)
                &&& h.units() * pow2(149) == a * p_rated_abs.units()
                &&& p_rated_abs.rank() < s.rank()
                &&& k.fmul(p_rated_abs).rank() <= crate::reactive::circle_q(s, p_rated_abs).rank()
            }
        }),
{
    let c = ReactiveCapability { pf_limit: Some(k), apparent_va: Some(s) };
    let h = c.widest_q(p_rated_abs);
    let unit = pow2(149) as int;
    lemma_pow2_pos(149);
    crate::single::lemma_single_sizes();
    lemma_exact_norm(k, s, p_rated_abs);
    let f = crate::single::single_spec();
    let z = Single::lit(ZERO);
    crate::ieee::lemma_mag_zero(f, z.spec_num());
    let (a, b, n) = (k.units(), s.units(), norm_of(k).units());
    if crossing(k, s).fle(p_rated_abs) {
        let ks = k.fmul(s);
        let g = h.units();
        assert(g * n == a * b);
        assert(a * b > 0) by (nonlinear_arith)
            requires
                a > 0,
                b > 0,
        ;
        assert(g > 0) by (nonlinear_arith)
            requires
                g * n > 0,
                n > 0,
        ;
        crate::single_laws::law_rank_orders_values(z, h);
    } else {
        let r = p_rated_abs;
        crate::single_laws::law_rank_orders_values(r, crossing(k, s));
        crate::single_laws::law_rank_orders_values(crossing(k, s), r);
        let (line, arc) = lemma_exact_bounds(c, k, s, r);
        let x = r.units();
        let v = crossing(k, s).units();
        crate::single_laws::law_rank_orders_values(z, r);
        // before the crossing the line is under the circle
        assert(n * x < b * unit) by (nonlinear_arith)
            requires
                x < v,
                v * n == b * unit,
                n > 0,
        ;
        lemma_line_under_circle(a, b, n, unit, x, line, arc);
        assert(k.fmul(r.fabs()).rank() == k.fmul(r).rank() && k.fmul(r).units() == line) by {
            lemma_products_keep_order(k, r, r.fabs());
            lemma_products_keep_order(k, r.fabs(), r);
            crate::single_laws::law_rank_orders_values(k.fmul(r), k.fmul(r.fabs()));
            crate::single_laws::law_rank_orders_values(k.fmul(r.fabs()), k.fmul(r));
        }
        crate::single_laws::law_rank_orders_values(
            k.fmul(r),
            crate::reactive::circle_q(s, r),
        );
    }
}

/// Before the crossing the line is under the circle.
proof fn lemma_line_under_circle(
    k: int,
    s: int,
    n: int,
    unit: int,
    p: int,
    line: int,
    arc: int,
)
    requires
        k > 0,
        s > 0,
        n > 0,
        unit > 0,
        p >= 0,
        arc >= 0,
        n * n == unit * unit + k * k,
        line * unit == k * p,
        arc * arc == s * s - p * p,
        n * p < s * unit,
    ensures
        line <= arc,
{
    if line > arc {
        assert((n * p) * (n * p) < (s * unit) * (s * unit)) by (nonlinear_arith)
            requires
                n * p < s * unit,
                n > 0,
                p >= 0,
        {
            assert(n * p >= 0);
        }
        assert(line * line > arc * arc) by (nonlinear_arith)
            requires
                line > arc,
                arc >= 0,
        ;
        let uu = unit * unit;
        assert(uu > 0) by (nonlinear_arith)
            requires
                uu == unit * unit,
                unit > 0,
        ;
        assert((k * p) * (k * p) > uu * (s * s - p * p)) by (nonlinear_arith)
            requires
                line * line > arc * arc,
                arc * arc == s * s - p * p,
                line * unit == k * p,
                uu == unit * unit,
                uu > 0,
        {
            assert(uu * (line * line) > uu * (arc * arc));
            assert(uu * (line * line) == (line * unit) * (line * unit));
        }
        assert(uu * (s * s - p * p) == (s * unit) * (s * unit) - uu * (p * p)) by (nonlinear_arith)
            requires
                uu == unit * unit,
        ;
        assert((n * p) * (n * p) == uu * (p * p) + (k * p) * (k * p)) by (nonlinear_arith)
            requires
                n * n == uu + k * k,
        ;
    }
}

/// With both limits set, and where no step is rounded, no band is smaller: the
/// bounds on Q are the hull at the crossing or, if the rating ends before, at
/// the rating.
pub proof fn law_exact_hull_is_reached(k: Single, s: Single, p_rated_abs: Single)
    requires
        is_positive(k),
        is_positive(s),
        is_amount(p_rated_abs),
        exact_hull(k, s, p_rated_abs),
        crossing(k, s).fle(p_rated_abs) ==> exact_bounds(k, s, crossing(k, s)),
    ensures
        exists|p: Single|
            is_amount(p) && p.rank() <= p_rated_abs.rank() && #[trigger] same_band(
                (ReactiveCapability { pf_limit: Some(k), apparent_va: Some(s) }).q_bounds(p),
                hull_band(
                    ReactiveCapability { pf_limit: Some(k), apparent_va: Some(s) },
                    p_rated_abs,
                ),
            ),
{
    let c = ReactiveCapability { pf_limit: Some(k), apparent_va: Some(s) };
    let h = c.widest_q(p_rated_abs);
    let unit = pow2(149) as int;
    lemma_pow2_pos(149);
    crate::single::lemma_single_sizes();
    lemma_exact_norm(k, s, p_rated_abs);
    lemma_exact_hull(k, s, p_rated_abs);
    let (a, b, n) = (k.units(), s.units(), norm_of(k).units());
    let x = crossing(k, s);
    let p = if x.fle(p_rated_abs) {
        x
    } else {
        p_rated_abs
    };
    let (line, arc) = lemma_exact_bounds(c, k, s, p);
    let q = c.q_bounds(p).1;
    let g = h.units();
    if x.fle(p_rated_abs) {
        let v = x.units();
        assert(line == g) by (nonlinear_arith)
            requires
                line * unit == a * v,
                v * n == b * unit,
                g * n == a * b,
                n > 0,
                unit > 0,
        {
            assert((line * unit) * n == (a * v) * n);
            assert((a * v) * n == a * (v * n));
            assert(a * (b * unit) == (a * b) * unit);
            assert((line * n) * unit == (line * unit) * n);
            assert((line * n) * unit == (g * n) * unit);
            assert(line * n == g * n);
        }
        assert(arc == g) by {
            lemma_crossing_on_circle(a, b, n, unit, v, g, arc);
        }
    } else {
        crate::single_laws::law_rank_orders_values(
            k.fmul(p),
            crate::reactive::circle_q(s, p),
        );
        lemma_products_keep_order(k, p, p.fabs());
        lemma_products_keep_order(k, p.fabs(), p);
        crate::single_laws::law_rank_orders_values(k.fmul(p), k.fmul(p.fabs()));
        crate::single_laws::law_rank_orders_values(k.fmul(p.fabs()), k.fmul(p));
    }
    assert(q.units() == g);
    crate::single_laws::law_rank_orders_values(q, h);
    crate::single_laws::law_rank_orders_values(h, q);
    assert(same_band(c.q_bounds(p), hull_band(c, p_rated_abs)));
}

/// At the crossing the circle is as wide as the line.
proof fn lemma_crossing_on_circle(
    k: int,
    s: int,
    n: int,
    unit: int,
    v: int,
    h: int,
    arc: int,
)
    requires
        k > 0,
        s > 0,
        n > 0,
        h >= 0,
        arc >= 0,
        n * n == unit * unit + k * k,
        v * n == s * unit,
        h * n == k * s,
        arc * arc == s * s - v * v,
    ensures
        arc == h,
{
    let nn = n * n;
    assert(nn > 0) by (nonlinear_arith)
        requires
            nn == n * n,
            n > 0,
    ;
    assert(nn * (arc * arc) == nn * (s * s) - (s * unit) * (s * unit)) by (nonlinear_arith)
        requires
            arc * arc == s * s - v * v,
            nn == n * n,
            v * n == s * unit,
    {
        assert(nn * (s * s - v * v) == nn * (s * s) - nn * (v * v));
        assert(nn * (v * v) == (v * n) * (v * n));
    }
    assert(nn * (s * s) == (s * unit) * (s * unit) + (k * s) * (k * s)) by (nonlinear_arith)
        requires
            nn == unit * unit + k * k,
    ;
    assert(nn * (h * h) == (k * s) * (k * s)) by (nonlinear_arith)
        requires
            h * n == k * s,
            nn == n * n,
    {
        assert(nn * (h * h) == (h * n) * (h * n));
    }
    assert(arc * arc == h * h) by (nonlinear_arith)
        requires
            nn * (arc * arc) == nn * (h * h),
            nn > 0,
    ;
    assert(arc == h) by (nonlinear_arith)
        requires
            arc * arc == h * h,
            arc >= 0,
            h >= 0,
    ;
}

} // verus!
