//! Laws of rounding: it keeps order and leaves representable magnitudes alone.

use vstd::arithmetic::div_mod::*;
use vstd::arithmetic::mul::*;
use vstd::arithmetic::power2::*;
use vstd::prelude::*;

verus! {

pub(crate) proof fn lemma_binade_bounds(p: nat, n: nat, d: nat)
    requires
        p >= 1,
        d > 0,
    ensures
        n < d * pow2(p + crate::rounding::binade(p, n, d)),
        crate::rounding::binade(p, n, d) > 0 ==> n >= d * pow2(
            (p + crate::rounding::binade(p, n, d) - 1) as nat,
        ),
    decreases n - d,
{
    if n >= d * pow2(p) {
        lemma_pow2_unfold(p);
        lemma_pow2_pos((p - 1) as nat);
        assert(d * pow2(p) >= d * 2) by (nonlinear_arith)
            requires
                pow2(p) >= 2,
        ;
        lemma_binade_bounds(p, n, 2 * d);
        let k = crate::rounding::binade(p, n, 2 * d);
        lemma_pow2_unfold(p + k + 1);
        assert((2 * d) * pow2(p + k) == d * (2 * pow2(p + k))) by (nonlinear_arith);
        assert(p + (k + 1) == p + k + 1);
        if k > 0 {
            let j = (p + k - 1) as nat;
            lemma_pow2_unfold(p + k);
            assert((2 * d) * pow2(j) == d * (2 * pow2(j))) by (nonlinear_arith);
        }
    }
}

/// `n1 / d1 <= n2 / d2` rounds to integers in that order.
proof fn lemma_rne_monotone(n1: nat, d1: nat, n2: nat, d2: nat)
    requires
        d1 > 0,
        d2 > 0,
        n1 * d2 <= n2 * d1,
    ensures
        crate::rounding::rne(n1, d1) <= crate::rounding::rne(n2, d2),
{
    let q1 = n1 / d1;
    let r1 = n1 % d1;
    let q2 = n2 / d2;
    let r2 = n2 % d2;
    lemma_fundamental_div_mod(n1 as int, d1 as int);
    lemma_fundamental_div_mod(n2 as int, d2 as int);
    assert((d1 * q1 + r1) * d2 == (d1 * d2) * q1 + r1 * d2) by (nonlinear_arith);
    assert((d2 * q2 + r2) * d1 == (d1 * d2) * q2 + r2 * d1) by (nonlinear_arith);
    let dd = d1 * d2;
    assert(dd > 0) by (nonlinear_arith)
        requires
            dd == d1 * d2,
            d1 > 0,
            d2 > 0,
    ;
    assert(r2 * d1 < dd) by (nonlinear_arith)
        requires
            r2 < d2,
            d1 > 0,
            dd == d1 * d2,
    ;
    assert(q1 <= q2) by (nonlinear_arith)
        requires
            dd * q1 + r1 * d2 <= dd * q2 + r2 * d1,
            r2 * d1 < dd,
            r1 * d2 >= 0,
            dd > 0,
    ;
    if q1 == q2 {
        assert(r1 * d2 <= r2 * d1);
        if 2 * r1 > d1 {
            assert(2 * r2 > d2) by (nonlinear_arith)
                requires
                    2 * r1 > d1,
                    r1 * d2 <= r2 * d1,
                    d1 > 0,
                    d2 > 0,
            ;
        } else if 2 * r1 == d1 {
            assert(2 * r2 >= d2) by (nonlinear_arith)
                requires
                    2 * r1 == d1,
                    r1 * d2 <= r2 * d1,
                    d1 > 0,
            ;
        }
    }
}

/// Rounding keeps order: `n1 / d1 <= n2 / d2` gives codes in that order.
pub proof fn law_rounding_is_monotone(
    p: nat,
    top: nat,
    n1: nat,
    d1: nat,
    n2: nat,
    d2: nat,
)
    requires
        p >= 1,
        d1 > 0,
        d2 > 0,
        n1 * d2 <= n2 * d1,
    ensures
        crate::rounding::round_code(p, top, n1, d1) <= crate::rounding::round_code(p, top, n2, d2),
{
    let h = pow2((p - 1) as nat);
    let k1 = crate::rounding::binade(p, n1, d1);
    let k2 = crate::rounding::binade(p, n2, d2);
    let s1 = d1 * pow2(k1);
    let s2 = d2 * pow2(k2);
    lemma_binade_bounds(p, n1, d1);
    lemma_binade_bounds(p, n2, d2);
    lemma_pow2_pos(k1);
    lemma_pow2_pos(k2);
    lemma_pow2_pos((p - 1) as nat);
    lemma_pow2_unfold(p);
    assert(s1 > 0 && s2 > 0) by (nonlinear_arith)
        requires
            s1 == d1 * pow2(k1),
            s2 == d2 * pow2(k2),
            d1 > 0,
            d2 > 0,
            pow2(k1) > 0,
            pow2(k2) > 0,
    ;
    if k1 > k2 {
        // then n1 / d1 >= 2^(p + k1 - 1) >= 2^(p + k2) > n2 / d2
        let a = pow2((p + k1 - 1) as nat);
        let b = pow2(p + k2);
        crate::rounding::lemma_pow2_monotone(p + k2, (p + k1 - 1) as nat);
        assert(n1 * d2 > n2 * d1) by (nonlinear_arith)
            requires
                n1 >= d1 * a,
                n2 < d2 * b,
                a >= b,
                d1 > 0,
                d2 > 0,
        {
            assert(n1 * d2 >= (d1 * a) * d2);
            assert((d1 * a) * d2 >= (d1 * b) * d2);
            assert((d1 * b) * d2 == (d2 * b) * d1);
            assert((d2 * b) * d1 > n2 * d1);
        }
    }
    let m1 = crate::rounding::rne(n1, s1);
    let m2 = crate::rounding::rne(n2, s2);
    if k1 == k2 {
        assert(n1 * s2 <= n2 * s1) by (nonlinear_arith)
            requires
                n1 * d2 <= n2 * d1,
                s1 == d1 * pow2(k1),
                s2 == d2 * pow2(k1),
        {
            assert(n1 * s2 == (n1 * d2) * pow2(k1));
            assert(n2 * s1 == (n2 * d1) * pow2(k1));
        }
        lemma_rne_monotone(n1, s1, n2, s2);
    } else {
        // m1 is at most 2^p and m2 at least 2^(p - 1)
        lemma_pow2_adds(p, k1);
        assert(n1 < s1 * pow2(p)) by (nonlinear_arith)
            requires
                n1 < d1 * (pow2(p) * pow2(k1)),
                s1 == d1 * pow2(k1),
        ;
        assert(n1 * 1 <= pow2(p) * s1) by (nonlinear_arith)
            requires
                n1 < s1 * pow2(p),
        ;
        lemma_rne_monotone(n1, s1, pow2(p), 1);
        lemma_rne_whole(pow2(p));
        lemma_pow2_adds((p - 1) as nat, k2);
        assert(p + k2 - 1 == p - 1 + k2);
        assert(h * s2 <= n2 * 1) by (nonlinear_arith)
            requires
                n2 >= d2 * (h * pow2(k2)),
                s2 == d2 * pow2(k2),
        ;
        lemma_rne_monotone(h, 1, n2, s2);
        lemma_rne_whole(h);
        assert(k1 * h + 2 * h <= k2 * h + h) by (nonlinear_arith)
            requires
                k1 + 1 <= k2,
        ;
    }
}

proof fn lemma_rne_whole(n: nat)
    ensures
        crate::rounding::rne(n, 1) == n,
{
}

/// A magnitude that a code stands for is rounded to that code.
pub proof fn law_rounding_is_exact(p: nat, top: nat, code: nat)
    requires
        p >= 1,
        code <= top * pow2((p - 1) as nat),
    ensures
        crate::rounding::round_code(p, top, crate::rounding::code_mag(p, code), 1) == code,
{
    let h = pow2((p - 1) as nat);
    let k = if code < h {
        0
    } else {
        (code / h - 1) as nat
    };
    let sig = (code - k * h) as nat;
    lemma_pow2_pos((p - 1) as nat);
    lemma_pow2_pos(k);
    lemma_pow2_unfold(p);
    lemma2_to64();
    if code >= h {
        lemma_fundamental_div_mod(code as int, h as int);
        lemma_div_non_zero(code as int, h as int);
        assert(code - k * h == h + code % h) by (nonlinear_arith)
            requires
                code == h * (k + 1) + code % h,
        ;
    } else {
        assert(0 * h == 0);
    }
    let n = sig * pow2(k);
    lemma_pow2_adds(p, k);
    assert(n < 1 * pow2(p + k)) by (nonlinear_arith)
        requires
            n == sig * pow2(k),
            sig < pow2(p),
            pow2(p + k) == pow2(p) * pow2(k),
            pow2(k) > 0,
    ;
    if k > 0 {
        lemma_pow2_adds((p - 1) as nat, k);
        assert(p + k - 1 == p - 1 + k);
        assert(n >= 1 * pow2((p + k - 1) as nat)) by (nonlinear_arith)
            requires
                n == sig * pow2(k),
                sig >= h,
                pow2((p + k - 1) as nat) == h * pow2(k),
        ;
    }
    crate::rounding::lemma_binade_is(p, n, 1, k);
    assert(1 * pow2(k) == pow2(k));
    crate::rounding::lemma_rne_exact(sig, pow2(k));
}

/// Scaling numerator and denominator alike changes no rounded code.
pub proof fn law_rounding_ignores_scale(p: nat, top: nat, n: nat, d: nat, c: nat)
    requires
        p >= 1,
        d > 0,
        c > 0,
    ensures
        crate::rounding::round_code(p, top, n * c, d * c) == crate::rounding::round_code(
            p,
            top,
            n,
            d,
        ),
{
    assert(d * c > 0) by (nonlinear_arith)
        requires
            d > 0,
            c > 0,
    ;
    assert((n * c) * d == n * (d * c)) by (nonlinear_arith);
    law_rounding_is_monotone(p, top, n * c, d * c, n, d);
    law_rounding_is_monotone(p, top, n, d, n * c, d * c);
}

} // verus!
