//! Rounding an exact nonnegative rational to a binary floating-point format.
//!
//! A format has `p` bits of precision. Its nonnegative numbers are coded by
//! consecutive integers: code 0 is zero, code 1 the least positive number (the
//! *unit* in which magnitudes are counted), and so on up to the code of
//! infinity. [`code_mag`] gives the magnitude of a code, [`round_code`] the
//! code nearest to a rational magnitude, ties going to the even code.

use vstd::arithmetic::div_mod::*;
use vstd::arithmetic::mul::*;
use vstd::arithmetic::power2::*;
use vstd::prelude::*;

verus! {

/// The quotient `n / d` rounded to the nearest integer, ties to even.
pub open spec fn rne(n: nat, d: nat) -> nat {
    let q = n / d;
    let r = n % d;
    if 2 * r > d || (2 * r == d && q % 2 == 1) {
        q + 1
    } else {
        q
    }
}

/// The least `k` with `n / d < 2^(p + k)`: the binade in which the magnitude
/// `n / d` is rounded to a multiple of `2^k` units.
pub open spec fn binade(p: nat, n: nat, d: nat) -> nat
    decreases n - d,
{
    if p == 0 || d == 0 || n < d * pow2(p) {
        0
    } else {
        proof {
            lemma_pow2_unfold(p);
            lemma_pow2_pos((p - 1) as nat);
            assert(d * pow2(p) >= d * 2) by (nonlinear_arith)
                requires
                    pow2(p) >= 2,
            ;
        }
        1 + binade(p, n, 2 * d)
    }
}

/// The magnitude in units of the number with a finite code.
pub open spec fn code_mag(p: nat, code: nat) -> nat {
    let h = pow2((p - 1) as nat);
    let k = if code < h {
        0
    } else {
        (code / h - 1) as nat
    };
    ((code - k * h) * pow2(k)) as nat
}

/// The code nearest to the magnitude `n / d`, ties to even; magnitudes past
/// the largest finite number go to the code of infinity, `top * 2^(p - 1)`.
pub open spec fn round_code(p: nat, top: nat, n: nat, d: nat) -> nat {
    let h = pow2((p - 1) as nat);
    let k = binade(p, n, d);
    let code = k * h + rne(n, d * pow2(k));
    if code > top * h {
        top * h
    } else {
        code
    }
}

/// An exact magnitude ahead of rounding: `(sig + f) * 2^exp` units with
/// `0 <= f < 1`, where `f` is positive exactly when `sticky` is set.
pub struct Unrounded {
    pub sig: u128,
    pub exp: i32,
    pub sticky: bool,
}

pub open spec fn pos_part(e: int) -> nat {
    if e > 0 {
        e as nat
    } else {
        0
    }
}

impl Unrounded {
    /// The magnitude is the rational `n / d`.
    pub open spec fn stands_for(self, n: nat, d: nat) -> bool {
        let up = pow2(pos_part(self.exp as int));
        let down = pow2(pos_part(-self.exp as int));
        &&& d > 0
        &&& self.sig * (d * up) <= n * down < (self.sig + 1) * (d * up)
        &&& self.sticky <==> self.sig * (d * up) != n * down
    }
}

pub proof fn lemma_binade_is(p: nat, n: nat, d: nat, k: nat)
    requires
        p >= 1,
        d > 0,
        n < d * pow2(p + k),
        k > 0 ==> n >= d * pow2((p + k - 1) as nat),
    ensures
        binade(p, n, d) == k,
    decreases k,
{
    lemma_pow2_pos(p);
    if k == 0 {
    } else {
        let j = (k - 1) as nat;
        lemma_pow2_unfold(p + k);
        assert(d * (2 * pow2(p + j)) == (2 * d) * pow2(p + j)) by (nonlinear_arith);
        assert(p + k - 1 == p + j);
        if j > 0 {
            lemma_pow2_unfold(p + j);
            assert(d * (2 * pow2((p + j - 1) as nat)) == (2 * d) * pow2((p + j - 1) as nat))
                by (nonlinear_arith);
        }
        lemma_binade_is(p, n, 2 * d, j);
        // n is at least d * 2^(p + j), hence at least d * 2^p
        lemma_pow2_monotone(p, p + j);
        assert(d * pow2(p + j) >= d * pow2(p)) by (nonlinear_arith)
            requires
                pow2(p + j) >= pow2(p),
        ;
    }
}

pub proof fn lemma_pow2_monotone(a: nat, b: nat)
    requires
        a <= b,
    ensures
        pow2(a) <= pow2(b),
{
    if a < b {
        lemma_pow2_strictly_increases(a, b);
    }
}

/// Scaling numerator and denominator alike changes no rounded quotient.
pub proof fn lemma_rne_scale(n: nat, d: nat, c: nat)
    requires
        d > 0,
        c > 0,
    ensures
        rne(n * c, d * c) == rne(n, d),
{
    let q = n / d;
    let r = n % d;
    lemma_fundamental_div_mod(n as int, d as int);
    assert(n * c == q * (d * c) + r * c) by (nonlinear_arith)
        requires
            n == d * q + r,
    ;
    assert(0 <= r * c < d * c) by (nonlinear_arith)
        requires
            0 <= r < d,
            c > 0,
    ;
    assert(d * c > 0) by (nonlinear_arith)
        requires
            d > 0,
            c > 0,
    ;
    lemma_fundamental_div_mod_converse((n * c) as int, (d * c) as int, q as int, (r * c) as int);
    assert((2 * r > d) <==> 2 * (r * c) > d * c) by (nonlinear_arith)
        requires
            c > 0,
    ;
    assert((2 * r == d) <==> 2 * (r * c) == d * c) by (nonlinear_arith)
        requires
            c > 0,
    ;
}

/// Rounding `n / (x * w)` needs of `n / x` only its floor `s` and whether
/// something was cut off: with `w` even, the low part of `s` decides.
proof fn lemma_rne_from_floor(n: nat, x: nat, w: nat, half: nat, s: nat)
    requires
        x > 0,
        w == 2 * half,
        half > 0,
        s * x <= n < (s + 1) * x,
    ensures
        rne(n, x * w) == s / w + (if s % w > half || (s % w == half && (n != s * x || (s / w) % 2
            == 1)) {
            1nat
        } else {
            0nat
        }),
{
    let q = s / w;
    let r = s % w;
    let rho = (n - s * x) as nat;
    lemma_fundamental_div_mod(s as int, w as int);
    assert(n == q * (x * w) + (r * x + rho)) by (nonlinear_arith)
        requires
            s == w * q + r,
            n == s * x + rho,
    ;
    assert(rho < x) by (nonlinear_arith)
        requires
            n == s * x + rho,
            n < (s + 1) * x,
    ;
    assert(r * x + rho < x * w) by (nonlinear_arith)
        requires
            r < w,
            rho < x,
    ;
    lemma_fundamental_div_mod_converse(
        n as int,
        (x * w) as int,
        q as int,
        (r * x + rho) as int,
    );
    assert(x * w == 2 * (half * x)) by (nonlinear_arith)
        requires
            w == 2 * half,
    ;
    if r > half {
        assert(r * x >= half * x + x) by (nonlinear_arith)
            requires
                r >= half + 1,
        ;
    } else if r < half {
        assert(r * x + x <= half * x) by (nonlinear_arith)
            requires
                r + 1 <= half,
        ;
    }
}

pub proof fn lemma_rne_exact(m: nat, d: nat)
    requires
        d > 0,
    ensures
        rne(m * d, d) == m,
{
    lemma_fundamental_div_mod_converse((m * d) as int, d as int, m as int, 0);
}

/// `2^k` as a machine integer.
pub fn two_to(k: u32) -> (r: u128)
    requires
        k < 128,
    ensures
        r == pow2(k as nat),
        r > 0,
{
    let mut r: u128 = 1;
    let mut i: u32 = 0;
    proof {
        lemma2_to64();
    }
    while i < k
        invariant
            i <= k < 128,
            r == pow2(i as nat),
            r > 0,
        decreases k - i,
    {
        proof {
            lemma_pow2_unfold((i + 1) as nat);
            lemma_pow2_fits_u128((i + 1) as nat);
        }
        r = r * 2;
        i = i + 1;
    }
    r
}

pub proof fn lemma_pow2_fits_u128(k: nat)
    requires
        k < 128,
    ensures
        pow2(k) <= u128::MAX,
{
    lemma_pow2_monotone(k, 127);
    lemma_pow2_adds(63, 64);
    lemma2_to64();
    lemma2_to64_rest();
}

/// The number of binary digits of `x`.
pub fn bit_len(x: u128) -> (len: u32)
    ensures
        len <= 128,
        x < pow2(len as nat),
        x > 0 ==> len > 0 && x >= pow2((len - 1) as nat),
        x == 0 ==> len == 0,
{
    let mut len: u32 = 0;
    let mut rest: u128 = x;
    proof {
        lemma2_to64();
    }
    while rest > 0
        invariant
            len <= 128,
            rest * pow2(len as nat) <= x < (rest + 1) * pow2(len as nat),
            rest == 0 && x > 0 ==> len > 0 && x >= pow2((len - 1) as nat),
            x == 0 ==> len == 0,
        decreases rest,
    {
        let ghost before = rest;
        let ghost unit = pow2(len as nat);
        proof {
            if len == 128 {
                lemma_pow2_adds(64, 64);
                lemma2_to64_rest();
                lemma2_to64();
                assert(rest * pow2(128) >= pow2(128)) by (nonlinear_arith)
                    requires
                        rest >= 1,
                ;
                assert(pow2(64) * pow2(64) == 0x1_0000_0000_0000_0000int
                    * 0x1_0000_0000_0000_0000int);
            }
            lemma_pow2_unfold((len + 1) as nat);
            assert((before / 2) * (2 * unit) <= before * unit) by (nonlinear_arith)
                requires
                    2 * (before / 2) <= before,
            ;
            assert((before + 1) * unit <= (before / 2 + 1) * (2 * unit)) by (nonlinear_arith)
                requires
                    before + 1 <= 2 * (before / 2 + 1),
            ;
            assert(before * unit >= unit) by (nonlinear_arith)
                requires
                    before >= 1,
            ;
            lemma_pow2_pos(len as nat);
        }
        rest = rest / 2;
        len = len + 1;
    }
    assert((rest + 1) * pow2(len as nat) == pow2(len as nat)) by (nonlinear_arith)
        requires
            rest == 0,
    ;
    len
}

/// Rounds an exact magnitude to a code. The ghost arguments name the rational
/// that `u` stands for.
pub(crate) fn round_unrounded(
    p: u32,
    top: u32,
    u: Unrounded,
    Ghost(n): Ghost<nat>,
    Ghost(d): Ghost<nat>,
) -> (code: u64)
    requires
        2 <= p <= 53,
        0 < top <= 2047,
        -4000 <= u.exp <= 4000,
        u.stands_for(n, d),
        u.sig < pow2(127),
        u.sticky ==> u.sig >= pow2(p as nat),
    ensures
        code == round_code(p as nat, top as nat, n, d),
        code <= top * pow2((p - 1) as nat),
{
    let ghost pn = p as nat;
    let ghost e = u.exp as int;
    let ghost down = pow2(pos_part(-e));
    let ghost up = pow2(pos_part(e));
    let ghost x = (d * up) as nat;
    let len = bit_len(u.sig);
    let h: u64 = two_to(p - 1) as u64;
    proof {
        lemma_pow2_pos(pos_part(-e));
        lemma_pow2_pos(pos_part(e));
        lemma_pow2_pos(pn);
        lemma2_to64_rest();
        lemma2_to64();
        lemma_pow2_monotone((p - 1) as nat, 52);
        assert(d * up > 0) by (nonlinear_arith)
            requires
                d > 0,
                up > 0,
        ;
        assert(top * h <= 2047 * h) by (nonlinear_arith)
            requires
                top <= 2047,
        ;
    }
    if u.sig == 0 {
        proof {
            assert(0 * (d * up) == 0) by (nonlinear_arith);
            assert(n * down == 0);
            assert(n == 0) by (nonlinear_arith)
                requires
                    n * down == 0,
                    down > 0,
            ;
            assert(d * pow2(pn) > 0) by (nonlinear_arith)
                requires
                    d > 0,
                    pow2(pn) > 0,
            ;
            assert(binade(pn, n, d) == 0);
            lemma2_to64();
            lemma_rne_exact(0, d);
            assert(d * pow2(0) == d);
        }
        return 0;
    }
    let raw: i32 = len as i32 + u.exp - p as i32;
    let k: u32 = if raw > 0 {
        raw as u32
    } else {
        0
    };
    proof {
        lemma_round_binade(pn, u, n, d, len as nat, k as nat);
    }
    if k >= top {
        proof {
            assert(k * h >= top * h) by (nonlinear_arith)
                requires
                    k >= top,
            ;
        }
        return top as u64 * h;
    }
    let shift: i32 = k as i32 - u.exp;
    let m: u64;
    if shift > 0 {
        if shift >= 128 {
            // the magnitude lies under half of the rounding step
            proof {
                let w = pow2(shift as nat);
                let half = pow2((shift - 1) as nat);
                lemma_pow2_unfold(shift as nat);
                lemma_pow2_pos((shift - 1) as nat);
                lemma_round_scaled(u, n, d, k as nat, shift as nat);
                lemma_rne_from_floor((n * down) as nat, x, w, half, u.sig as nat);
                lemma_pow2_monotone(len as nat, shift as nat);
                lemma_small_div(u.sig, w);
                lemma_pow2_monotone(127, (shift - 1) as nat);
            }
            m = 0;
        } else {
            let w: u128 = two_to(shift as u32);
            let half: u128 = two_to((shift - 1) as u32);
            let q: u128 = u.sig / w;
            let r: u128 = u.sig % w;
            proof {
                lemma_pow2_unfold(shift as nat);
                lemma_round_scaled(u, n, d, k as nat, shift as nat);
                lemma_rne_from_floor((n * down) as nat, x, w as nat, half as nat, u.sig as nat);
                // q <= 2^p since len - shift <= p
                assert(q <= pow2(pn)) by {
                    if len as int > shift {
                        lemma_pow2_adds(shift as nat, (len - shift) as nat);
                        lemma_pow2_monotone((len - shift) as nat, pn);
                        lemma_quotient_below(u.sig as nat, w as nat, pow2((len - shift) as nat));
                    } else {
                        lemma_pow2_monotone(len as nat, shift as nat);
                        lemma_small_div(u.sig, w as nat);
                    }
                }
                lemma_pow2_monotone(pn, 53);
            }
            let round_up: bool = r > half || (r == half && (u.sticky || q % 2 == 1));
            m = if round_up {
                q as u64 + 1
            } else {
                q as u64
            };
        }
    } else {
        proof {
            if u.sticky {
                // then len > p, so the shift is positive
                if len <= p {
                    lemma_pow2_monotone(len as nat, pn);
                }
                assert(false);
            }
            lemma_round_exact(u, n, d, k as nat, (-shift) as nat);
            // k == 0 would do for a negative shift; len + (-shift) <= p bounds the product
            lemma_pow2_adds(len as nat, (-shift) as nat);
            lemma_pow2_monotone((len - shift) as nat, pn);
            lemma_pow2_monotone(pn, 53);
            lemma_pow2_pos((-shift) as nat);
            assert(u.sig * pow2((-shift) as nat) <= pow2(len as nat) * pow2((-shift) as nat))
                by (nonlinear_arith)
                requires
                    u.sig <= pow2(len as nat),
            ;
            assert(u.sig <= u.sig * pow2((-shift) as nat)) by (nonlinear_arith)
                requires
                    pow2((-shift) as nat) >= 1,
            ;
        }
        m = (u.sig * two_to((-shift) as u32)) as u64;
    }
    proof {
        assert(m <= pow2(pn) + 1);
        lemma_pow2_monotone(pn, 53);
        assert(k * h <= 2046 * h) by (nonlinear_arith)
            requires
                k <= 2046,
        ;
    }
    let code: u64 = k as u64 * h + m;
    let inf: u64 = top as u64 * h;
    if code > inf {
        inf
    } else {
        code
    }
}

proof fn lemma_small_div(s: u128, w: nat)
    requires
        s < w,
    ensures
        s as nat / w == 0,
        s as nat % w == s,
{
    lemma_fundamental_div_mod_converse(s as int, w as int, 0, s as int);
}

proof fn lemma_quotient_below(s: nat, w: nat, b: nat)
    requires
        w > 0,
        s < w * b,
    ensures
        s / w <= b,
{
    lemma_fundamental_div_mod(s as int, w as int);
    assert(s / w <= b) by (nonlinear_arith)
        requires
            w > 0,
            s == w * (s / w) + s % w,
            s % w >= 0,
            s < w * b,
    ;
}

/// The binade of a magnitude given by its leading digits.
proof fn lemma_round_binade(p: nat, u: Unrounded, n: nat, d: nat, len: nat, k: nat)
    requires
        p >= 1,
        u.stands_for(n, d),
        u.sig > 0,
        len > 0,
        pow2((len - 1) as nat) <= u.sig < pow2(len),
        k == pos_part(len + u.exp - p),
    ensures
        binade(p, n, d) == k,
{
    let e = u.exp as int;
    let sd = pos_part(-e);
    let su = pos_part(e);
    let down = pow2(sd);
    let up = pow2(su);
    lemma_pow2_pos(sd);
    lemma_pow2_pos(su);
    // upper bound
    lemma_pow2_adds(p + k, sd);
    lemma_pow2_adds(len, su);
    lemma_pow2_monotone(len + su, p + k + sd);
    assert(n < d * pow2(p + k)) by (nonlinear_arith)
        requires
            n * down < (u.sig + 1) * (d * up),
            u.sig + 1 <= pow2(len),
            pow2(len) * up <= pow2(p + k) * down,
            down > 0,
            d > 0,
            up > 0,
    {
        assert((u.sig + 1) * (d * up) <= pow2(len) * (d * up));
        assert(pow2(len) * (d * up) == d * (pow2(len) * up));
        assert(d * (pow2(len) * up) <= d * (pow2(p + k) * down));
        assert(d * (pow2(p + k) * down) == (d * pow2(p + k)) * down);
    }
    if k > 0 {
        let a = (p + k - 1) as nat;
        lemma_pow2_adds(a, sd);
        lemma_pow2_adds((len - 1) as nat, su);
        assert(a + sd == len - 1 + su);
        assert(n >= d * pow2(a)) by (nonlinear_arith)
            requires
                u.sig * (d * up) <= n * down,
                u.sig >= pow2((len - 1) as nat),
                pow2((len - 1) as nat) * up == pow2(a) * down,
                down > 0,
                d > 0,
                up > 0,
        {
            assert(pow2((len - 1) as nat) * (d * up) <= u.sig * (d * up));
            assert(pow2((len - 1) as nat) * (d * up) == d * (pow2((len - 1) as nat) * up));
            assert(d * (pow2(a) * down) == (d * pow2(a)) * down);
        }
    }
    lemma_binade_is(p, n, d, k);
}

/// Rounding to a multiple of `2^k`, rewritten over the scaled numerator.
proof fn lemma_round_scaled(u: Unrounded, n: nat, d: nat, k: nat, shift: nat)
    requires
        u.stands_for(n, d),
        shift == k - u.exp,
    ensures
        ({
            let up = pow2(pos_part(u.exp as int));
            let down = pow2(pos_part(-u.exp as int));
            rne(n, d * pow2(k)) == rne((n * down) as nat, (d * up) * pow2(shift))
        }),
{
    let e = u.exp as int;
    let sd = pos_part(-e);
    let su = pos_part(e);
    lemma_pow2_pos(sd);
    lemma_pow2_pos(k);
    lemma_pow2_adds(k, sd);
    lemma_pow2_adds(su, shift);
    assert(k + sd == su + shift);
    assert(d * pow2(k) > 0) by (nonlinear_arith)
        requires
            d > 0,
            pow2(k) > 0,
    ;
    lemma_rne_scale(n, d * pow2(k), pow2(sd));
    assert((d * pow2(k)) * pow2(sd) == (d * pow2(su)) * pow2(shift)) by (nonlinear_arith)
        requires
            pow2(k) * pow2(sd) == pow2(su) * pow2(shift),
    ;
}

/// A magnitude that is a multiple of `2^k` needs no rounding.
proof fn lemma_round_exact(u: Unrounded, n: nat, d: nat, k: nat, lift: nat)
    requires
        u.stands_for(n, d),
        !u.sticky,
        lift == u.exp - k,
    ensures
        rne(n, d * pow2(k)) == u.sig * pow2(lift),
{
    let e = u.exp as int;
    let sd = pos_part(-e);
    let su = pos_part(e);
    assert(sd == 0);
    lemma2_to64();
    lemma_pow2_adds(k, lift);
    lemma_pow2_pos(k);
    assert(n == (u.sig * pow2(lift)) * (d * pow2(k))) by (nonlinear_arith)
        requires
            u.sig * (d * pow2(su)) == n * 1,
            pow2(su) == pow2(k) * pow2(lift),
    ;
    assert(d * pow2(k) > 0) by (nonlinear_arith)
        requires
            d > 0,
            pow2(k) > 0,
    ;
    lemma_rne_exact((u.sig * pow2(lift)) as nat, d * pow2(k));
}

} // verus!
