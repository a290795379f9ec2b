//! IEEE 754 arithmetic over one binary format: every operation returns the
//! exact result rounded to the nearest number, ties to even.

use crate::rounding::{bit_len, round_unrounded, two_to, Unrounded};
use vstd::arithmetic::div_mod::*;
use vstd::arithmetic::mul::*;
use vstd::arithmetic::power2::*;
use vstd::prelude::*;

verus! {

broadcast use vstd::arithmetic::power2::lemma_pow2_pos;

/// A binary format: `p` bits of precision, infinity's code `top * 2^(p - 1)`,
/// and `2^-unit` as the least positive number.
#[derive(Clone, Copy)]
pub struct Format {
    pub p: u32,
    pub top: u32,
    pub unit: u32,
}

/// A number of a format: its sign and the code of its magnitude. Codes past
/// infinity's are not-a-number.
#[derive(Clone, Copy)]
pub struct Num {
    pub neg: bool,
    pub code: u64,
}

impl Format {
    /// One of the two formats in use: single or double precision.
    pub open spec fn wf(self) -> bool {
        ||| self.p == 24 && self.top == 255 && self.unit == 149
        ||| self.p == 53 && self.top == 2047 && self.unit == 1074
    }

    /// Half the number of codes per binade pair: `2^(p - 1)`.
    pub open spec fn half(self) -> nat {
        pow2((self.p - 1) as nat)
    }

    /// The code of infinity.
    pub open spec fn inf(self) -> nat {
        self.top as nat * self.half()
    }

    /// The code of the canonical not-a-number.
    pub open spec fn nan(self) -> nat {
        self.inf() + self.half() / 2
    }

    /// The magnitude of a finite number, in units.
    pub open spec fn mag(self, a: Num) -> nat {
        crate::rounding::code_mag(self.p as nat, a.code as nat)
    }

    /// The value of a finite number, in units.
    pub open spec fn value(self, a: Num) -> int {
        if a.neg {
            -(self.mag(a) as int)
        } else {
            self.mag(a) as int
        }
    }

    pub open spec fn is_nan(self, a: Num) -> bool {
        a.code > self.inf()
    }

    pub open spec fn is_inf(self, a: Num) -> bool {
        a.code == self.inf()
    }

    /// The code nearest to the magnitude `n / d`.
    pub open spec fn round(self, n: nat, d: nat) -> nat {
        crate::rounding::round_code(self.p as nat, self.top as nat, n, d)
    }

    pub open spec fn nan_num(self) -> Num {
        Num { neg: false, code: self.nan() as u64 }
    }

    pub open spec fn sum(self, a: Num, b: Num) -> Num {
        if self.is_nan(a) || self.is_nan(b) {
            self.nan_num()
        } else if self.is_inf(a) {
            if self.is_inf(b) && a.neg != b.neg {
                self.nan_num()
            } else {
                a
            }
        } else if self.is_inf(b) {
            b
        } else {
            let v = self.value(a) + self.value(b);
            if v == 0 {
                Num { neg: a.neg && b.neg, code: 0 }
            } else if v < 0 {
                Num { neg: true, code: self.round((-v) as nat, 1) as u64 }
            } else {
                Num { neg: false, code: self.round(v as nat, 1) as u64 }
            }
        }
    }

    pub open spec fn product(self, a: Num, b: Num) -> Num {
        let neg = a.neg != b.neg;
        if self.is_nan(a) || self.is_nan(b) {
            self.nan_num()
        } else if self.is_inf(a) || self.is_inf(b) {
            if a.code == 0 || b.code == 0 {
                self.nan_num()
            } else {
                Num { neg, code: self.inf() as u64 }
            }
        } else {
            Num { neg, code: self.round(self.mag(a) * self.mag(b), pow2(self.unit as nat)) as u64 }
        }
    }

    pub open spec fn quotient(self, a: Num, b: Num) -> Num {
        let neg = a.neg != b.neg;
        if self.is_nan(a) || self.is_nan(b) {
            self.nan_num()
        } else if self.is_inf(a) {
            if self.is_inf(b) {
                self.nan_num()
            } else {
                Num { neg, code: self.inf() as u64 }
            }
        } else if self.is_inf(b) {
            Num { neg, code: 0 }
        } else if b.code == 0 {
            if a.code == 0 {
                self.nan_num()
            } else {
                Num { neg, code: self.inf() as u64 }
            }
        } else {
            Num { neg, code: self.round(self.mag(a) * pow2(self.unit as nat), self.mag(b)) as u64 }
        }
    }

    /// The integer `x` as a number of the format.
    pub open spec fn integer(self, x: nat) -> nat {
        self.round(x * pow2(self.unit as nat), 1)
    }

    /// The code of the square root of the magnitude `m`. The exact root lies
    /// in `[r / 2, (r + 1) / 2)` units where `r` is the integer root of
    /// `4 * m * 2^unit`; no rounding boundary is strictly inside, so the middle
    /// of that interval rounds as the root itself does.
    pub open spec fn root(self, m: nat) -> nat {
        let wide = 4 * (m * pow2(self.unit as nat));
        let r = integer_root(wide);
        self.round(
            if r * r == wide {
                2 * r
            } else {
                2 * r + 1
            },
            4,
        )
    }

    pub open spec fn square_root(self, a: Num) -> Num {
        if a.code == 0 {
            a
        } else if self.is_nan(a) || a.neg {
            self.nan_num()
        } else if self.is_inf(a) {
            a
        } else {
            Num { neg: false, code: self.root(self.mag(a)) as u64 }
        }
    }

    /// A number of format `from` rounded to this one.
    pub open spec fn convert(self, from: Format, a: Num) -> Num {
        if from.is_nan(a) {
            self.nan_num()
        } else if from.is_inf(a) {
            Num { neg: a.neg, code: self.inf() as u64 }
        } else {
            Num {
                neg: a.neg,
                code: self.round(
                    from.mag(a) * pow2(self.unit as nat),
                    pow2(from.unit as nat),
                ) as u64,
            }
        }
    }

    /// The position of a number in the order of the format, zeros together.
    pub open spec fn rank(self, a: Num) -> int {
        if a.neg {
            -(a.code as int)
        } else {
            a.code as int
        }
    }
}

/// The largest `r` with `r * r <= n`.
pub open spec fn integer_root(n: nat) -> nat {
    choose|r: nat| #[trigger] (r * r) <= n < (r + 1) * (r + 1)
}

// ---------------------------------------------------------------------------
// Magnitudes

/// A finite code taken apart: the magnitude is `sig * 2^exp`.
pub(crate) struct Parts {
    pub(crate) sig: u64,
    pub(crate) exp: u32,
}

proof fn lemma_format_sizes(f: Format)
    requires
        f.wf(),
    ensures
        f.half() == if f.p == 24 { 0x80_0000nat } else { 0x10_0000_0000_0000nat },
        pow2(f.p as nat) == 2 * f.half(),
        f.inf() == if f.p == 24 { 0x7f80_0000nat } else { 0x7ff0_0000_0000_0000nat },
        f.nan() == if f.p == 24 { 0x7fc0_0000nat } else { 0x7ff8_0000_0000_0000nat },
{
    lemma2_to64();
    lemma2_to64_rest();
    lemma_pow2_unfold(f.p as nat);
}

fn half_of(f: Format) -> (h: u64)
    requires
        f.wf(),
    ensures
        h == f.half(),
{
    proof {
        lemma_format_sizes(f);
    }
    if f.p == 24 {
        0x80_0000
    } else {
        0x10_0000_0000_0000
    }
}

fn inf_of(f: Format) -> (c: u64)
    requires
        f.wf(),
    ensures
        c == f.inf(),
{
    proof {
        lemma_format_sizes(f);
    }
    f.top as u64 * half_of(f)
}

fn nan_of(f: Format) -> (n: Num)
    requires
        f.wf(),
    ensures
        n == f.nan_num(),
{
    proof {
        lemma_format_sizes(f);
    }
    Num { neg: false, code: inf_of(f) + half_of(f) / 2 }
}

pub(crate) fn take_apart(f: Format, a: Num) -> (r: Parts)
    requires
        f.wf(),
        a.code < f.inf(),
    ensures
        f.mag(a) == r.sig * pow2(r.exp as nat),
        r.sig < 2 * f.half(),
        r.exp > 0 ==> r.sig >= f.half(),
        r.exp < f.top,
        r.sig == 0 <==> a.code == 0,
        r.exp == if a.code < f.half() { 0 } else { a.code as int / f.half() as int - 1 },
{
    let h: u64 = half_of(f);
    proof {
        lemma_format_sizes(f);
    }
    if a.code < h {
        proof {
            lemma2_to64();
            assert(0 * f.half() == 0);
        }
        Parts { sig: a.code, exp: 0 }
    } else {
        let k: u64 = a.code / h - 1;
        proof {
            lemma_fundamental_div_mod(a.code as int, h as int);
            assert(k < f.top) by (nonlinear_arith)
                requires
                    a.code as int == h * (k + 1) + a.code as int % h as int,
                    a.code < f.top * h,
                    a.code as int % h as int >= 0,
            ;
            assert(h * (k + 1) == k * h + h) by (nonlinear_arith);
        }
        Parts { sig: a.code - k * h, exp: k as u32 }
    }
}

/// Magnitudes grow with their codes.
pub proof fn lemma_mag_ordered(f: Format, a: Num, b: Num)
    requires
        f.wf(),
        a.code < b.code < f.inf(),
    ensures
        f.mag(a) < f.mag(b),
    decreases b.code - a.code,
{
    let c = Num { neg: false, code: (b.code - 1) as u64 };
    if a.code < c.code {
        lemma_mag_ordered(f, a, c);
    }
    lemma_mag_step(f, c.code as nat);
}

/// In the first two binades a code is its own magnitude.
proof fn lemma_first_codes(f: Format, c: nat)
    requires
        f.wf(),
        c < 2 * f.half(),
    ensures
        crate::rounding::code_mag(f.p as nat, c) == c,
{
    let h = f.half();
    lemma_format_sizes(f);
    lemma2_to64();
    if c >= h {
        lemma_fundamental_div_mod_converse(c as int, h as int, 1, (c - h) as int);
    }
    assert((c - 0 * h) * pow2(0) == c) by (nonlinear_arith)
        requires
            pow2(0) == 1,
    ;
}

proof fn lemma_mag_step(f: Format, c: nat)
    requires
        f.wf(),
    ensures
        crate::rounding::code_mag(f.p as nat, c) < crate::rounding::code_mag(f.p as nat, c + 1),
{
    let h = f.half();
    let p = f.p as nat;
    lemma_format_sizes(f);
    if c < h {
        lemma_first_codes(f, c);
        lemma_first_codes(f, c + 1);
    } else {
        let k = (c / h - 1) as nat;
        lemma_fundamental_div_mod(c as int, h as int);
        let r = c % h;
        assert(c - k * h == h + r) by (nonlinear_arith)
            requires
                c == h * (k + 1) + r,
        ;
        if r + 1 < h {
            assert(c + 1 == (k + 1) * h + (r + 1)) by (nonlinear_arith)
                requires
                    c == h * (k + 1) + r,
            ;
            lemma_fundamental_div_mod_converse(
                (c + 1) as int,
                h as int,
                (k + 1) as int,
                (r + 1) as int,
            );
            assert(crate::rounding::code_mag(p, c) == (h + r) * pow2(k));
            assert(crate::rounding::code_mag(p, c + 1) == (h + r + 1) * pow2(k));
            assert((h + r) * pow2(k) < (h + r + 1) * pow2(k)) by (nonlinear_arith)
                requires
                    pow2(k) > 0,
            ;
        } else {
            assert(c + 1 == (k + 2) * h + 0) by (nonlinear_arith)
                requires
                    c == h * (k + 1) + r,
                    r + 1 == h,
            ;
            lemma_fundamental_div_mod_converse((c + 1) as int, h as int, (k + 2) as int, 0);
            lemma_pow2_unfold(k + 1);
            assert(c + 1 - (k + 1) * h == h) by (nonlinear_arith)
                requires
                    c + 1 == (k + 2) * h,
            ;
            assert(crate::rounding::code_mag(p, c) == (h + r) * pow2(k));
            assert(crate::rounding::code_mag(p, c + 1) == h * pow2(k + 1));
            assert((h + r) * pow2(k) < h * (2 * pow2(k))) by (nonlinear_arith)
                requires
                    r + 1 == h,
                    pow2(k) > 0,
            ;
        }
    }
}

/// The sum or the difference of two magnitudes, the first the larger code.
fn add_magnitudes(f: Format, a: Num, b: Num, subtract: bool) -> (code: u64)
    requires
        f.wf(),
        b.code <= a.code < f.inf(),
    ensures
        f.mag(b) <= f.mag(a),
        code == f.round(
            if subtract {
                (f.mag(a) - f.mag(b)) as nat
            } else {
                f.mag(a) + f.mag(b)
            },
            1,
        ),
        code <= f.inf(),
{
    let x = take_apart(f, a);
    let y = take_apart(f, b);
    let ghost n: nat = if subtract {
        (f.mag(a) - f.mag(b)) as nat
    } else {
        f.mag(a) + f.mag(b)
    };
    proof {
        lemma_format_sizes(f);
        lemma2_to64();
        if b.code < a.code {
            lemma_mag_ordered(f, b, a);
        }
        lemma_div_is_ordered(b.code as int, a.code as int, f.half() as int);
        assert(y.exp <= x.exp);
    }
    let diff: u32 = x.exp - y.exp;
    let ghost t = pow2(y.exp as nat);
    let u: Unrounded;
    if diff <= 64 {
        let lift: u128 = two_to(diff);
        proof {
            lemma_pow2_adds(diff as nat, y.exp as nat);
            crate::rounding::lemma_pow2_monotone(diff as nat, 64);
            lemma2_to64_rest();
            assert(x.sig * lift <= 0x20_0000_0000_0000 * 0x1_0000_0000_0000_0000)
                by (nonlinear_arith)
                requires
                    x.sig <= 0x20_0000_0000_0000,
                    lift <= 0x1_0000_0000_0000_0000,
            ;
            assert(x.sig * (lift * t) == (x.sig * lift) * t) by (nonlinear_arith);
            if subtract {
                assert(x.sig * lift >= y.sig) by (nonlinear_arith)
                    requires
                        (x.sig * lift) * t >= y.sig * t,
                        t > 0,
                ;
                assert((x.sig * lift - y.sig) * t == (x.sig * lift) * t - y.sig * t)
                    by (nonlinear_arith);
            } else {
                assert((x.sig * lift + y.sig) * t == (x.sig * lift) * t + y.sig * t)
                    by (nonlinear_arith);
            }
        }
        let wide: u128 = x.sig as u128 * lift;
        let sig: u128 = if subtract {
            wide - y.sig as u128
        } else {
            wide + y.sig as u128
        };
        u = Unrounded { sig, exp: y.exp as i32, sticky: false };
        proof {
            lemma_pow2_127();
            assert(u.sig * (1 * t) == n * 1);
            assert(n * 1 < (u.sig + 1) * (1 * t)) by (nonlinear_arith)
                requires
                    u.sig * (1 * t) == n * 1,
                    t > 0,
            ;
        }
    } else {
        let j: u32 = diff - 64;
        let q: u64;
        let sticky: bool;
        let ghost r: nat;
        let ghost jj = pow2(j as nat);
        if j >= 64 {
            q = 0;
            sticky = y.sig != 0;
            proof {
                r = y.sig as nat;
                crate::rounding::lemma_pow2_monotone(64, j as nat);
                lemma2_to64_rest();
                assert(0 * jj == 0);
            }
        } else {
            let step: u128 = two_to(j);
            q = (y.sig as u128 / step) as u64;
            sticky = y.sig as u128 % step != 0;
            proof {
                r = (y.sig as nat % step as nat);
                lemma_fundamental_div_mod(y.sig as int, step as int);
                lemma_div_nonincreasing(y.sig as int, step as int);
                assert(step * q == q * jj) by (nonlinear_arith)
                    requires
                        step == jj,
                ;
            }
        }
        assert(y.sig == q * jj + r && r < jj && (sticky <==> r != 0));
        assert(q <= y.sig) by (nonlinear_arith)
            requires
                y.sig == q * jj + r,
                jj >= 1,
        ;
        let wide: u128 = x.sig as u128 * 0x1_0000_0000_0000_0000;
        let sig: u128 = if subtract {
            wide - q as u128 - if sticky {
                1u128
            } else {
                0u128
            }
        } else {
            wide + q as u128
        };
        u = Unrounded { sig, exp: x.exp as i32 - 64, sticky };
        proof {
            lemma_pow2_127();
            lemma2_to64_rest();
            lemma_pow2_adds(y.exp as nat, j as nat);
            lemma_pow2_adds((x.exp - 64) as nat, 64);
            let up = pow2((x.exp - 64) as nat);
            assert(up == t * jj);
            assert(f.mag(a) == wide * up) by (nonlinear_arith)
                requires
                    f.mag(a) == x.sig * (up * 0x1_0000_0000_0000_0000),
                    wide == x.sig * 0x1_0000_0000_0000_0000,
            ;
            assert(f.mag(b) == q * up + r * t) by (nonlinear_arith)
                requires
                    f.mag(b) == y.sig * t,
                    y.sig == q * jj + r,
                    up == t * jj,
            ;
            assert(r * t < up) by (nonlinear_arith)
                requires
                    r < jj,
                    t > 0,
                    up == t * jj,
            ;
            assert(r == 0 <==> r * t == 0) by (nonlinear_arith)
                requires
                    t > 0,
            ;
            if subtract {
                if sticky {
                    assert((wide - q - 1) * up == wide * up - q * up - up) by (nonlinear_arith);
                    assert((wide - q - 1 + 1) * up == wide * up - q * up) by (nonlinear_arith);
                } else {
                    assert((wide - q - 0) * up == wide * up - q * up) by (nonlinear_arith);
                    assert((wide - q - 0 + 1) * up == wide * up - q * up + up) by (nonlinear_arith);
                }
            } else {
                assert((wide + q) * up == wide * up + q * up) by (nonlinear_arith);
                assert((wide + q + 1) * up == wide * up + q * up + up) by (nonlinear_arith);
            }
            assert(1 * up == up);
        }
    }
    round_unrounded(f.p, f.top, u, Ghost(n), Ghost(1))
}

proof fn lemma_pow2_127()
    ensures
        pow2(127) == 0x8000_0000_0000_0000_0000_0000_0000_0000,
        pow2(0) == 1,
{
    lemma_pow2_adds(63, 64);
    lemma2_to64();
    lemma2_to64_rest();
}

fn multiply_magnitudes(f: Format, a: Num, b: Num) -> (code: u64)
    requires
        f.wf(),
        a.code < f.inf(),
        b.code < f.inf(),
    ensures
        code == f.round(f.mag(a) * f.mag(b), pow2(f.unit as nat)),
        code <= f.inf(),
{
    let x = take_apart(f, a);
    let y = take_apart(f, b);
    let ghost n = f.mag(a) * f.mag(b);
    let ghost d = pow2(f.unit as nat);
    proof {
        lemma_format_sizes(f);
        lemma_pow2_127();
        assert(x.sig * y.sig <= 0x20_0000_0000_0000 * 0x20_0000_0000_0000) by (nonlinear_arith)
            requires
                x.sig <= 0x20_0000_0000_0000,
                y.sig <= 0x20_0000_0000_0000,
        ;
    }
    let sig: u128 = x.sig as u128 * y.sig as u128;
    let u = Unrounded { sig, exp: x.exp as i32 + y.exp as i32 - f.unit as i32, sticky: false };
    proof {
        let e = u.exp as int;
        let sd = crate::rounding::pos_part(-e);
        let su = crate::rounding::pos_part(e);
        lemma_pow2_adds(x.exp as nat, y.exp as nat);
        lemma_pow2_adds((x.exp + y.exp) as nat, sd);
        lemma_pow2_adds(f.unit as nat, su);
        assert(n * pow2(sd) == sig * (d * pow2(su))) by (nonlinear_arith)
            requires
                n == (x.sig * pow2(x.exp as nat)) * (y.sig * pow2(y.exp as nat)),
                sig == x.sig * y.sig,
                (pow2(x.exp as nat) * pow2(y.exp as nat)) * pow2(sd) == d * pow2(su),
        ;
        lemma_pow2_pos(f.unit as nat + su);
        assert(sig * (d * pow2(su)) < (sig + 1) * (d * pow2(su))) by (nonlinear_arith)
            requires
                d * pow2(su) > 0,
        ;
    }
    round_unrounded(f.p, f.top, u, Ghost(n), Ghost(d))
}

fn divide_magnitudes(f: Format, a: Num, b: Num) -> (code: u64)
    requires
        f.wf(),
        a.code < f.inf(),
        0 < b.code < f.inf(),
    ensures
        code == f.round(f.mag(a) * pow2(f.unit as nat), f.mag(b)),
        code <= f.inf(),
{
    let x = take_apart(f, a);
    let y = take_apart(f, b);
    let ghost n = f.mag(a) * pow2(f.unit as nat);
    let ghost d = f.mag(b);
    proof {
        lemma_format_sizes(f);
        lemma_pow2_127();
        assert(d > 0) by (nonlinear_arith)
            requires
                d == y.sig * pow2(y.exp as nat),
                y.sig > 0,
                pow2(y.exp as nat) > 0,
        ;
    }
    let len = bit_len(x.sig as u128);
    proof {
        if len > 64 {
            crate::rounding::lemma_pow2_monotone(64, (len - 1) as nat);
            lemma2_to64_rest();
        }
    }
    let s: u32 = 123 - len;
    let lift: u128 = two_to(s);
    proof {
        lemma_pow2_adds(len as nat, s as nat);
        lemma2_to64_rest();
        lemma2_to64();
        lemma_pow2_adds(63, 60);
        assert(x.sig * lift <= pow2(123)) by (nonlinear_arith)
            requires
                x.sig <= pow2(len as nat),
                pow2(len as nat) * lift == pow2(123),
                lift > 0,
        ;
    }
    let wide: u128 = x.sig as u128 * lift;
    let q: u128 = wide / y.sig as u128;
    let sticky: bool = wide % y.sig as u128 != 0;
    let u = Unrounded {
        sig: q,
        exp: x.exp as i32 + f.unit as i32 - y.exp as i32 - s as i32,
        sticky,
    };
    proof {
        let e = u.exp as int;
        let sd = crate::rounding::pos_part(-e);
        let su = crate::rounding::pos_part(e);
        let r = (wide % y.sig as u128) as int;
        lemma_fundamental_div_mod(wide as int, y.sig as int);
        lemma_div_nonincreasing(wide as int, y.sig as int);
        let ys = pow2(y.exp as nat + su);
        lemma_pow2_adds(y.exp as nat, su);
        lemma_pow2_adds(x.exp as nat, f.unit as nat);
        lemma_pow2_adds((x.exp + f.unit) as nat, sd);
        lemma_pow2_adds(s as nat, y.exp as nat + su);
        assert(x.exp + f.unit + sd == s + (y.exp + su));
        assert(n * pow2(sd) == wide * ys) by (nonlinear_arith)
            requires
                n == (x.sig * pow2(x.exp as nat)) * pow2(f.unit as nat),
                (pow2(x.exp as nat) * pow2(f.unit as nat)) * pow2(sd) == lift * ys,
                wide == x.sig * lift,
        ;
        assert(d * pow2(su) == y.sig * ys) by (nonlinear_arith)
            requires
                d == y.sig * pow2(y.exp as nat),
                ys == pow2(y.exp as nat) * pow2(su),
        ;
        lemma_pow2_pos(y.exp as nat + su);
        assert(wide * ys == q * (y.sig * ys) + r * ys) by (nonlinear_arith)
            requires
                wide == y.sig * q + r,
        ;
        assert(r * ys < y.sig * ys) by (nonlinear_arith)
            requires
                r < y.sig,
                ys > 0,
        ;
        assert((q + 1) * (y.sig * ys) == q * (y.sig * ys) + y.sig * ys) by (nonlinear_arith);
        assert(r == 0 <==> r * ys == 0) by (nonlinear_arith)
            requires
                ys > 0,
        ;
        if sticky {
            // a nonzero numerator has 123 digits, so the quotient keeps p + 1 of them
            assert(x.sig > 0) by (nonlinear_arith)
                requires
                    wide == x.sig * lift,
                    wide == y.sig * q + r,
                    q >= 0,
                    y.sig > 0,
                    r > 0,
            ;
            lemma_pow2_adds((len - 1) as nat, s as nat);
            lemma_pow2_adds(62, 60);
            assert(wide >= pow2(122)) by (nonlinear_arith)
                requires
                    wide == x.sig * lift,
                    x.sig >= pow2((len - 1) as nat),
                    pow2((len - 1) as nat) * lift == pow2(122),
                    lift > 0,
            ;
            assert(q >= 0x20_0000_0000_0000) by (nonlinear_arith)
                requires
                    wide == y.sig * q + r,
                    r < y.sig,
                    y.sig < 0x20_0000_0000_0000,
                    wide >= 0x400_0000_0000_0000_0000_0000_0000_0000,
            ;
        }
    }
    round_unrounded(f.p, f.top, u, Ghost(n), Ghost(d))
}

/// The code of a nonnegative integer.
fn integer_code(f: Format, x: u64) -> (code: u64)
    requires
        f.wf(),
    ensures
        code == f.integer(x as nat),
        code <= f.inf(),
{
    let u = Unrounded { sig: x as u128, exp: f.unit as i32, sticky: false };
    proof {
        lemma_pow2_127();
        let w = pow2(f.unit as nat);
        assert(x * (1 * w) < (x + 1) * (1 * w)) by (nonlinear_arith)
            requires
                w > 0,
        ;
        assert(x * (1 * w) == (x as nat * w) * 1) by (nonlinear_arith);
    }
    round_unrounded(f.p, f.top, u, Ghost(x as nat * pow2(f.unit as nat)), Ghost(1))
}

pub(crate) proof fn lemma_integer_root_exists(n: nat)
    ensures
        exists|r: nat| #[trigger] (r * r) <= n < (r + 1) * (r + 1),
    decreases n,
{
    if n == 0 {
        let r = 0nat;
        assert(r * r <= n < (r + 1) * (r + 1)) by (nonlinear_arith)
            requires
                r == 0,
                n == 0,
        ;
    } else {
        lemma_integer_root_exists((n - 1) as nat);
        let r = choose|r: nat| #[trigger] (r * r) <= n - 1 < (r + 1) * (r + 1);
        let t = r + 1;
        if n < (r + 1) * (r + 1) {
            assert(r * r <= n < (r + 1) * (r + 1));
        } else {
            assert(n < (t + 1) * (t + 1)) by (nonlinear_arith)
                requires
                    n <= (r + 1) * (r + 1),
                    t == r + 1,
            ;
            assert(t * t <= n);
        }
    }
}

/// The integer root of `x`, digit by digit from the top.
fn root_floor(x: u128) -> (r: u64)
    requires
        x < pow2(126),
    ensures
        r as nat * r as nat <= x < (r + 1) * (r + 1),
{
    let mut r: u128 = 0;
    let mut bit: u32 = 63;
    proof {
        lemma_pow2_adds(63, 63);
        lemma2_to64_rest();
    }
    while bit > 0
        invariant
            bit <= 63,
            r + pow2(bit as nat) <= pow2(63),
            pow2(63) == 0x8000_0000_0000_0000,
            r * r <= x < (r + pow2(bit as nat)) * (r + pow2(bit as nat)),
        decreases bit,
    {
        let step: u128 = two_to(bit - 1);
        proof {
            lemma_pow2_unfold(bit as nat);
        }
        let t: u128 = r + step;
        assert(t * t <= 0x8000_0000_0000_0000 * 0x8000_0000_0000_0000) by (nonlinear_arith)
            requires
                0 <= t <= 0x8000_0000_0000_0000,
        ;
        if t * t <= x {
            r = t;
        }
        bit = bit - 1;
    }
    proof {
        lemma2_to64();
    }
    r as u64
}

fn root_magnitude(f: Format, a: Num) -> (code: u64)
    requires
        f.wf(),
        0 < a.code < f.inf(),
    ensures
        code == f.root(f.mag(a)),
        code <= f.inf(),
{
    let x = take_apart(f, a);
    let ghost wide: nat = 4 * (f.mag(a) * pow2(f.unit as nat));
    let ghost root = integer_root(wide);
    let ghost n: nat = if root * root == wide {
        2 * root
    } else {
        2 * root + 1
    };
    proof {
        lemma_format_sizes(f);
        lemma_pow2_127();
    }
    let len = bit_len(x.sig as u128);
    proof {
        if len > 64 {
            crate::rounding::lemma_pow2_monotone(64, (len - 1) as nat);
            lemma2_to64_rest();
        }
    }
    let total: u32 = x.exp + f.unit;
    let s: u32 = if (total + 126 - len) % 2 == 0 {
        126 - len
    } else {
        125 - len
    };
    let lift: u128 = two_to(s);
    proof {
        lemma_pow2_adds(len as nat, s as nat);
        crate::rounding::lemma_pow2_monotone((len + s) as nat, 126);
        lemma_pow2_unfold(127);
        assert(x.sig * lift < pow2((len + s) as nat)) by (nonlinear_arith)
            requires
                x.sig < pow2(len as nat),
                pow2(len as nat) * lift == pow2((len + s) as nat),
                lift > 0,
        ;
    }
    let m: u128 = x.sig as u128 * lift;
    let r = root_floor(m);
    proof {
        assert(r as nat * r as nat <= 0xffff_ffff_ffff_ffff * 0xffff_ffff_ffff_ffff)
            by (nonlinear_arith)
            requires
                r <= 0xffff_ffff_ffff_ffff,
        ;
        // s is below total, both of the same parity
        assert(s <= total && (total - s) % 2 == 0);
    }
    let square: u128 = r as u128 * r as u128;
    let e: u32 = (total - s) / 2;
    let u = Unrounded { sig: r as u128, exp: e as i32, sticky: square != m };
    proof {
        let b = pow2((e + 1) as nat);
        lemma_pow2_unfold((e + 1) as nat);
        lemma_integer_root_exists(wide);
        // wide == m * b^2
        lemma_pow2_adds((e + 1) as nat, (e + 1) as nat);
        lemma_pow2_adds(x.exp as nat, f.unit as nat);
        lemma_pow2_adds(s as nat, (2 * e) as nat);
        lemma_pow2_unfold((2 * e + 2) as nat);
        lemma_pow2_unfold((2 * e + 1) as nat);
        assert(wide == m * (b * b)) by (nonlinear_arith)
            requires
                wide == 4 * ((x.sig * pow2(x.exp as nat)) * pow2(f.unit as nat)),
                pow2(x.exp as nat) * pow2(f.unit as nat) == lift * pow2((2 * e) as nat),
                b * b == 4 * pow2((2 * e) as nat),
                m == x.sig * lift,
        ;
        let rn = r as nat;
        assert((rn * b) * (rn * b) <= wide < ((rn + 1) * b) * ((rn + 1) * b)) by (nonlinear_arith)
            requires
                wide == m * (b * b),
                rn * rn <= m < (rn + 1) * (rn + 1),
                b > 0,
        {
            assert((rn * b) * (rn * b) == (rn * rn) * (b * b));
            assert(((rn + 1) * b) * ((rn + 1) * b) == ((rn + 1) * (rn + 1)) * (b * b));
            assert(b * b > 0);
        }
        let lo = rn * b;
        let hi = (rn + 1) * b;
        assert(lo <= root) by (nonlinear_arith)
            requires
                lo * lo <= wide < (root + 1) * (root + 1),
        ;
        assert(root < hi) by (nonlinear_arith)
            requires
                root * root <= wide < hi * hi,
        ;
        assert(rn * (4 * pow2(e as nat)) == 2 * lo) by (nonlinear_arith)
            requires
                lo == rn * b,
                b == 2 * pow2(e as nat),
        ;
        assert((rn + 1) * (4 * pow2(e as nat)) == 2 * hi) by (nonlinear_arith)
            requires
                hi == (rn + 1) * b,
                b == 2 * pow2(e as nat),
        ;
        if square == m {
            assert(lo * lo == wide) by (nonlinear_arith)
                requires
                    lo == rn * b,
                    wide == (rn * rn) * (b * b),
            ;
            assert(root == lo) by (nonlinear_arith)
                requires
                    lo * lo == wide,
                    lo <= root,
                    root * root <= wide,
            ;
        } else if n == 2 * lo {
            assert(m == rn * rn) by (nonlinear_arith)
                requires
                    lo == rn * b,
                    lo * lo == m * (b * b),
                    b > 0,
            {
                assert(lo * lo == (rn * rn) * (b * b));
                assert(b * b > 0);
            }
        }
        assert(u.sticky <==> n != 2 * lo);
        assert(crate::rounding::pos_part(u.exp as int) == e as nat);
        assert(crate::rounding::pos_part(-u.exp as int) == 0);
        assert(n * pow2(0) == n);
        assert(u.stands_for(n, 4));
        // the root keeps more digits than the format has
        lemma_pow2_adds((len - 1) as nat, s as nat);
        lemma_pow2_adds(62, 62);
        lemma2_to64_rest();
        crate::rounding::lemma_pow2_monotone(124, (len - 1 + s) as nat);
        assert(m >= pow2(124)) by (nonlinear_arith)
            requires
                m == x.sig * lift,
                x.sig >= pow2((len - 1) as nat),
                pow2((len - 1) as nat) * lift >= pow2(124),
                lift > 0,
        ;
        assert(r + 1 > 0x4000_0000_0000_0000) by (nonlinear_arith)
            requires
                m < (rn + 1) * (rn + 1),
                m >= 0x4000_0000_0000_0000 * 0x4000_0000_0000_0000,
                rn == r,
        ;
    }
    round_unrounded(f.p, f.top, u, Ghost(n), Ghost(4))
}

fn convert_magnitude(f: Format, from: Format, a: Num) -> (code: u64)
    requires
        f.wf(),
        from.wf(),
        a.code < from.inf(),
    ensures
        code == f.round(from.mag(a) * pow2(f.unit as nat), pow2(from.unit as nat)),
        code <= f.inf(),
{
    let x = take_apart(from, a);
    let ghost n = from.mag(a) * pow2(f.unit as nat);
    let ghost d = pow2(from.unit as nat);
    let u = Unrounded {
        sig: x.sig as u128,
        exp: x.exp as i32 + f.unit as i32 - from.unit as i32,
        sticky: false,
    };
    proof {
        lemma_pow2_127();
        let e = u.exp as int;
        let sd = crate::rounding::pos_part(-e);
        let su = crate::rounding::pos_part(e);
        lemma_pow2_adds(x.exp as nat, f.unit as nat);
        lemma_pow2_adds((x.exp + f.unit) as nat, sd);
        lemma_pow2_adds(from.unit as nat, su);
        assert(n * pow2(sd) == x.sig * (d * pow2(su))) by (nonlinear_arith)
            requires
                n == (x.sig * pow2(x.exp as nat)) * pow2(f.unit as nat),
                (pow2(x.exp as nat) * pow2(f.unit as nat)) * pow2(sd) == d * pow2(su),
        ;
        lemma_pow2_pos(from.unit as nat + su);
        assert(x.sig * (d * pow2(su)) < (x.sig + 1) * (d * pow2(su))) by (nonlinear_arith)
            requires
                d * pow2(su) > 0,
        ;
    }
    round_unrounded(f.p, f.top, u, Ghost(n), Ghost(d))
}

// ---------------------------------------------------------------------------
// Signed numbers

pub(crate) fn add_num(f: Format, a: Num, b: Num) -> (r: Num)
    requires
        f.wf(),
    ensures
        r == f.sum(a, b),
        r.code <= f.inf() || r == f.nan_num(),
{
    let inf = inf_of(f);
    if a.code > inf || b.code > inf {
        return nan_of(f);
    }
    if a.code == inf {
        if b.code == inf && a.neg != b.neg {
            return nan_of(f);
        }
        return a;
    }
    if b.code == inf {
        return b;
    }
    let a_larger: bool = a.code >= b.code;
    let big = if a_larger {
        a
    } else {
        b
    };
    let small = if a_larger {
        b
    } else {
        a
    };
    if a.neg == b.neg {
        if big.code == 0 {
            proof {
                lemma_mag_zero(f, a);
                lemma_mag_zero(f, b);
            }
            return Num { neg: a.neg, code: 0 };
        }
        let code = add_magnitudes(f, big, small, false);
        proof {
            lemma_mag_positive(f, big);
        }
        return Num { neg: a.neg, code };
    }
    if a.code == b.code {
        return Num { neg: false, code: 0 };
    }
    let code = add_magnitudes(f, big, small, true);
    proof {
        lemma_mag_ordered(f, small, big);
    }
    Num { neg: big.neg, code }
}

pub proof fn lemma_mag_zero(f: Format, a: Num)
    requires
        f.wf(),
        a.code == 0,
    ensures
        f.mag(a) == 0,
{
    lemma_format_sizes(f);
    lemma_first_codes(f, 0);
}

proof fn lemma_mag_positive(f: Format, a: Num)
    requires
        f.wf(),
        0 < a.code < f.inf(),
    ensures
        f.mag(a) > 0,
{
    let z = Num { neg: false, code: 0 };
    lemma_mag_zero(f, z);
    lemma_mag_ordered(f, z, a);
}

pub(crate) fn mul_num(f: Format, a: Num, b: Num) -> (r: Num)
    requires
        f.wf(),
    ensures
        r == f.product(a, b),
        r.code <= f.inf() || r == f.nan_num(),
{
    let inf = inf_of(f);
    let neg: bool = a.neg != b.neg;
    if a.code > inf || b.code > inf {
        return nan_of(f);
    }
    if a.code == inf || b.code == inf {
        if a.code == 0 || b.code == 0 {
            return nan_of(f);
        }
        return Num { neg, code: inf };
    }
    let code = multiply_magnitudes(f, a, b);
    Num { neg, code }
}

pub(crate) fn div_num(f: Format, a: Num, b: Num) -> (r: Num)
    requires
        f.wf(),
    ensures
        r == f.quotient(a, b),
        r.code <= f.inf() || r == f.nan_num(),
{
    let inf = inf_of(f);
    let neg: bool = a.neg != b.neg;
    proof {
        lemma_format_sizes(f);
    }
    if a.code > inf || b.code > inf {
        return nan_of(f);
    }
    if a.code == inf {
        if b.code == inf {
            return nan_of(f);
        }
        return Num { neg, code: inf };
    }
    if b.code == inf {
        return Num { neg, code: 0 };
    }
    if b.code == 0 {
        if a.code == 0 {
            return nan_of(f);
        }
        return Num { neg, code: inf };
    }
    let code = divide_magnitudes(f, a, b);
    Num { neg, code }
}

pub(crate) fn sqrt_num(f: Format, a: Num) -> (r: Num)
    requires
        f.wf(),
    ensures
        r == f.square_root(a),
        r.code <= f.inf() || r == f.nan_num(),
{
    let inf = inf_of(f);
    proof {
        lemma_format_sizes(f);
    }
    if a.code == 0 {
        return a;
    }
    if a.code > inf || a.neg {
        return nan_of(f);
    }
    if a.code == inf {
        return a;
    }
    let code = root_magnitude(f, a);
    Num { neg: false, code }
}

pub(crate) fn convert_num(f: Format, from: Format, a: Num) -> (r: Num)
    requires
        f.wf(),
        from.wf(),
    ensures
        r == f.convert(from, a),
        r.code <= f.inf() || r == f.nan_num(),
{
    let from_inf = inf_of(from);
    if a.code > from_inf {
        return nan_of(f);
    }
    if a.code == from_inf {
        return Num { neg: a.neg, code: inf_of(f) };
    }
    let code = convert_magnitude(f, from, a);
    Num { neg: a.neg, code }
}

pub(crate) fn integer_num(f: Format, x: u64) -> (r: Num)
    requires
        f.wf(),
    ensures
        r.neg == false,
        r.code == f.integer(x as nat),
        r.code <= f.inf(),
{
    Num { neg: false, code: integer_code(f, x) }
}

} // verus!
