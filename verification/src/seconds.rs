//! Seconds in floating point as spans of time, and numbers as integers.

use crate::double::{double_format, Double};
use crate::ieee::{take_apart, Format, Num};
use crate::rounding::two_to;
use crate::single::{single_format, Single};
use crate::time::{Span, NANOS_PER_SEC};
use vstd::arithmetic::div_mod::*;
use vstd::arithmetic::mul::*;
use vstd::arithmetic::power2::*;
use vstd::prelude::*;

verus! {

/// A number of seconds in nanoseconds, rounded to the nearest, ties to even.
pub open spec fn nearest_nanos(f: Format, a: Num) -> nat {
    crate::rounding::rne(f.mag(a) * NANOS_PER_SEC as nat, pow2(f.unit as nat))
}

/// The nanoseconds that do not fit a span any more.
pub open spec fn span_limit() -> nat {
    (u64::MAX + 1) as nat * NANOS_PER_SEC as nat
}

/// A number of seconds as a span: rounded to the nearest nanosecond, ties to
/// even. Negative numbers, numbers that are not finite and numbers past the
/// longest span have none.
pub open spec fn span_of(f: Format, a: Num) -> Option<Span> {
    if a.code >= f.inf() || (a.neg && a.code > 0) || nearest_nanos(f, a) >= span_limit() {
        None
    } else {
        Some(
            Span {
                secs: (nearest_nanos(f, a) / NANOS_PER_SEC as nat) as u64,
                nanos: (nearest_nanos(f, a) % NANOS_PER_SEC as nat) as u32,
            },
        )
    }
}

proof fn lemma_sizes(f: Format)
    requires
        f.wf(),
    ensures
        2 * f.half() <= 0x20_0000_0000_0000,
        f.half() > 0,
        f.inf() == if f.p == 24 {
            0x7f80_0000nat
        } else {
            0x7ff0_0000_0000_0000nat
        },
{
    lemma2_to64();
    lemma2_to64_rest();
}

fn nanos_of(f: Format, a: Num) -> (r: Option<u128>)
    requires
        f.wf(),
        a.code < f.inf(),
    ensures
        r is None ==> nearest_nanos(f, a) >= span_limit(),
        r matches Some(n) ==> n == nearest_nanos(f, a),
{
    let parts = take_apart(f, a);
    let sig: u128 = parts.sig as u128;
    let billion: u128 = NANOS_PER_SEC as u128;
    let ghost mag = f.mag(a);
    proof {
        lemma_sizes(f);
        lemma_pow2_pos(parts.exp as nat);
        lemma_pow2_pos(f.unit as nat);
        assert(sig * billion < 0x20_0000_0000_0000 * 1_000_000_000) by (nonlinear_arith)
            requires
                sig < 0x20_0000_0000_0000,
                billion == 1_000_000_000,
        ;
    }
    if parts.exp >= f.unit {
        let k: u32 = parts.exp - f.unit;
        proof {
            lemma_pow2_adds(k as nat, f.unit as nat);
            lemma_pow2_pos(k as nat);
            let whole = sig * pow2(k as nat);
            assert(mag * billion == (whole * billion) * pow2(f.unit as nat)) by (nonlinear_arith)
                requires
                    mag == sig * pow2(parts.exp as nat),
                    whole == sig * pow2(k as nat),
                    pow2(parts.exp as nat) == pow2(k as nat) * pow2(f.unit as nat),
            ;
            assert(whole * billion >= 0) by (nonlinear_arith)
                requires
                    whole >= 0,
                    billion >= 0,
            ;
            crate::rounding::lemma_rne_exact((whole * billion) as nat, pow2(f.unit as nat));
            assert(nearest_nanos(f, a) == whole * billion);
        }
        if k >= 64 {
            if sig == 0 {
                return Some(0);
            }
            proof {
                crate::rounding::lemma_pow2_monotone(64, k as nat);
                lemma2_to64_rest();
                assert(sig * pow2(k as nat) * billion >= 0x1_0000_0000_0000_0000
                    * 1_000_000_000) by (nonlinear_arith)
                    requires
                        sig >= 1,
                        pow2(k as nat) >= 0x1_0000_0000_0000_0000,
                        billion == 1_000_000_000,
                ;
            }
            return None;
        }
        let scale: u128 = two_to(k);
        proof {
            crate::rounding::lemma_pow2_monotone(k as nat, 63);
            lemma2_to64_rest();
            assert(sig * scale < 0x20_0000_0000_0000 * 0x8000_0000_0000_0001)
                by (nonlinear_arith)
                requires
                    sig < 0x20_0000_0000_0000,
                    0 < scale <= 0x8000_0000_0000_0000,
            ;
        }
        let whole: u128 = sig * scale;
        if whole > u64::MAX as u128 {
            proof {
                assert(whole * billion >= 0x1_0000_0000_0000_0000 * 1_000_000_000)
                    by (nonlinear_arith)
                    requires
                        whole >= 0x1_0000_0000_0000_0000,
                        billion == 1_000_000_000,
                ;
            }
            return None;
        }
        proof {
            assert(whole * billion <= 0xffff_ffff_ffff_ffff * 1_000_000_000) by (nonlinear_arith)
                requires
                    whole <= 0xffff_ffff_ffff_ffff,
                    billion == 1_000_000_000,
            ;
        }
        Some(whole * billion)
    } else {
        let s: u32 = f.unit - parts.exp;
        let n: u128 = sig * billion;
        proof {
            lemma_pow2_adds(s as nat, parts.exp as nat);
            lemma_pow2_pos(s as nat);
            assert(mag * billion == n * pow2(parts.exp as nat)) by (nonlinear_arith)
                requires
                    mag == sig * pow2(parts.exp as nat),
                    n == sig * billion,
            ;
            crate::rounding::lemma_rne_scale(n as nat, pow2(s as nat), pow2(parts.exp as nat));
        }
        if s >= 100 {
            proof {
                crate::rounding::lemma_pow2_monotone(100, s as nat);
                lemma_pow2_adds(50, 50);
                lemma2_to64();
                lemma2_to64_rest();
                assert(pow2(100) == 0x4_0000_0000_0000 * 0x4_0000_0000_0000);
                lemma_small_mod(n as nat, pow2(s as nat));
                lemma_basic_div(n as int, pow2(s as nat) as int);
            }
            return Some(0);
        }
        let d: u128 = two_to(s);
        let q: u128 = n / d;
        let r: u128 = n % d;
        proof {
            crate::rounding::lemma_pow2_monotone(s as nat, 100);
            lemma_pow2_adds(50, 50);
            lemma2_to64_rest();
            assert(pow2(100) == 0x4_0000_0000_0000 * 0x4_0000_0000_0000);
        }
        if 2 * r > d || (2 * r == d && q % 2 == 1) {
            proof {
                lemma_fundamental_div_mod(n as int, d as int);
                assert(q <= n) by (nonlinear_arith)
                    requires
                        n == d * q + r,
                        d >= 1,
                        q >= 0,
                        r >= 0,
                ;
            }
            Some(q + 1)
        } else {
            Some(q)
        }
    }
}

fn to_span(f: Format, a: Num, inf: u64) -> (r: Option<Span>)
    requires
        f.wf(),
        inf == f.inf(),
    ensures
        r == span_of(f, a),
        r matches Some(s) ==> s.wf(),
{
    if a.code >= inf || (a.neg && a.code > 0) {
        return None;
    }
    match nanos_of(f, a) {
        Some(n) => {
            let billion: u128 = NANOS_PER_SEC as u128;
            if n / billion > u64::MAX as u128 {
                None
            } else {
                Some(Span { secs: (n / billion) as u64, nanos: (n % billion) as u32 })
            }
        },
        None => None,
    }
}

impl Single {
    /// The number of seconds as a span.
    pub open spec fn fspan(self) -> Option<Span> {
        span_of(crate::single::single_spec(), self.spec_num())
    }

    /// See [`span_of`].
    pub fn to_span(self) -> (r: Option<Span>)
        ensures
            r == self.fspan(),
            r matches Some(s) ==> s.wf(),
    {
        proof {
            lemma_sizes(crate::single::single_spec());
        }
        to_span(single_format(), self.num(), 0x7f80_0000)
    }

    /// The nearest integer of a nonnegative number; halves round up.
    pub open spec fn rounded(self) -> nat {
        let unit = pow2(crate::single::single_spec().unit as nat);
        ((2 * self.units() + unit) / (2 * unit as int)) as nat
    }

    /// The nearest integer of a number from zero to a hundred; halves round
    /// up.
    pub fn round_percent(self) -> (r: u64)
        requires
            Single::lit(crate::single::ZERO).fle(self),
            self.fle(Single::lit(crate::single::HUNDRED)),
        ensures
            r == self.rounded(),
            r <= 100,
    {
        let f = single_format();
        let a = self.num();
        let ghost unit = pow2(149);
        let ghost hundred = Single::lit(crate::single::HUNDRED);
        proof {
            lemma_sizes(f);
            lemma_pow2_pos(149);
        }
        let parts = take_apart(f, a);
        let sig: u64 = parts.sig;
        proof {
            lemma_percent_parts(self, sig, parts.exp);
            lemma_pow2_pos(parts.exp as nat);
        }
        let s: u32 = 149 - parts.exp;
        proof {
            lemma_pow2_pos(s as nat);
            lemma_pow2_adds(s as nat, parts.exp as nat);
            let e = pow2(parts.exp as nat) as int;
            let d = pow2(s as nat) as int;
            assert(self.units() == sig * e);
            assert(2 * (sig * e) + d * e == e * (2 * sig + d)) by (nonlinear_arith);
            assert(2 * (d * e) == e * (2 * d)) by (nonlinear_arith);
            lemma_div_multiples_vanish_quotient(e, 2 * sig + d, 2 * d);
            assert(self.rounded() == ((2 * sig + d) / (2 * d)) as nat);
        }
        if s >= 60 {
            proof {
                crate::rounding::lemma_pow2_monotone(60, s as nat);
                lemma2_to64_rest();
                lemma_basic_div(2 * sig + pow2(s as nat), 2 * pow2(s as nat) as int);
            }
            return 0;
        }
        let d: u128 = two_to(s);
        proof {
            crate::rounding::lemma_pow2_monotone(s as nat, 60);
            lemma2_to64_rest();
            lemma_percent_bound(sig as int, d as int);
        }
        ((2 * sig as u128 + d) / (2 * d)) as u64
    }
}

/// A number from zero to a hundred is small: its exponent stays below the
/// unit's, and its significand is at most a hundred of what is above it.
proof fn lemma_percent_parts(v: Single, sig: u64, exp: u32)
    requires
        Single::lit(crate::single::ZERO).fle(v),
        v.fle(Single::lit(crate::single::HUNDRED)),
        crate::single::single_spec().mag(v.spec_num()) == sig * pow2(exp as nat),
        exp == if v.code() < 0x80_0000 {
            0
        } else {
            v.code() as int / 0x80_0000 - 1
        },
    ensures
        v.code() <= crate::single::HUNDRED,
        exp <= 132,
        v.units() == sig * pow2(exp as nat),
        sig <= 100 * pow2((149 - exp) as nat),
{
    let f = crate::single::single_spec();
    let hundred = Single::lit(crate::single::HUNDRED);
    assert(v.code() <= crate::single::HUNDRED);
    lemma2_to64();
    lemma2_to64_rest();
    assert(f.half() == 0x80_0000);
    assert(v.code() as int / 0x80_0000 <= 133);
    lemma_pow2_pos(exp as nat);
    if v.spec_num().neg {
        assert(v.code() == 0);
        crate::ieee::lemma_mag_zero(f, v.spec_num());
    }
    let m = f.mag(v.spec_num());
    let top = f.mag(hundred.spec_num());
    assert(top == 100 * pow2(149)) by {
        assert(hundred.code() as int / 0x80_0000 == 133);
        assert(top == (0x42c8_0000 - 132 * 0x80_0000) * pow2(132));
        assert(0x42c8_0000 - 132 * 0x80_0000 == 100 * 0x2_0000);
        lemma_pow2_adds(17, 132);
        assert(100 * 0x2_0000 * pow2(132) == 100 * (0x2_0000 * pow2(132))) by (nonlinear_arith);
    }
    if v.code() < hundred.code() {
        crate::ieee::lemma_mag_ordered(f, v.spec_num(), hundred.spec_num());
    }
    assert(m <= top);
    lemma_pow2_adds((149 - exp) as nat, exp as nat);
    let d = pow2((149 - exp) as nat);
    let e = pow2(exp as nat);
    assert(sig <= 100 * d) by (nonlinear_arith)
        requires
            sig * e <= 100 * (d * e),
            e > 0,
    ;
}

proof fn lemma_percent_bound(sig: int, d: int)
    requires
        0 <= sig <= 100 * d,
        d > 0,
    ensures
        0 <= (2 * sig + d) / (2 * d) <= 100,
{
    assert((2 * sig + d) / (2 * d) <= 100) by (nonlinear_arith)
        requires
            0 <= sig <= 100 * d,
            d > 0,
    ;
    assert((2 * sig + d) / (2 * d) >= 0) by (nonlinear_arith)
        requires
            0 <= sig,
            d > 0,
    ;
}

/// An hour in double precision, 3600 seconds, in units.
proof fn lemma_hour_units()
    ensures
        crate::double::double_spec().mag(Num { neg: false, code: 0x40ac_2000_0000_0000 }) == 3600
            * pow2(1074),
{
    let f = crate::double::double_spec();
    lemma2_to64();
    lemma2_to64_rest();
    let h = f.half();
    assert(h == 0x10_0000_0000_0000);
    let code: nat = 0x40ac_2000_0000_0000;
    assert(code / h == 0x40a);
    assert(code - (0x40a - 1) * h == 3600 * 0x200_0000_0000);
    lemma_pow2_adds(41, 1033);
    assert(pow2(41) == 0x200_0000_0000);
    assert(3600 * 0x200_0000_0000 * pow2(1033) == 3600 * (0x200_0000_0000 * pow2(1033)))
        by (nonlinear_arith);
}

/// A lag of at most an hour is a span.
pub(crate) proof fn lemma_short_lag_is_a_span(v: Double)
    requires
        v.finite(),
        Double::lit(0).dle(v),
        v.dle(Double::lit(0x40ac_2000_0000_0000)),
    ensures
        v.dspan() is Some,
{
    let f = crate::double::double_spec();
    let a = v.spec_num();
    let hour = Num { neg: false, code: 0x40ac_2000_0000_0000 };
    lemma_sizes(f);
    lemma_hour_units();
    assert(!a.neg || a.code == 0);
    assert(a.code <= hour.code);
    if a.code == hour.code {
        assert(f.mag(a) == f.mag(hour));
    } else {
        crate::ieee::lemma_mag_ordered(f, a, hour);
    }
    let unit = pow2(1074);
    lemma_pow2_pos(1074);
    let n = f.mag(a) * NANOS_PER_SEC as nat;
    assert(n <= 3_600_000_000_000 * unit) by (nonlinear_arith)
        requires
            n == f.mag(a) * 1_000_000_000,
            f.mag(a) <= 3600 * unit,
    ;
    assert(n / unit <= 3_600_000_000_000) by (nonlinear_arith)
        requires
            n <= 3_600_000_000_000 * unit,
            unit > 0,
    ;
    assert(nearest_nanos(f, a) <= 3_600_000_000_001);
}

impl Double {
    /// The number of seconds as a span.
    pub open spec fn dspan(self) -> Option<Span> {
        span_of(crate::double::double_spec(), self.spec_num())
    }

    /// See [`span_of`].
    pub fn to_span(self) -> (r: Option<Span>)
        ensures
            r == self.dspan(),
            r matches Some(s) ==> s.wf(),
    {
        proof {
            lemma_sizes(crate::double::double_spec());
        }
        to_span(double_format(), self.num(), 0x7ff0_0000_0000_0000)
    }
}

} // verus!
