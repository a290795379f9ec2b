//! Single-precision numbers as bit patterns.
//!
//! The spec functions `fadd`, `fsub`, ... are the IEEE 754 operations; the
//! methods of [`Single`] compute them.

use crate::double::{double_format, Double};
use crate::ieee::{add_num, convert_num, div_num, integer_num, mul_num, sqrt_num, Format, Num};
use vstd::arithmetic::power2::*;
use vstd::prelude::*;

verus! {

/// A single-precision number, held as its bit pattern.
#[derive(Clone, Copy, Debug, PartialEq, Eq, Structural)]
pub struct Single {
    pub bits: u32,
}

pub open spec fn single_spec() -> Format {
    Format { p: 24, top: 255, unit: 149 }
}

#[verifier::when_used_as_spec(single_spec)]
pub fn single_format() -> (f: Format)
    ensures
        f == single_spec(),
        f.wf(),
{
    Format { p: 24, top: 255, unit: 149 }
}

/// Positive zero.
pub const ZERO: u32 = 0;

/// One.
pub const ONE: u32 = 0x3f80_0000;

/// Two.
pub const TWO: u32 = 0x4000_0000;

/// One hundred.
pub const HUNDRED: u32 = 0x42c8_0000;

/// Positive infinity.
pub const INFINITY: u32 = 0x7f80_0000;

/// Negative infinity.
pub const NEG_INFINITY: u32 = 0xff80_0000;

/// The largest finite number.
pub const LARGEST: u32 = 0x7f7f_ffff;

/// The most negative finite number.
pub const LOWEST: u32 = 0xff7f_ffff;

/// The least positive normal number, `2^-126`.
pub const MIN_POSITIVE: u32 = 0x0080_0000;

/// The canonical not-a-number.
pub const NAN: u32 = 0x7fc0_0000;

/// The bit that carries the sign.
pub const SIGN: u32 = 0x8000_0000;

impl Single {
    /// The single with a bit pattern: an abbreviation for constants.
    pub open spec fn lit(bits: u32) -> Single {
        Single { bits }
    }

    pub open spec fn is_negative(self) -> bool {
        self.bits >= SIGN
    }

    /// The code of the magnitude.
    pub open spec fn code(self) -> nat {
        if self.bits >= SIGN {
            (self.bits - SIGN) as nat
        } else {
            self.bits as nat
        }
    }

    /// The position in the order of the numbers; both zeros have rank 0.
    pub open spec fn rank(self) -> int {
        if self.bits >= SIGN {
            SIGN - self.bits
        } else {
            self.bits as int
        }
    }

    pub open spec fn nan(self) -> bool {
        self.code() > INFINITY
    }

    pub open spec fn finite(self) -> bool {
        self.code() < INFINITY
    }

    pub open spec fn spec_num(self) -> Num {
        Num { neg: self.is_negative(), code: self.code() as u64 }
    }

    /// The number in units of `2^-149`, where it is finite.
    pub open spec fn units(self) -> int {
        single_spec().value(self.spec_num())
    }

    pub(crate) fn num(self) -> (r: Num)
        ensures
            r == self.spec_num(),
    {
        if self.bits >= SIGN {
            Num { neg: true, code: (self.bits - SIGN) as u64 }
        } else {
            Num { neg: false, code: self.bits as u64 }
        }
    }

    pub(crate) fn of_num(n: Num) -> (r: Single)
        requires
            n.code < SIGN,
        ensures
            r == single_of(n),
    {
        if n.neg {
            Single { bits: n.code as u32 + SIGN }
        } else {
            Single { bits: n.code as u32 }
        }
    }

    /// The number with the given bit pattern.
    pub fn from_bits(bits: u32) -> (r: Single)
        ensures
            r.bits == bits,
    {
        Single { bits }
    }

    pub fn to_bits(self) -> (r: u32)
        ensures
            r == self.bits,
    {
        self.bits
    }

    pub fn is_nan(self) -> (r: bool)
        ensures
            r == self.nan(),
    {
        self.num().code > INFINITY as u64
    }

    pub fn is_finite(self) -> (r: bool)
        ensures
            r == self.finite(),
    {
        self.num().code < INFINITY as u64
    }

    pub fn lt(self, other: Single) -> (r: bool)
        ensures
            r == self.flt(other),
    {
        !self.is_nan() && !other.is_nan() && self.rank_of() < other.rank_of()
    }

    pub fn le(self, other: Single) -> (r: bool)
        ensures
            r == self.fle(other),
    {
        !self.is_nan() && !other.is_nan() && self.rank_of() <= other.rank_of()
    }

    /// Numerical equality: the zeros are equal, not-a-number equals nothing.
    pub fn equals(self, other: Single) -> (r: bool)
        ensures
            r == self.feq(other),
    {
        !self.is_nan() && !other.is_nan() && self.rank_of() == other.rank_of()
    }

    fn rank_of(self) -> (r: i64)
        ensures
            r == self.rank(),
    {
        if self.bits >= SIGN {
            SIGN as i64 - self.bits as i64
        } else {
            self.bits as i64
        }
    }

    pub fn negated(self) -> (r: Single)
        ensures
            r == self.fneg(),
    {
        if self.bits >= SIGN {
            Single { bits: self.bits - SIGN }
        } else {
            Single { bits: self.bits + SIGN }
        }
    }

    pub fn abs(self) -> (r: Single)
        ensures
            r == self.fabs(),
    {
        if self.bits >= SIGN {
            Single { bits: self.bits - SIGN }
        } else {
            self
        }
    }

    pub fn signum(self) -> (r: Single)
        ensures
            r == self.fsignum(),
    {
        if self.is_nan() {
            Single { bits: NAN }
        } else if self.bits >= SIGN {
            Single { bits: ONE + SIGN }
        } else {
            Single { bits: ONE }
        }
    }

    pub fn min(self, other: Single) -> (r: Single)
        ensures
            r == self.fmin(other),
    {
        if self.is_nan() || other.lt(self) {
            other
        } else {
            self
        }
    }

    pub fn max(self, other: Single) -> (r: Single)
        ensures
            r == self.fmax(other),
    {
        if self.is_nan() || self.lt(other) {
            other
        } else {
            self
        }
    }

    pub fn clamp(self, lo: Single, hi: Single) -> (r: Single)
        requires
            lo.fle(hi),
        ensures
            r == self.fclamp(lo, hi),
    {
        if self.lt(lo) {
            lo
        } else if hi.lt(self) {
            hi
        } else {
            self
        }
    }

    pub fn plus(self, other: Single) -> (r: Single)
        ensures
            r == self.fadd(other),
    {
        let n = add_num(single_format(), self.num(), other.num());
        proof {
            reveal(Single::fadd);
            lemma_single_sizes();
        }
        Single::of_num(n)
    }

    pub fn minus(self, other: Single) -> (r: Single)
        ensures
            r == self.fsub(other),
    {
        self.plus(other.negated())
    }

    pub fn times(self, other: Single) -> (r: Single)
        ensures
            r == self.fmul(other),
    {
        let n = mul_num(single_format(), self.num(), other.num());
        proof {
            reveal(Single::fmul);
            lemma_single_sizes();
        }
        Single::of_num(n)
    }

    pub fn over(self, other: Single) -> (r: Single)
        ensures
            r == self.fdiv(other),
    {
        let n = div_num(single_format(), self.num(), other.num());
        proof {
            reveal(Single::fdiv);
            lemma_single_sizes();
        }
        Single::of_num(n)
    }

    pub fn sqrt(self) -> (r: Single)
        ensures
            r == self.fsqrt(),
    {
        let n = sqrt_num(single_format(), self.num());
        proof {
            reveal(Single::fsqrt);
            lemma_single_sizes();
        }
        Single::of_num(n)
    }

    /// The integer `x`, rounded to single precision.
    pub fn of_integer(x: u64) -> (r: Single)
        ensures
            r == Single::fint(x as nat),
    {
        let n = integer_num(single_format(), x);
        proof {
            reveal(Single::fint);
            lemma_single_sizes();
        }
        Single::of_num(n)
    }

    /// The same number in double precision; every single is one exactly.
    pub fn widen(self) -> (r: Double)
        ensures
            r == self.widened(),
    {
        let n = convert_num(double_format(), single_format(), self.num());
        proof {
            reveal(Single::widened);
            crate::double::lemma_double_sizes();
        }
        Double::of_num(n)
    }

    pub open spec fn flt(self, b: Single) -> bool {
        !self.nan() && !b.nan() && self.rank() < b.rank()
    }

    pub open spec fn fle(self, b: Single) -> bool {
        !self.nan() && !b.nan() && self.rank() <= b.rank()
    }

    pub open spec fn feq(self, b: Single) -> bool {
        !self.nan() && !b.nan() && self.rank() == b.rank()
    }

    pub open spec fn fneg(self) -> Single {
        Single {
            bits: if self.bits >= SIGN {
                (self.bits - SIGN) as u32
            } else {
                (self.bits + SIGN) as u32
            },
        }
    }

    pub open spec fn fabs(self) -> Single {
        Single { bits: self.code() as u32 }
    }

    pub open spec fn fsignum(self) -> Single {
        if self.nan() {
            Single::lit(NAN)
        } else if self.is_negative() {
            Single::lit((ONE + SIGN) as u32)
        } else {
            Single::lit(ONE)
        }
    }

    /// The smaller of two numbers; a lone not-a-number yields to the other.
    pub open spec fn fmin(self, b: Single) -> Single {
        if self.nan() || b.flt(self) {
            b
        } else {
            self
        }
    }

    /// The larger of two numbers; a lone not-a-number yields to the other.
    pub open spec fn fmax(self, b: Single) -> Single {
        if self.nan() || self.flt(b) {
            b
        } else {
            self
        }
    }

    pub open spec fn fclamp(self, lo: Single, hi: Single) -> Single {
        if self.flt(lo) {
            lo
        } else if hi.flt(self) {
            hi
        } else {
            self
        }
    }

    #[verifier::opaque]
    pub open spec fn fadd(self, b: Single) -> Single {
        single_of(single_spec().sum(self.spec_num(), b.spec_num()))
    }

    pub open spec fn fsub(self, b: Single) -> Single {
        self.fadd(b.fneg())
    }

    #[verifier::opaque]
    pub open spec fn fmul(self, b: Single) -> Single {
        single_of(single_spec().product(self.spec_num(), b.spec_num()))
    }

    #[verifier::opaque]
    pub open spec fn fdiv(self, b: Single) -> Single {
        single_of(single_spec().quotient(self.spec_num(), b.spec_num()))
    }

    #[verifier::opaque]
    pub open spec fn fsqrt(self) -> Single {
        single_of(single_spec().square_root(self.spec_num()))
    }

    #[verifier::opaque]
    pub open spec fn fint(x: nat) -> Single {
        single_of(Num { neg: false, code: single_spec().integer(x) as u64 })
    }

    #[verifier::opaque]
    pub open spec fn widened(self) -> Double {
        crate::double::double_of(
            crate::double::double_spec().convert(single_spec(), self.spec_num()),
        )
    }

}

pub open spec fn single_of(n: Num) -> Single {
    Single {
        bits: if n.neg {
            (n.code + SIGN) as u32
        } else {
            n.code as u32
        },
    }
}

pub(crate) proof fn lemma_single_sizes()
    ensures
        single_spec().wf(),
        single_spec().inf() == INFINITY,
        single_spec().nan() == NAN,
{
    lemma2_to64();
    assert(255 * 0x80_0000 == 0x7f80_0000int);
}

} // verus!
