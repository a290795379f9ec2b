//! Double-precision numbers as bit patterns.
//!
//! The spec functions `dadd`, `dsub`, ... are the IEEE 754 operations; the
//! methods of [`Double`] compute them.

use crate::ieee::{add_num, convert_num, div_num, integer_num, mul_num, sqrt_num, Format, Num};
use crate::single::{single_format, Single};
use vstd::arithmetic::power2::*;
use vstd::prelude::*;

verus! {

/// A double-precision number, held as its bit pattern.
#[derive(Clone, Copy, Debug, PartialEq, Eq, Structural)]
pub struct Double {
    pub bits: u64,
}

pub open spec fn double_spec() -> Format {
    Format { p: 53, top: 2047, unit: 1074 }
}

#[verifier::when_used_as_spec(double_spec)]
pub fn double_format() -> (f: Format)
    ensures
        f == double_spec(),
        f.wf(),
{
    Format { p: 53, top: 2047, unit: 1074 }
}

/// Positive zero.
pub const DZERO: u64 = 0;

/// Two.
pub const DTWO: u64 = 0x4000_0000_0000_0000;

/// Positive infinity.
pub const DINFINITY: u64 = 0x7ff0_0000_0000_0000;

/// The canonical not-a-number.
pub const DNAN: u64 = 0x7ff8_0000_0000_0000;

/// The bit that carries the sign.
pub const DSIGN: u64 = 0x8000_0000_0000_0000;

impl Double {
    /// The double with a bit pattern: an abbreviation for constants.
    pub open spec fn lit(bits: u64) -> Double {
        Double { bits }
    }

    pub open spec fn is_negative(self) -> bool {
        self.bits >= DSIGN
    }

    /// The code of the magnitude.
    pub open spec fn code(self) -> nat {
        if self.bits >= DSIGN {
            (self.bits - DSIGN) as nat
        } else {
            self.bits as nat
        }
    }

    /// The position in the order of the numbers; both zeros have rank 0.
    pub open spec fn rank(self) -> int {
        if self.bits >= DSIGN {
            DSIGN - self.bits
        } else {
            self.bits as int
        }
    }

    pub open spec fn nan(self) -> bool {
        self.code() > DINFINITY
    }

    pub open spec fn finite(self) -> bool {
        self.code() < DINFINITY
    }

    pub open spec fn spec_num(self) -> Num {
        Num { neg: self.is_negative(), code: self.code() as u64 }
    }

    /// The number in units of `2^-1074`, where it is finite.
    pub open spec fn units(self) -> int {
        double_spec().value(self.spec_num())
    }

    pub(crate) fn num(self) -> (r: Num)
        ensures
            r == self.spec_num(),
    {
        if self.bits >= DSIGN {
            Num { neg: true, code: self.bits - DSIGN }
        } else {
            Num { neg: false, code: self.bits }
        }
    }

    pub(crate) fn of_num(n: Num) -> (r: Double)
        requires
            n.code < DSIGN,
        ensures
            r == double_of(n),
    {
        if n.neg {
            Double { bits: n.code + DSIGN }
        } else {
            Double { bits: n.code }
        }
    }

    /// The number with the given bit pattern.
    pub fn from_bits(bits: u64) -> (r: Double)
        ensures
            r.bits == bits,
    {
        Double { bits }
    }

    pub fn to_bits(self) -> (r: u64)
        ensures
            r == self.bits,
    {
        self.bits
    }

    pub fn is_nan(self) -> (r: bool)
        ensures
            r == self.nan(),
    {
        self.num().code > DINFINITY
    }

    pub fn is_finite(self) -> (r: bool)
        ensures
            r == self.finite(),
    {
        self.num().code < DINFINITY
    }

    pub fn lt(self, other: Double) -> (r: bool)
        ensures
            r == self.dlt(other),
    {
        !self.is_nan() && !other.is_nan() && self.rank_of() < other.rank_of()
    }

    pub fn le(self, other: Double) -> (r: bool)
        ensures
            r == self.dle(other),
    {
        !self.is_nan() && !other.is_nan() && self.rank_of() <= other.rank_of()
    }

    fn rank_of(self) -> (r: i128)
        ensures
            r == self.rank(),
    {
        if self.bits >= DSIGN {
            DSIGN as i128 - self.bits as i128
        } else {
            self.bits as i128
        }
    }

    pub fn negated(self) -> (r: Double)
        ensures
            r == self.dneg(),
    {
        if self.bits >= DSIGN {
            Double { bits: self.bits - DSIGN }
        } else {
            Double { bits: self.bits + DSIGN }
        }
    }

    pub fn abs(self) -> (r: Double)
        ensures
            r == self.dabs(),
    {
        if self.bits >= DSIGN {
            Double { bits: self.bits - DSIGN }
        } else {
            self
        }
    }

    pub fn plus(self, other: Double) -> (r: Double)
        ensures
            r == self.dadd(other),
    {
        let n = add_num(double_format(), self.num(), other.num());
        proof {
            reveal(Double::dadd);
            lemma_double_sizes();
        }
        Double::of_num(n)
    }

    pub fn minus(self, other: Double) -> (r: Double)
        ensures
            r == self.dsub(other),
    {
        self.plus(other.negated())
    }

    pub fn times(self, other: Double) -> (r: Double)
        ensures
            r == self.dmul(other),
    {
        let n = mul_num(double_format(), self.num(), other.num());
        proof {
            reveal(Double::dmul);
            lemma_double_sizes();
        }
        Double::of_num(n)
    }

    pub fn over(self, other: Double) -> (r: Double)
        ensures
            r == self.ddiv(other),
    {
        let n = div_num(double_format(), self.num(), other.num());
        proof {
            reveal(Double::ddiv);
            lemma_double_sizes();
        }
        Double::of_num(n)
    }

    pub fn sqrt(self) -> (r: Double)
        ensures
            r == self.dsqrt(),
    {
        let n = sqrt_num(double_format(), self.num());
        proof {
            reveal(Double::dsqrt);
            lemma_double_sizes();
        }
        Double::of_num(n)
    }

    /// The integer `x`, rounded to double precision.
    pub fn of_integer(x: u64) -> (r: Double)
        ensures
            r == Double::dint(x as nat),
    {
        let n = integer_num(double_format(), x);
        proof {
            reveal(Double::dint);
            lemma_double_sizes();
        }
        Double::of_num(n)
    }

    /// The nearest single-precision number.
    pub fn narrow(self) -> (r: Single)
        ensures
            r == self.narrowed(),
    {
        let n = convert_num(single_format(), double_format(), self.num());
        proof {
            reveal(Double::narrowed);
            crate::single::lemma_single_sizes();
        }
        Single::of_num(n)
    }

    pub open spec fn dlt(self, b: Double) -> bool {
        !self.nan() && !b.nan() && self.rank() < b.rank()
    }

    pub open spec fn dle(self, b: Double) -> bool {
        !self.nan() && !b.nan() && self.rank() <= b.rank()
    }

    pub open spec fn dneg(self) -> Double {
        Double {
            bits: if self.bits >= DSIGN {
                (self.bits - DSIGN) as u64
            } else {
                (self.bits + DSIGN) as u64
            },
        }
    }

    pub open spec fn dabs(self) -> Double {
        Double { bits: self.code() as u64 }
    }

    #[verifier::opaque]
    pub open spec fn dadd(self, b: Double) -> Double {
        double_of(double_spec().sum(self.spec_num(), b.spec_num()))
    }

    pub open spec fn dsub(self, b: Double) -> Double {
        self.dadd(b.dneg())
    }

    #[verifier::opaque]
    pub open spec fn dmul(self, b: Double) -> Double {
        double_of(double_spec().product(self.spec_num(), b.spec_num()))
    }

    #[verifier::opaque]
    pub open spec fn ddiv(self, b: Double) -> Double {
        double_of(double_spec().quotient(self.spec_num(), b.spec_num()))
    }

    #[verifier::opaque]
    pub open spec fn dsqrt(self) -> Double {
        double_of(double_spec().square_root(self.spec_num()))
    }

    #[verifier::opaque]
    pub open spec fn dint(x: nat) -> Double {
        double_of(Num { neg: false, code: double_spec().integer(x) as u64 })
    }

    #[verifier::opaque]
    pub open spec fn narrowed(self) -> Single {
        crate::single::single_of(
            crate::single::single_spec().convert(double_spec(), self.spec_num()),
        )
    }

}

pub open spec fn double_of(n: Num) -> Double {
    Double {
        bits: if n.neg {
            (n.code + DSIGN) as u64
        } else {
            n.code
        },
    }
}

pub(crate) proof fn lemma_double_sizes()
    ensures
        double_spec().wf(),
        double_spec().inf() == DINFINITY,
        double_spec().nan() == DNAN,
{
    lemma2_to64_rest();
    assert(2047 * 0x10_0000_0000_0000 == 0x7ff0_0000_0000_0000int);
}

} // verus!
