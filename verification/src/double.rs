//! Double-precision numbers, computed with integers.

use vstd::arithmetic::power2::*;
use vstd::prelude::*;

pub mod arithmetic;
pub mod choice;
pub mod conversion;
pub mod decimals;
pub mod errors;
pub mod laws;
pub mod order;
pub mod rounding;

verus! {

/// What a double-precision number stands for.
///
/// A finite number is `(-1)^negative * mantissa * 2^exponent`, in the one form in which the
/// mantissa has 53 bits, or has fewer and the exponent is the least there is.
pub enum Number {
    Nan,
    Infinite { negative: bool },
    Finite { negative: bool, mantissa: int, exponent: int },
}

impl Number {
    /// The magnitude of a finite number, in units of `2^-1074`, the least positive number.
    pub open spec fn magnitude(self) -> nat {
        match self {
            Number::Finite { negative, mantissa, exponent } => (mantissa * pow2(
                (exponent + 1074) as nat,
            )) as nat,
            _ => 0,
        }
    }

    /// Does the exact ratio `n / d` lie in the range where neighbouring numbers are
    /// `2^(step - 1074)` apart?
    pub open spec fn spaced_by(n: nat, d: nat, step: nat) -> bool {
        &&& n * pow2(1074) < d * pow2(step) * 0x20_0000_0000_0000
        &&& step == 0 || d * pow2(step) * 0x10_0000_0000_0000 <= n * pow2(1074)
    }

    pub open spec fn spacing(n: nat, d: nat) -> nat {
        choose|step: nat| Self::spaced_by(n, d, step)
    }

    /// The multiple of the spacing that is nearest to `n / d`; of two equally near, the even one.
    pub open spec fn nearest_multiple(n: nat, d: nat, step: nat) -> int {
        let unit = (d * pow2(step)) as int;
        let below = (n * pow2(1074)) as int / unit;
        let rest = (n * pow2(1074)) as int % unit;
        if 2 * rest > unit || (2 * rest == unit && below % 2 == 1) {
            below + 1
        } else {
            below
        }
    }

    /// The number of the given sign nearest to the exact ratio `n / d`.
    pub open spec fn nearest(negative: bool, n: nat, d: nat) -> Number {
        let step = Self::spacing(n, d);
        let multiple = Self::nearest_multiple(n, d, step);
        let (mantissa, exponent) = if multiple == 0x20_0000_0000_0000 {
            (0x10_0000_0000_0000int, step - 1073)
        } else {
            (multiple, step - 1074)
        };
        if exponent > 971 {
            Number::Infinite { negative }
        } else {
            Number::Finite { negative, mantissa, exponent }
        }
    }
}

impl Number {
    /// The sign of a number that has one.
    pub open spec fn is_negative(self) -> bool {
        match self {
            Number::Nan => false,
            Number::Infinite { negative } => negative,
            Number::Finite { negative, mantissa, exponent } => negative,
        }
    }

    pub open spec fn is_zero(self) -> bool {
        self matches Number::Finite { negative, mantissa, exponent } && mantissa == 0
    }

    /// A finite number in units of `2^-1074`.
    pub open spec fn scaled(self) -> int {
        if self.is_negative() {
            -(self.magnitude() as int)
        } else {
            self.magnitude() as int
        }
    }

    pub open spec fn zero(negative: bool) -> Number {
        Number::Finite { negative, mantissa: 0, exponent: -1074 }
    }

    /// The nearest number to the exact product.
    pub open spec fn times(self, other: Number) -> Number {
        let negative = self.is_negative() != other.is_negative();
        if self is Nan || other is Nan {
            Number::Nan
        } else if self is Infinite || other is Infinite {
            if self.is_zero() || other.is_zero() {
                Number::Nan
            } else {
                Number::Infinite { negative }
            }
        } else {
            Number::nearest(negative, self.magnitude() * other.magnitude(), pow2(2148))
        }
    }

    /// The nearest number to the exact quotient.
    pub open spec fn over(self, other: Number) -> Number {
        let negative = self.is_negative() != other.is_negative();
        if self is Nan || other is Nan {
            Number::Nan
        } else if self is Infinite {
            if other is Infinite {
                Number::Nan
            } else {
                Number::Infinite { negative }
            }
        } else if other is Infinite {
            Number::zero(negative)
        } else if other.is_zero() {
            if self.is_zero() {
                Number::Nan
            } else {
                Number::Infinite { negative }
            }
        } else {
            Number::nearest(negative, self.magnitude(), other.magnitude())
        }
    }

    /// The nearest number to the exact sum.
    pub open spec fn plus(self, other: Number) -> Number {
        let total = self.scaled() + other.scaled();
        if self is Nan || other is Nan {
            Number::Nan
        } else if self is Infinite {
            if other is Infinite && self.is_negative() != other.is_negative() {
                Number::Nan
            } else {
                self
            }
        } else if other is Infinite {
            other
        } else if total == 0 {
            Number::zero(self.is_negative() && other.is_negative())
        } else if total < 0 {
            Number::nearest(true, (-total) as nat, pow2(1074))
        } else {
            Number::nearest(false, total as nat, pow2(1074))
        }
    }

    pub open spec fn negated(self) -> Number {
        match self {
            Number::Nan => Number::Nan,
            Number::Infinite { negative } => Number::Infinite { negative: !negative },
            Number::Finite { negative, mantissa, exponent } => Number::Finite {
                negative: !negative,
                mantissa,
                exponent,
            },
        }
    }

    /// The nearest number to the exact difference.
    pub open spec fn minus(self, other: Number) -> Number {
        self.plus(other.negated())
    }

    pub open spec fn absolute(self) -> Number {
        if self.is_negative() {
            self.negated()
        } else {
            self
        }
    }

    /// Is this number less than the other one? Nothing is less than NaN, or greater.
    pub open spec fn below(self, other: Number) -> bool {
        if self is Nan || other is Nan {
            false
        } else if self is Infinite {
            self.is_negative() && !(other is Infinite && other.is_negative())
        } else if other is Infinite {
            !other.is_negative()
        } else {
            self.scaled() < other.scaled()
        }
    }

    pub open spec fn at_most(self, other: Number) -> bool {
        self !is Nan && other !is Nan && !other.below(self)
    }

    /// The lesser of two numbers, or the one that is a number.
    pub open spec fn lesser(self, other: Number) -> Number {
        if self is Nan || other.below(self) {
            other
        } else {
            self
        }
    }

    /// The greater of two numbers, or the one that is a number.
    pub open spec fn greater(self, other: Number) -> Number {
        if self is Nan || self.below(other) {
            other
        } else {
            self
        }
    }

    /// The nearest number to this one between the two bounds.
    pub open spec fn clamped(self, low: Number, high: Number) -> Number {
        if self.below(low) {
            low
        } else if high.below(self) {
            high
        } else {
            self
        }
    }

    /// `count`, or the greatest value of the target type where that is less.
    ///
    /// A number below zero, and NaN, count as 0.
    pub open spec fn saturated(self, count: nat, limit: nat) -> nat {
        if self is Nan || self.is_negative() {
            0
        } else if self is Infinite || count > limit {
            limit
        } else {
            count
        }
    }

    /// The number without its fraction, as an integer of at most `limit`.
    pub open spec fn truncated(self, limit: nat) -> nat {
        self.saturated(self.magnitude() / pow2(1074), limit)
    }

    /// The least integer that is not below the number, as one of at most `limit`.
    pub open spec fn ceiling(self, limit: nat) -> nat {
        self.saturated(
            ((self.magnitude() + pow2(1074) - 1) / (pow2(1074) as int)) as nat,
            limit,
        )
    }

    /// The integer nearest to the number (half is rounded up), as one of at most `limit`.
    pub open spec fn rounded(self, limit: nat) -> nat {
        self.saturated((2 * self.magnitude() + pow2(1074)) / (2 * pow2(1074)), limit)
    }

    /// The number nearest to the fraction `n / d`, such as a decimal literal.
    pub open spec fn ratio(n: nat, d: nat) -> Number {
        Number::nearest(false, n, d)
    }

    /// The number nearest to an integer.
    pub open spec fn integer(n: nat) -> Number {
        Number::nearest(false, n, 1)
    }
}

/// A double-precision number (IEEE 754 binary64), held by its bit pattern.
///
/// `==` compares bit patterns; the numeric comparisons are methods.
#[derive(Clone, Copy, Debug, PartialEq, Eq, Structural)]
pub struct Double {
    pub bits: u64,
}

impl View for Double {
    type V = Number;

    open spec fn view(&self) -> Number {
        let negative = self.bits >= 0x8000_0000_0000_0000;
        let field = (self.bits / 0x10_0000_0000_0000) as int % 2048;
        let fraction = self.bits as int % 0x10_0000_0000_0000;
        if field == 2047 {
            if fraction == 0 {
                Number::Infinite { negative }
            } else {
                Number::Nan
            }
        } else if field == 0 {
            Number::Finite { negative, mantissa: fraction, exponent: -1074 }
        } else {
            Number::Finite {
                negative,
                mantissa: fraction + 0x10_0000_0000_0000,
                exponent: field - 1075,
            }
        }
    }
}

/// A number taken apart.
pub enum Parts {
    Nan,
    Infinite { negative: bool },
    Finite { negative: bool, mantissa: u64, exponent: i32 },
}

impl View for Parts {
    type V = Number;

    open spec fn view(&self) -> Number {
        match *self {
            Parts::Nan => Number::Nan,
            Parts::Infinite { negative } => Number::Infinite { negative },
            Parts::Finite { negative, mantissa, exponent } => Number::Finite {
                negative,
                mantissa: mantissa as int,
                exponent: exponent as int,
            },
        }
    }
}

impl Number {
    /// The finite numbers that there are.
    pub open spec fn representable(self) -> bool {
        self matches Number::Finite { negative, mantissa, exponent } ==> {
            &&& 0 <= mantissa < 0x20_0000_0000_0000
            &&& -1074 <= exponent <= 971
            &&& exponent == -1074 || 0x10_0000_0000_0000 <= mantissa
        }
    }
}

impl Double {
    /// The number with the given bit pattern.
    pub fn from_bits(bits: u64) -> (r: Double)
        ensures
            r.bits == bits,
    {
        Double { bits }
    }

    /// The bit pattern of the number.
    pub fn to_bits(self) -> (bits: u64)
        ensures
            bits == self.bits,
    {
        self.bits
    }

    pub fn parts(self) -> (r: Parts)
        ensures
            r@ == self@,
            r@.representable(),
    {
        let negative: bool = self.bits >= 0x8000_0000_0000_0000;
        let field: u64 = self.bits / 0x10_0000_0000_0000 % 2048;
        let fraction: u64 = self.bits % 0x10_0000_0000_0000;
        if field == 2047 {
            if fraction == 0 {
                Parts::Infinite { negative }
            } else {
                Parts::Nan
            }
        } else if field == 0 {
            Parts::Finite { negative, mantissa: fraction, exponent: -1074 }
        } else {
            Parts::Finite {
                negative,
                mantissa: fraction + 0x10_0000_0000_0000,
                exponent: field as i32 - 1075,
            }
        }
    }

    pub(crate) fn not_a_number() -> (r: Double)
        ensures
            r@ is Nan,
    {
        Double { bits: 0x7ff8_0000_0000_0000 }
    }

    pub(crate) fn infinite(negative: bool) -> (r: Double)
        ensures
            r@ == (Number::Infinite { negative }),
    {
        if negative {
            Double { bits: 0xfff0_0000_0000_0000 }
        } else {
            Double { bits: 0x7ff0_0000_0000_0000 }
        }
    }

    pub(crate) fn finite(negative: bool, mantissa: u64, exponent: i32) -> (r: Double)
        requires
            (Number::Finite {
                negative,
                mantissa: mantissa as int,
                exponent: exponent as int,
            }).representable(),
        ensures
            r@ == (Number::Finite {
                negative,
                mantissa: mantissa as int,
                exponent: exponent as int,
            }),
    {
        let magnitude: u64 = if mantissa < 0x10_0000_0000_0000 {
            mantissa
        } else {
            (exponent + 1075) as u64 * 0x10_0000_0000_0000 + (mantissa - 0x10_0000_0000_0000)
        };
        if negative {
            Double { bits: 0x8000_0000_0000_0000 + magnitude }
        } else {
            Double { bits: magnitude }
        }
    }
}

} // verus!
