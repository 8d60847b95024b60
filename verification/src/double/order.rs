use vstd::arithmetic::power2::*;
use vstd::prelude::*;

use crate::double::{Double, Number, Parts};

verus! {

/// Representable magnitudes are ordered by their exponents, then by their mantissas.
proof fn lemma_magnitude_order(ma: int, ea: int, mb: int, eb: int)
    requires
        (Number::Finite { negative: false, mantissa: ma, exponent: ea }).representable(),
        (Number::Finite { negative: false, mantissa: mb, exponent: eb }).representable(),
    ensures
        (ma * pow2((ea + 1074) as nat) < mb * pow2((eb + 1074) as nat)) == (ea < eb || (ea == eb
            && ma < mb)),
{
    if ea < eb {
        lemma_exponent_order(ma, ea, mb, eb);
    } else if eb < ea {
        lemma_exponent_order(mb, eb, ma, ea);
    } else {
        let p = pow2((ea + 1074) as nat);
        lemma_pow2_pos((ea + 1074) as nat);
        assert((ma * p < mb * p) == (ma < mb)) by (nonlinear_arith)
            requires
                p > 0,
        ;
    }
}

proof fn lemma_exponent_order(ma: int, ea: int, mb: int, eb: int)
    requires
        (Number::Finite { negative: false, mantissa: ma, exponent: ea }).representable(),
        (Number::Finite { negative: false, mantissa: mb, exponent: eb }).representable(),
        ea < eb,
    ensures
        ma * pow2((ea + 1074) as nat) < mb * pow2((eb + 1074) as nat),
{
    let p = pow2((ea + 1074) as nat);
    let more = pow2((eb - ea) as nat);
    lemma_pow2_pos((ea + 1074) as nat);
    lemma_pow2_adds((ea + 1074) as nat, (eb - ea) as nat);
    lemma_pow2_unfold((eb - ea) as nat);
    lemma_pow2_pos((eb - ea - 1) as nat);
    assert(ma * p < mb * (p * more)) by (nonlinear_arith)
        requires
            p > 0,
            more >= 2,
            0 <= ma < 0x20_0000_0000_0000,
            mb >= 0x10_0000_0000_0000,
    ;
}

impl Double {
    /// Is this number less than the other one?
    pub fn lt(self, other: Double) -> (r: bool)
        ensures
            r == self@.below(other@),
    {
        match (self.parts(), other.parts()) {
            (Parts::Nan, _) => false,
            (_, Parts::Nan) => false,
            (Parts::Infinite { negative: a }, Parts::Infinite { negative: b }) => a && !b,
            (Parts::Infinite { negative: a }, _) => a,
            (_, Parts::Infinite { negative: b }) => !b,
            (
                Parts::Finite { negative: a, mantissa: ma, exponent: ea },
                Parts::Finite { negative: b, mantissa: mb, exponent: eb },
            ) => {
                proof {
                    lemma_magnitude_order(ma as int, ea as int, mb as int, eb as int);
                    lemma_magnitude_order(mb as int, eb as int, ma as int, ea as int);
                    lemma_zero_magnitude(ma as int, ea as int);
                    lemma_zero_magnitude(mb as int, eb as int);
                }
                if a && b {
                    eb < ea || (eb == ea && mb < ma)
                } else if a {
                    ma > 0 || mb > 0
                } else if b {
                    false
                } else {
                    ea < eb || (ea == eb && ma < mb)
                }
            },
        }
    }

    /// Is this number greater than the other one?
    pub fn gt(self, other: Double) -> (r: bool)
        ensures
            r == other@.below(self@),
    {
        other.lt(self)
    }

    /// Is this number greater than the other one, or equal to it?
    pub fn ge(self, other: Double) -> (r: bool)
        ensures
            r == other@.at_most(self@),
    {
        !self.is_nan() && !other.is_nan() && !self.lt(other)
    }

    pub fn is_nan(self) -> (r: bool)
        ensures
            r == (self@ is Nan),
    {
        match self.parts() {
            Parts::Nan => true,
            _ => false,
        }
    }

    /// The lesser of two numbers, or the one that is a number.
    pub fn min(self, other: Double) -> (r: Double)
        ensures
            r@ == self@.lesser(other@),
            r == self || r == other,
    {
        if self.is_nan() || other.lt(self) {
            other
        } else {
            self
        }
    }

    /// The greater of two numbers, or the one that is a number.
    pub fn max(self, other: Double) -> (r: Double)
        ensures
            r@ == self@.greater(other@),
            r == self || r == other,
    {
        if self.is_nan() || self.lt(other) {
            other
        } else {
            self
        }
    }

    /// The nearest number to this one between the two bounds.
    pub fn clamp(self, low: Double, high: Double) -> (r: Double)
        requires
            low@.at_most(high@),
        ensures
            r@ == self@.clamped(low@, high@),
            r == self || r == low || r == high,
    {
        if self.lt(low) {
            low
        } else if high.lt(self) {
            high
        } else {
            self
        }
    }
}

proof fn lemma_zero_magnitude(m: int, e: int)
    requires
        0 <= m,
    ensures
        (m * pow2((e + 1074) as nat) == 0) == (m == 0),
        m * pow2((e + 1074) as nat) >= 0,
{
    let p = pow2((e + 1074) as nat);
    lemma_pow2_pos((e + 1074) as nat);
    assert((m * p == 0) == (m == 0) && m * p >= 0) by (nonlinear_arith)
        requires
            p > 0,
            m >= 0,
    ;
}

} // verus!
