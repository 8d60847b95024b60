use vstd::arithmetic::power2::*;
use vstd::prelude::*;

use crate::double::{Double, Number, Parts};
use crate::double::rounding::{halved, round_located, Remainder};

verus! {

pub proof fn lemma_exactly_located(n: nat, d: nat, m: nat, e: int)
    requires
        0 < d,
        -2400 <= e,
        n * pow2(2400) == m * (d * pow2((e + 2400) as nat)),
    ensures
        crate::double::rounding::located(n, d, m, e, Remainder::Zero),
{
    lemma_pow2_pos((e + 2400) as nat);
    assert(0 < d * pow2((e + 2400) as nat)) by (nonlinear_arith)
        requires
            0 < d,
            0 < pow2((e + 2400) as nat),
    ;
}

impl Double {
    /// The product, rounded to the nearest number.
    pub fn mul(self, other: Double) -> (r: Double)
        ensures
            r@ == self@.times(other@),
    {
        match (self.parts(), other.parts()) {
            (Parts::Nan, _) => Double::not_a_number(),
            (_, Parts::Nan) => Double::not_a_number(),
            (Parts::Infinite { negative: a }, Parts::Infinite { negative: b }) => Double::infinite(
                a != b,
            ),
            (
                Parts::Infinite { negative: a },
                Parts::Finite { negative: b, mantissa, exponent },
            ) => if mantissa == 0 {
                Double::not_a_number()
            } else {
                Double::infinite(a != b)
            },
            (
                Parts::Finite { negative: a, mantissa, exponent },
                Parts::Infinite { negative: b },
            ) => if mantissa == 0 {
                Double::not_a_number()
            } else {
                Double::infinite(a != b)
            },
            (
                Parts::Finite { negative: a, mantissa: ma, exponent: ea },
                Parts::Finite { negative: b, mantissa: mb, exponent: eb },
            ) => {
                let ghost n: nat = self@.magnitude() * other@.magnitude();
                let ghost d: nat = pow2(2148);
                let whole: u128 = Self::mantissas(ma, mb);
                proof {
                    let pa = pow2((ea + 1074) as nat);
                    let pb = pow2((eb + 1074) as nat);
                    let rest = pow2((ea + eb + 2400) as nat);
                    lemma_pow2_adds((ea + 1074) as nat, (eb + 1074) as nat);
                    lemma_pow2_adds((ea + eb + 2148) as nat, 2400);
                    lemma_pow2_adds(2148, (ea + eb + 2400) as nat);
                    lemma_pow2_pos(2148);
                    let all = pow2((ea + eb + 4548) as nat);
                    assert(n * pow2(2400) == whole * (d * rest)) by (nonlinear_arith)
                        requires
                            n == (ma * pa) * (mb * pb),
                            whole == ma * mb,
                            pa * pb * pow2(2400) == all,
                            d * rest == all,
                    ;
                    lemma_exactly_located(n, d, whole as nat, ea + eb);
                }
                round_located(a != b, whole, ea + eb, Remainder::Zero, Ghost(n), Ghost(d))
            },
        }
    }

    fn mantissas(a: u64, b: u64) -> (r: u128)
        requires
            a < 0x20_0000_0000_0000,
            b < 0x20_0000_0000_0000,
        ensures
            r == a * b,
    {
        assert(0 <= a * b < 0x20_0000_0000_0000 * 0x20_0000_0000_0000) by (nonlinear_arith)
            requires
                0 <= a < 0x20_0000_0000_0000,
                0 <= b < 0x20_0000_0000_0000,
        ;
        a as u128 * b as u128
    }

    /// The quotient, rounded to the nearest number.
    pub fn div(self, other: Double) -> (r: Double)
        ensures
            r@ == self@.over(other@),
    {
        match (self.parts(), other.parts()) {
            (Parts::Nan, _) => Double::not_a_number(),
            (_, Parts::Nan) => Double::not_a_number(),
            (Parts::Infinite { negative: a }, Parts::Infinite { negative: b }) => {
                Double::not_a_number()
            },
            (
                Parts::Infinite { negative: a },
                Parts::Finite { negative: b, mantissa, exponent },
            ) => Double::infinite(a != b),
            (
                Parts::Finite { negative: a, mantissa, exponent },
                Parts::Infinite { negative: b },
            ) => Double::finite(a != b, 0, -1074),
            (
                Parts::Finite { negative: a, mantissa: ma, exponent: ea },
                Parts::Finite { negative: b, mantissa: mb, exponent: eb },
            ) => {
                if mb == 0 {
                    if ma == 0 {
                        Double::not_a_number()
                    } else {
                        Double::infinite(a != b)
                    }
                } else {
                    Self::divide(a != b, ma, ea, mb, eb)
                }
            },
        }
    }

    pub(crate) fn divide(negative: bool, ma: u64, ea: i32, mb: u64, eb: i32) -> (r: Double)
        requires
            ma < 0x20_0000_0000_0000,
            0 < mb < 0x20_0000_0000_0000,
            -1074 <= ea <= 971,
            -1074 <= eb <= 971,
        ensures
            r@ == Number::nearest(
                negative,
                (ma * pow2((ea + 1074) as nat)) as nat,
                (mb * pow2((eb + 1074) as nat)) as nat,
            ),
    {
        let ghost n: nat = (ma * pow2((ea + 1074) as nat)) as nat;
        let ghost d: nat = (mb * pow2((eb + 1074) as nat)) as nat;
        let mut top: u128 = ma as u128;
        let mut e: i32 = ea;
        let mut count: i32 = 0;
        proof {
            lemma2_to64();
            assert(ma * pow2(0) == ma);
        }
        // Widen the dividend, so that the quotient has enough digits to round.
        while count < 117 && top < 0x10_0000_0000_0000_0000_0000_0000_0000
            invariant
                0 <= count <= 117,
                -1074 <= ea <= 971,
                e == ea - count,
                top == ma * pow2(count as nat),
                ma > 0 ==> top >= pow2(count as nat),
            decreases 117 - count,
        {
            proof {
                lemma_pow2_unfold((count + 1) as nat);
                assert(ma * pow2((count + 1) as nat) == 2 * (ma * pow2(count as nat)))
                    by (nonlinear_arith)
                    requires
                        pow2((count + 1) as nat) == 2 * pow2(count as nat),
                ;
            }
            top = 2 * top;
            e = e - 1;
            count = count + 1;
        }
        let divisor: u128 = mb as u128;
        let whole: u128 = top / divisor;
        let rest: u128 = top % divisor;
        let remainder: Remainder = if rest == 0 {
            Remainder::Zero
        } else if 2 * rest < divisor {
            Remainder::BelowHalf
        } else if 2 * rest == divisor {
            Remainder::Half
        } else {
            Remainder::AboveHalf
        };
        proof {
            lemma2_to64();
            lemma2_to64_rest();
            lemma_pow2_adds(64, 53);
            vstd::arithmetic::div_mod::lemma_fundamental_div_mod(top as int, divisor as int);
            assert(top == whole * divisor + rest) by (nonlinear_arith)
                requires
                    top == divisor * whole + rest,
            ;
            if ma > 0 {
                assert(top >= 0x10_0000_0000_0000_0000_0000_0000_0000);
                assert(whole >= 0x10_0000_0000_0000) by (nonlinear_arith)
                    requires
                        top >= 0x10_0000_0000_0000_0000_0000_0000_0000,
                        top == whole * divisor + rest,
                        rest < divisor,
                        divisor < 0x20_0000_0000_0000,
                        whole >= 0,
                ;
            } else {
                assert(top == 0) by (nonlinear_arith)
                    requires
                        top == ma * pow2(count as nat),
                        ma == 0,
                ;
                assert(rest == 0);
            }
            // In units of `common`, the ratio is `top / divisor`.
            let power = e - eb;
            let wide = pow2((power + 2400) as nat);
            let common = pow2((ea - count + 3474) as nat);
            lemma_pow2_adds((ea + 1074) as nat, 2400);
            lemma_pow2_adds(count as nat, (ea - count + 3474) as nat);
            lemma_pow2_adds((eb + 1074) as nat, (power + 2400) as nat);
            let pa = pow2((ea + 1074) as nat);
            let pb = pow2((eb + 1074) as nat);
            let pc = pow2(count as nat);
            assert(n * pow2(2400) == top * common) by (nonlinear_arith)
                requires
                    n == ma * pa,
                    pa * pow2(2400) == pc * common,
                    top == ma * pc,
            ;
            assert(d * wide == divisor * common) by (nonlinear_arith)
                requires
                    d == divisor * pb,
                    pb * wide == common,
            ;
            let q = whole as int;
            assert(top * common - q * (divisor * common) == rest * common) by (nonlinear_arith)
                requires
                    top == q * divisor + rest,
            ;
            lemma_pow2_pos((ea - count + 3474) as nat);
            lemma_describes_widened(remainder, rest as int, divisor as int, common as int);
        }
        round_located(negative, whole, e - eb, remainder, Ghost(n), Ghost(d))
    }

    /// The same number with the other sign.
    pub fn neg(self) -> (r: Double)
        ensures
            r@ == self@.negated(),
    {
        if self.bits >= 0x8000_0000_0000_0000 {
            Double { bits: self.bits - 0x8000_0000_0000_0000 }
        } else {
            Double { bits: self.bits + 0x8000_0000_0000_0000 }
        }
    }

    /// The number without its sign.
    pub fn abs(self) -> (r: Double)
        ensures
            r@ == self@.absolute(),
    {
        if self.bits >= 0x8000_0000_0000_0000 {
            Double { bits: self.bits - 0x8000_0000_0000_0000 }
        } else {
            self
        }
    }

    /// The difference, rounded to the nearest number.
    pub fn sub(self, other: Double) -> (r: Double)
        ensures
            r@ == self@.minus(other@),
    {
        self.add(other.neg())
    }

    /// The sum, rounded to the nearest number.
    pub fn add(self, other: Double) -> (r: Double)
        ensures
            r@ == self@.plus(other@),
    {
        match (self.parts(), other.parts()) {
            (Parts::Nan, _) => Double::not_a_number(),
            (_, Parts::Nan) => Double::not_a_number(),
            (
                Parts::Infinite { negative: a },
                Parts::Infinite { negative: b },
            ) => if a != b {
                Double::not_a_number()
            } else {
                self
            },
            (Parts::Infinite { negative: a }, _) => self,
            (_, Parts::Infinite { negative: b }) => other,
            (
                Parts::Finite { negative: a, mantissa: ma, exponent: ea },
                Parts::Finite { negative: b, mantissa: mb, exponent: eb },
            ) => {
                if ea >= eb {
                    Self::combine(a, ma, ea, b, mb, eb)
                } else {
                    Self::combine(b, mb, eb, a, ma, ea)
                }
            },
        }
    }

    /// The sum of two finite numbers, the one with the greater exponent first.
    fn combine(a: bool, ma: u64, ea: i32, b: bool, mb: u64, eb: i32) -> (r: Double)
        requires
            (Number::Finite { negative: a, mantissa: ma as int, exponent: ea as int }).representable(),
            (Number::Finite { negative: b, mantissa: mb as int, exponent: eb as int }).representable(),
            eb <= ea,
        ensures
            r@ == (Number::Finite {
                negative: a,
                mantissa: ma as int,
                exponent: ea as int,
            }).plus(Number::Finite { negative: b, mantissa: mb as int, exponent: eb as int }),
    {
        let ghost d: nat = pow2(1074);
        let ghost na: nat = (ma * pow2((ea + 1074) as nat)) as nat;
        let ghost nb: nat = (mb * pow2((eb + 1074) as nat)) as nat;
        let large: u128 = ma as u128 * 0x1_0000_0000_0000_0000;
        let e: i32 = ea - 64;
        proof {
            lemma_widened(ma as nat, ea as int);
        }
        let (small, cut): (u128, Remainder) = Self::aligned(mb, eb, ea);
        proof {
            lemma_pow2_pos(1074);
            lemma_pow2_pos((e + 2400) as nat);
            assert(0 < d * pow2((e + 2400) as nat)) by (nonlinear_arith)
                requires
                    0 < d,
                    0 < pow2((e + 2400) as nat),
            ;
        }
        let ghost unit: int = (d * pow2((e + 2400) as nat)) as int;
        let ghost one: int = pow2(2400) as int;
        if a == b {
            let whole: u128 = large + small;
            proof {
                assert((na + nb) * one == na * one + nb * one) by (nonlinear_arith);
                assert(whole * unit == large * unit + small * unit) by (nonlinear_arith)
                    requires
                        whole == large + small,
                ;
            }
            let r: Double = round_located(a, whole, e, cut, Ghost(na + nb), Ghost(d));
            proof {
                if na + nb == 0 {
                    lemma_nearest_zero(a, d);
                }
            }
            r
        } else if small < large || (small == large && cut == Remainder::Zero) {
            let whole: u128 = match cut {
                Remainder::Zero => large - small,
                _ => large - small - 1,
            };
            let flipped: Remainder = match cut {
                Remainder::Zero => Remainder::Zero,
                Remainder::BelowHalf => Remainder::AboveHalf,
                Remainder::Half => Remainder::Half,
                Remainder::AboveHalf => Remainder::BelowHalf,
            };
            let ghost rest: int = nb * one - small * unit;
            proof {
                assert(whole * unit == large * unit - small * unit - (if cut is Zero {
                    0
                } else {
                    unit
                })) by (nonlinear_arith)
                    requires
                        whole == large - small - (if cut is Zero {
                            0int
                        } else {
                            1int
                        }),
                ;
                assert((na - nb) * one == na * one - nb * one) by (nonlinear_arith);
                assert((na - nb) * one >= 0) by (nonlinear_arith)
                    requires
                        (na - nb) * one == large * unit - small * unit - rest,
                        0 <= rest < unit,
                        small < large || (small == large && rest == 0),
                ;
                lemma_pow2_pos(2400);
                assert(na - nb >= 0) by (nonlinear_arith)
                    requires
                        (na - nb) * one >= 0,
                        one > 0,
                ;
                if small == large {
                    assert(small * unit == large * unit);
                    assert((na - nb) * one == 0);
                    assert(na - nb == 0) by (nonlinear_arith)
                        requires
                            (na - nb) * one == 0,
                            one > 0,
                    ;
                } else {
                    assert((na - nb) * one > 0) by (nonlinear_arith)
                        requires
                            (na - nb) * one == large * unit - small * unit - rest,
                            0 <= rest < unit,
                            small < large,
                    ;
                    assert(na - nb > 0) by (nonlinear_arith)
                        requires
                            (na - nb) * one > 0,
                            one > 0,
                    ;
                }
            }
            if small == large {
                Double::finite(false, 0, -1074)
            } else {
                round_located(a, whole, e, flipped, Ghost((na - nb) as nat), Ghost(d))
            }
        } else {
            let whole: u128 = small - large;
            let ghost rest: int = nb * one - small * unit;
            proof {
                assert(whole * unit == small * unit - large * unit) by (nonlinear_arith)
                    requires
                        whole == small - large,
                ;
                assert((nb - na) * one == nb * one - na * one) by (nonlinear_arith);
                assert((nb - na) * one > 0) by (nonlinear_arith)
                    requires
                        (nb - na) * one == small * unit - large * unit + rest,
                        0 <= rest < unit,
                        large < small || (small == large && rest > 0),
                ;
                assert(nb - na > 0) by (nonlinear_arith)
                    requires
                        (nb - na) * one > 0,
                        one >= 0,
                ;
            }
            round_located(b, whole, e, cut, Ghost((nb - na) as nat), Ghost(d))
        }
    }

    /// A finite number in units of `2^(ea - 64)`.
    fn aligned(mb: u64, eb: i32, ea: i32) -> (r: (u128, Remainder))
        requires
            mb < 0x20_0000_0000_0000,
            -1074 <= eb <= ea <= 971,
        ensures
            crate::double::rounding::located(
                (mb * pow2((eb + 1074) as nat)) as nat,
                pow2(1074),
                r.0 as nat,
                ea - 64,
                r.1,
            ),
            r.0 < 0x20_0000_0000_0000_0000_0000_0000_0000,
            r.1 is Zero || r.0 < 0x10_0000_0000_0000,
            r.1 is Zero || eb < ea,
    {
        let ghost n: nat = (mb * pow2((eb + 1074) as nat)) as nat;
        let ghost d: nat = pow2(1074);
        let mut m: u128 = mb as u128 * 0x1_0000_0000_0000_0000;
        let mut e: i32 = eb - 64;
        let mut count: i32 = 64;
        proof {
            lemma_widened(mb as nat, eb as int);
            lemma2_to64();
        }
        // The first 64 halvings are exact.
        while e < ea - 64 && count > 0
            invariant
                crate::double::rounding::located(n, d, m as nat, e as int, Remainder::Zero),
                -1074 <= eb <= ea <= 971,
                e + count == eb,
                0 <= count <= 64,
                e <= ea - 64,
                m == mb * pow2(count as nat),
                m < 0x20_0000_0000_0000_0000_0000_0000_0000,
            decreases count,
        {
            let next: Remainder = halved(m % 2 == 1, Remainder::Zero);
            proof {
                lemma_pow2_unfold(count as nat);
                let lower = pow2((count - 1) as nat);
                assert(m == 2 * (mb * lower)) by (nonlinear_arith)
                    requires
                        m == mb * pow2(count as nat),
                        pow2(count as nat) == 2 * lower,
                ;
                assert(next is Zero) by {
                    assert(crate::double::rounding::describes(Remainder::Zero, 0, 1));
                    assert(crate::double::rounding::describes(next, 0, 2));
                }
                crate::double::rounding::lemma_located_halved(n, d, m as nat, e as int, Remainder::Zero, next);
            }
            m = m / 2;
            e = e + 1;
            count = count - 1;
        }
        let mut remainder: Remainder = Remainder::Zero;
        proof {
            lemma2_to64();
            if count == 0 {
                assert(m == mb) by (nonlinear_arith)
                    requires
                        m == mb * pow2(0),
                        pow2(0) == 1,
                ;
            }
        }
        while e < ea - 64
            invariant
                crate::double::rounding::located(n, d, m as nat, e as int, remainder),
                -1138 <= e <= ea - 64,
                ea <= 971,
                e < ea - 64 ==> m < 0x20_0000_0000_0000,
                e < ea - 64 ==> eb < ea,
                m < 0x20_0000_0000_0000_0000_0000_0000_0000,
                remainder is Zero || m < 0x10_0000_0000_0000,
                remainder is Zero || eb < ea,
            decreases ea - e,
        {
            let next: Remainder = halved(m % 2 == 1, remainder);
            proof {
                crate::double::rounding::lemma_located_halved(n, d, m as nat, e as int, remainder, next);
            }
            m = m / 2;
            e = e + 1;
            remainder = next;
        }
        (m, remainder)
    }
}

/// A finite number is exactly `mantissa * 2^64` in units 64 powers of two finer.
proof fn lemma_widened(m: nat, e: int)
    requires
        -1074 <= e <= 971,
    ensures
        crate::double::rounding::located(
            m * pow2((e + 1074) as nat),
            pow2(1074),
            m * 0x1_0000_0000_0000_0000,
            e - 64,
            Remainder::Zero,
        ),
{
    let n = m * pow2((e + 1074) as nat);
    let d = pow2(1074);
    let wide = pow2((e - 64 + 2400) as nat);
    lemma2_to64();
    lemma_pow2_pos(1074);
    lemma_pow2_adds((e + 1074) as nat, 2400);
    lemma_pow2_adds(1074, (e + 2336) as nat);
    lemma_pow2_adds(64, (e + 3410) as nat);
    let p = pow2((e + 1074) as nat);
    assert(n * pow2(2400) == (m * 0x1_0000_0000_0000_0000) * (d * wide)) by (nonlinear_arith)
        requires
            n == m * p,
            p * pow2(2400) == 0x1_0000_0000_0000_0000 * (d * wide),
    ;
    lemma_exactly_located(n, d, m * 0x1_0000_0000_0000_0000, e - 64);
}

pub proof fn lemma_nearest_zero(negative: bool, d: nat)
    requires
        0 < d,
    ensures
        Number::nearest(negative, 0, d) == Number::zero(negative),
{
    lemma2_to64();
    assert(0 * pow2(2400) == 0 * (d * pow2((-1074 + 2400) as nat)));
    lemma_exactly_located(0, d, 0, -1074);
    crate::double::rounding::lemma_located_nearest(0, d, 0, -1074, Remainder::Zero);
}

proof fn lemma_describes_widened(remainder: Remainder, rest: int, unit: int, common: int)
    requires
        crate::double::rounding::describes(remainder, rest, unit),
        0 < common,
    ensures
        crate::double::rounding::describes(remainder, rest * common, unit * common),
{
    assert(0 < unit ==> 0 < unit * common) by (nonlinear_arith)
        requires
            0 < common,
    ;
    assert(0 < rest ==> 0 < rest * common) by (nonlinear_arith)
        requires
            0 < common,
    ;
    assert(2 * rest < unit ==> 2 * (rest * common) < unit * common) by (nonlinear_arith)
        requires
            0 < common,
    ;
    assert(2 * rest == unit ==> 2 * (rest * common) == unit * common) by (nonlinear_arith);
    assert(unit < 2 * rest ==> unit * common < 2 * (rest * common)) by (nonlinear_arith)
        requires
            0 < common,
    ;
    assert(rest < unit ==> rest * common < unit * common) by (nonlinear_arith)
        requires
            0 < common,
    ;
    assert(0 * common == 0);
}

} // verus!
