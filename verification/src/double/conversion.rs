use vstd::arithmetic::power2::*;
use vstd::prelude::*;

use crate::double::{Double, Number, Parts};
use crate::double::rounding::{halved, round_located, Remainder};

verus! {

impl Double {
    /// The number nearest to `n / d`.
    pub fn ratio(n: u64, d: u64) -> (r: Double)
        requires
            n < 0x20_0000_0000_0000,
            0 < d < 0x20_0000_0000_0000,
        ensures
            r@ == Number::ratio(n as nat, d as nat),
    {
        proof {
            lemma2_to64();
            assert(n * pow2(0) == n);
            assert(d * pow2(0) == d);
        }
        Double::divide(false, n, -1074, d, -1074)
    }

    /// The number nearest to an integer.
    pub fn from_u64(n: u64) -> (r: Double)
        ensures
            r@ == Number::integer(n as nat),
    {
        proof {
            assert(n * pow2(2400) == n * (1 * pow2(2400)));
            crate::double::arithmetic::lemma_exactly_located(n as nat, 1, n as nat, 0);
        }
        round_located(false, n as u128, 0, Remainder::Zero, Ghost(n as nat), Ghost(1nat))
    }

    pub fn from_u32(n: u32) -> (r: Double)
        ensures
            r@ == Number::integer(n as nat),
    {
        Double::from_u64(n as u64)
    }

    /// The whole part of a finite magnitude and what it leaves, unless it is over `u64::MAX`.
    fn whole(mantissa: u64, exponent: i32) -> (r: Option<(u64, Remainder)>)
        requires
            mantissa < 0x20_0000_0000_0000,
            -1074 <= exponent <= 971,
        ensures
            match r {
                Some((whole, remainder)) => crate::double::rounding::describes(
                    remainder,
                    mantissa * pow2((exponent + 1074) as nat) - whole * pow2(1074),
                    pow2(1074) as int,
                ),
                None => mantissa * pow2((exponent + 1074) as nat) >= 0x1_0000_0000_0000_0000
                    * pow2(1074),
            },
    {
        let ghost n: nat = (mantissa * pow2((exponent + 1074) as nat)) as nat;
        let ghost d: nat = pow2(1074);
        let mut m: u64 = mantissa;
        let mut e: i32 = exponent;
        let mut remainder: Remainder = Remainder::Zero;
        proof {
            let p = pow2((exponent + 1074) as nat);
            let wide = pow2((exponent + 2400) as nat);
            lemma_pow2_pos(1074);
            lemma_pow2_adds((exponent + 1074) as nat, 2400);
            lemma_pow2_adds(1074, (exponent + 2400) as nat);
            assert(n * pow2(2400) == mantissa * (d * wide)) by (nonlinear_arith)
                requires
                    n == mantissa * p,
                    p * pow2(2400) == d * wide,
            ;
            crate::double::arithmetic::lemma_exactly_located(n, d, mantissa as nat, exponent as int);
        }
        while e < 0
            invariant
                crate::double::rounding::located(n, d, m as nat, e as int, remainder),
                -1074 <= e <= 971,
                e > 0 ==> remainder is Zero,
            decreases -e,
        {
            let next: Remainder = halved(m % 2 == 1, remainder);
            proof {
                crate::double::rounding::lemma_located_halved(n, d, m as nat, e as int, remainder, next);
            }
            m = m / 2;
            e = e + 1;
            remainder = next;
        }
        while e > 0
            invariant
                crate::double::rounding::located(n, d, m as nat, e as int, remainder),
                0 <= e <= 971,
                d == pow2(1074),
                e > 0 ==> remainder is Zero,
                n == mantissa * pow2((exponent + 1074) as nat),
            decreases e,
        {
            if m >= 0x8000_0000_0000_0000 {
                proof {
                    lemma_too_large(n, m as nat, e as int);
                }
                return None;
            }
            proof {
                crate::double::rounding::lemma_located_doubled(n, d, m as nat, e as int);
            }
            m = 2 * m;
            e = e - 1;
        }
        proof {
            let one = pow2(2400);
            lemma_pow2_pos(2400);
            assert(n * one - m * (d * one) == (n - m * d) * one) by (nonlinear_arith);
            crate::double::rounding::lemma_describes_scaled(
                remainder,
                n - m * d,
                d as int,
                one as int,
            );
        }
        Some((m, remainder))
    }

    /// The number without its fraction.
    pub fn to_u64(self) -> (r: u64)
        ensures
            r == self@.truncated(u64::MAX as nat),
    {
        match self.parts() {
            Parts::Nan => 0,
            Parts::Infinite { negative } => if negative {
                0
            } else {
                u64::MAX
            },
            Parts::Finite { negative, mantissa, exponent } => {
                if negative {
                    return 0;
                }
                match Self::whole(mantissa, exponent) {
                    Some((whole, remainder)) => {
                        proof {
                            lemma_split(self@.magnitude(), whole as nat, remainder);
                        }
                        whole
                    },
                    None => {
                        proof {
                            lemma_beyond(self@.magnitude());
                        }
                        u64::MAX
                    },
                }
            },
        }
    }

    /// The least integer that is not below the number.
    pub fn ceil_to_u64(self) -> (r: u64)
        ensures
            r == self@.ceiling(u64::MAX as nat),
    {
        match self.parts() {
            Parts::Nan => 0,
            Parts::Infinite { negative } => if negative {
                0
            } else {
                u64::MAX
            },
            Parts::Finite { negative, mantissa, exponent } => {
                if negative {
                    return 0;
                }
                match Self::whole(mantissa, exponent) {
                    Some((whole, remainder)) => {
                        proof {
                            lemma_split(self@.magnitude(), whole as nat, remainder);
                        }
                        if remainder == Remainder::Zero || whole == u64::MAX {
                            whole
                        } else {
                            whole + 1
                        }
                    },
                    None => {
                        proof {
                            lemma_beyond(self@.magnitude());
                        }
                        u64::MAX
                    },
                }
            },
        }
    }

    /// The nearest integer, half rounded up.
    pub fn round_to_u64(self) -> (r: u64)
        ensures
            r == self@.rounded(u64::MAX as nat),
    {
        match self.parts() {
            Parts::Nan => 0,
            Parts::Infinite { negative } => if negative {
                0
            } else {
                u64::MAX
            },
            Parts::Finite { negative, mantissa, exponent } => {
                if negative {
                    return 0;
                }
                match Self::whole(mantissa, exponent) {
                    Some((whole, remainder)) => {
                        proof {
                            lemma_split(self@.magnitude(), whole as nat, remainder);
                        }
                        let up: bool = match remainder {
                            Remainder::Half => true,
                            Remainder::AboveHalf => true,
                            _ => false,
                        };
                        if up && whole < u64::MAX {
                            whole + 1
                        } else {
                            whole
                        }
                    },
                    None => {
                        proof {
                            lemma_beyond(self@.magnitude());
                        }
                        u64::MAX
                    },
                }
            },
        }
    }

    pub fn to_u32(self) -> (r: u32)
        ensures
            r == self@.truncated(u32::MAX as nat),
    {
        let wide: u64 = self.to_u64();
        if wide > 0xffff_ffff {
            0xffff_ffff
        } else {
            wide as u32
        }
    }

    pub fn ceil_to_u32(self) -> (r: u32)
        ensures
            r == self@.ceiling(u32::MAX as nat),
    {
        let wide: u64 = self.ceil_to_u64();
        if wide > 0xffff_ffff {
            0xffff_ffff
        } else {
            wide as u32
        }
    }

    pub fn round_to_u32(self) -> (r: u32)
        ensures
            r == self@.rounded(u32::MAX as nat),
    {
        let wide: u64 = self.round_to_u64();
        if wide > 0xffff_ffff {
            0xffff_ffff
        } else {
            wide as u32
        }
    }

    pub fn to_usize(self) -> (r: usize)
        ensures
            r == self@.truncated(usize::MAX as nat),
    {
        let wide: u64 = self.to_u64();
        if wide > usize::MAX as u64 {
            usize::MAX
        } else {
            wide as usize
        }
    }

    pub fn ceil_to_usize(self) -> (r: usize)
        ensures
            r == self@.ceiling(usize::MAX as nat),
    {
        let wide: u64 = self.ceil_to_u64();
        if wide > usize::MAX as u64 {
            usize::MAX
        } else {
            wide as usize
        }
    }

    pub fn round_to_usize(self) -> (r: usize)
        ensures
            r == self@.rounded(usize::MAX as nat),
    {
        let wide: u64 = self.round_to_u64();
        if wide > usize::MAX as u64 {
            usize::MAX
        } else {
            wide as usize
        }
    }
}

proof fn lemma_too_large(n: nat, m: nat, e: int)
    requires
        crate::double::rounding::located(n, pow2(1074), m, e, Remainder::Zero),
        m >= 0x8000_0000_0000_0000,
        e > 0,
    ensures
        n >= 0x1_0000_0000_0000_0000 * pow2(1074),
{
    let one = pow2(2400);
    let d = pow2(1074);
    lemma_pow2_pos(2400);
    lemma_pow2_adds(2400, e as nat);
    lemma_pow2_unfold(e as nat);
    lemma_pow2_pos((e - 1) as nat);
    let more = pow2(e as nat);
    assert(n >= 0x1_0000_0000_0000_0000 * d) by (nonlinear_arith)
        requires
            n * one == m * (d * (one * more)),
            one > 0,
            more >= 2,
            m >= 0x8000_0000_0000_0000,
    {
        assert(m * (d * (one * more)) == (m * more * d) * one);
        assert(n == m * more * d);
        assert(m * more >= 0x1_0000_0000_0000_0000);
    }
}

/// The three roundings of a magnitude, from its whole part.
proof fn lemma_split(magnitude: nat, whole: nat, remainder: Remainder)
    requires
        crate::double::rounding::describes(
            remainder,
            magnitude - whole * pow2(1074),
            pow2(1074) as int,
        ),
    ensures
        magnitude / pow2(1074) == whole,
        (magnitude + pow2(1074) - 1) / (pow2(1074) as int) == if remainder is Zero {
            whole
        } else {
            whole + 1
        },
        (2 * magnitude + pow2(1074)) / (2 * pow2(1074)) == if remainder is Half || remainder
            is AboveHalf {
            whole + 1
        } else {
            whole
        },
{
    let unit = pow2(1074) as int;
    let rest = magnitude - whole * unit;
    lemma_pow2_pos(1074);
    vstd::arithmetic::div_mod::lemma_fundamental_div_mod_converse(
        magnitude as int,
        unit,
        whole as int,
        rest,
    );
    if remainder is Zero {
        vstd::arithmetic::div_mod::lemma_fundamental_div_mod_converse(
            magnitude + unit - 1,
            unit,
            whole as int,
            unit - 1,
        );
    } else {
        assert((whole + 1) * unit == whole * unit + unit) by (nonlinear_arith);
        vstd::arithmetic::div_mod::lemma_fundamental_div_mod_converse(
            magnitude + unit - 1,
            unit,
            whole as int + 1,
            rest - 1,
        );
    }
    if remainder is Half || remainder is AboveHalf {
        assert((whole + 1) * (2 * unit) == 2 * (whole * unit) + 2 * unit) by (nonlinear_arith);
        vstd::arithmetic::div_mod::lemma_fundamental_div_mod_converse(
            2 * magnitude + unit,
            2 * unit,
            whole as int + 1,
            2 * rest - unit,
        );
    } else {
        assert(whole * (2 * unit) == 2 * (whole * unit)) by (nonlinear_arith);
        vstd::arithmetic::div_mod::lemma_fundamental_div_mod_converse(
            2 * magnitude + unit,
            2 * unit,
            whole as int,
            2 * rest + unit,
        );
    }
}

proof fn lemma_beyond(magnitude: nat)
    requires
        magnitude >= 0x1_0000_0000_0000_0000 * pow2(1074),
    ensures
        magnitude / pow2(1074) > u64::MAX,
        (magnitude + pow2(1074) - 1) / (pow2(1074) as int) > u64::MAX,
        (2 * magnitude + pow2(1074)) / (2 * pow2(1074)) > u64::MAX,
{
    let unit = pow2(1074) as int;
    lemma_pow2_pos(1074);
    lemma_at_least(magnitude as int, unit, 0x1_0000_0000_0000_0000);
    lemma_at_least(magnitude + unit - 1, unit, 0x1_0000_0000_0000_0000);
    assert(2 * magnitude >= 0x1_0000_0000_0000_0000 * (2 * unit));
    lemma_at_least(2 * magnitude + unit, 2 * unit, 0x1_0000_0000_0000_0000);
}

proof fn lemma_at_least(x: int, unit: int, quotient: int)
    requires
        unit > 0,
        x >= quotient * unit,
    ensures
        x / unit >= quotient,
{
    vstd::arithmetic::div_mod::lemma_div_is_ordered(quotient * unit, x, unit);
    vstd::arithmetic::div_mod::lemma_div_multiples_vanish(quotient, unit);
    assert(unit * quotient == quotient * unit) by (nonlinear_arith);
}

} // verus!
