use vstd::prelude::*;

use crate::double::{Double, Number};

verus! {

/// The steps by which the controllers scale.
pub struct Scaling;

impl Scaling {
    /// A resource grown by `tenths / 10`, up to its limit.
    pub open spec fn grown(value: Double, tenths: nat, max: Double) -> Number {
        value@.times(Number::ratio(tenths, 10)).lesser(max@)
    }

    /// A resource cut by a tenth, down to its limit, where it is hardly used.
    pub open spec fn cut(value: Double, util: Double, min: Double) -> Number {
        if min@.below(value@) && util@.below(Number::integer(20)) {
            value@.times(Number::ratio(9, 10)).greater(min@)
        } else {
            value@
        }
    }

    /// One replica fewer, or a fifth fewer where there are more than five; never under `min`.
    pub open spec fn fewer_replicas(now: u32, min: u32) -> nat {
        let fewer = if now <= 5 {
            (now - 1) as nat
        } else {
            (now * 8 / 10) as nat
        };
        if now <= min {
            now as nat
        } else if fewer < min {
            min as nat
        } else {
            fewer
        }
    }

    pub open spec fn limited_replicas(wanted: nat, min: u32, max: u32) -> nat {
        if wanted < min {
            min as nat
        } else if wanted > max {
            max as nat
        } else {
            wanted
        }
    }

    pub fn grow(value: Double, tenths: u64, max: Double) -> (r: Double)
        requires
            tenths < 0x20_0000_0000_0000,
        ensures
            r@ == Self::grown(value, tenths as nat, max),
    {
        value.mul(Double::ratio(tenths, 10)).min(max)
    }

    pub fn reduce(value: Double, util: Double, min: Double) -> (r: Double)
        ensures
            r@ == Self::cut(value, util, min),
    {
        if value.gt(min) && util.lt(Double::from_u32(20)) {
            value.mul(Double::ratio(9, 10)).max(min)
        } else {
            value
        }
    }

    pub fn remove_replicas(now: u32, min: u32) -> (r: u32)
        ensures
            r == Self::fewer_replicas(now, min),
    {
        if now <= min {
            return now;
        }
        let fewer: u32 = if now <= 5 {
            now - 1
        } else {
            proof {
                crate::double::decimals::law_eight_tenths_floor(now as nat, u32::MAX as nat);
            }
            Double::from_u32(now).mul(Double::ratio(8, 10)).to_u32()
        };
        if fewer < min {
            min
        } else {
            fewer
        }
    }

    pub fn limit_replicas(wanted: u32, min: u32, max: u32) -> (r: u32)
        requires
            min <= max,
        ensures
            r == Self::limited_replicas(wanted as nat, min, max),
    {
        if wanted < min {
            min
        } else if wanted > max {
            max
        } else {
            wanted
        }
    }
}

/// Growing does not lower a value that is within its limits.
pub proof fn lemma_grown(value: Double, max: Double)
    requires
        value@ is Finite,
        Number::zero(false).at_most(value@),
        value@.at_most(max@),
    ensures
        value@.at_most(Scaling::grown(value, 12, max)),
        value@.at_most(Scaling::grown(value, 13, max)),
{
    crate::double::decimals::lemma_representable(value);
    if value@.is_negative() {
        lemma_negative_zero(value, 12);
        lemma_negative_zero(value, 13);
    } else {
        crate::double::decimals::law_factor_does_not_shrink(value@, 12, 10);
        crate::double::decimals::law_factor_does_not_shrink(value@, 13, 10);
    }
}

/// Cutting does not raise a value that is within its limits.
pub proof fn lemma_cut(value: Double, min: Double)
    requires
        value@ is Finite,
        Number::zero(false).at_most(value@),
        min@.at_most(value@),
    ensures
        value@.times(Number::ratio(9, 10)).greater(min@).at_most(value@),
{
    crate::double::decimals::lemma_representable(value);
    if value@.is_negative() {
        lemma_negative_zero(value, 9);
    } else {
        crate::double::decimals::law_factor_does_not_grow(value@, 9, 10);
    }
}

/// Negative zero stays what it is.
proof fn lemma_negative_zero(value: Double, tenths: nat)
    requires
        value@ is Finite,
        value@.is_negative(),
        Number::zero(false).at_most(value@),
        tenths < 100,
    ensures
        value@.times(Number::ratio(tenths, 10)) == Number::zero(true),
        Number::zero(true).scaled() == 0,
        value@.scaled() == 0,
{
    crate::double::decimals::lemma_ratio_finite(tenths, 10);
    crate::double::laws::law_rounding_representable(false, tenths, 10);
    vstd::arithmetic::power2::lemma_pow2_pos(2148);
    crate::double::arithmetic::lemma_nearest_zero(true, vstd::arithmetic::power2::pow2(2148));
    assert(0 * Number::ratio(tenths, 10).magnitude() == 0) by (nonlinear_arith);
}

} // verus!
