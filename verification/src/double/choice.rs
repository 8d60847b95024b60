//! Choosing between numbers, and the numbers that are none.

use vstd::arithmetic::power2::*;
use vstd::prelude::*;

use crate::double::Number;

verus! {

/// The lesser of two numbers is one of them and over neither; the greater is the other way about.
/// Where one is NaN, both are the other one.
pub proof fn law_lesser_and_greater(x: Number, y: Number)
    ensures
        x !is Nan && y !is Nan ==> {
            &&& x.lesser(y) == x || x.lesser(y) == y
            &&& x.lesser(y).at_most(x) && x.lesser(y).at_most(y)
            &&& x.greater(y) == x || x.greater(y) == y
            &&& x.at_most(x.greater(y)) && y.at_most(x.greater(y))
        },
        x is Nan ==> x.lesser(y) == y && x.greater(y) == y,
        y is Nan ==> x.lesser(y) == x && x.greater(y) == x,
{
}

/// A number within two bounds stays; one beyond a bound becomes that bound.
pub proof fn law_clamped(x: Number, low: Number, high: Number)
    requires
        low.at_most(high),
    ensures
        low.at_most(x) && x.at_most(high) ==> x.clamped(low, high) == x,
        x.below(low) ==> x.clamped(low, high) == low,
        high.below(x) ==> x.clamped(low, high) == high,
        x is Nan ==> x.clamped(low, high) is Nan,
{
}

/// Less than comes down to the exact values: nothing is less than itself, NaN is less than nothing
/// and nothing than it, and infinity is beyond every finite number.
pub proof fn law_order(x: Number, y: Number, z: Number)
    ensures
        x is Finite && y is Finite ==> x.below(y) == (x.scaled() < y.scaled()),
        !x.below(x),
        x is Nan || y is Nan ==> !x.below(y) && !x.at_most(y),
        x is Finite && y is Infinite ==> x.below(y) == !y.is_negative(),
        x is Infinite && y is Finite ==> x.below(y) == x.is_negative(),
        x.below(y) && y.below(z) ==> x.below(z),
        x !is Nan && y !is Nan ==> x.below(y) || y.at_most(x),
{
}

/// The distance from zero has the size of the number and no sign.
pub proof fn law_absolute(x: Number)
    ensures
        !x.absolute().is_negative(),
        x is Finite ==> x.absolute() is Finite && x.absolute().magnitude() == x.magnitude(),
        !x.is_negative() ==> x.absolute() == x,
        x.negated().negated() == x,
        x is Finite ==> x.negated().scaled() == -x.scaled(),
{
}

/// As an integer, what is below zero is 0, and so is NaN; infinity is the greatest integer there
/// is, whichever way a number is rounded.
pub proof fn law_no_integer(x: Number, limit: nat)
    ensures
        x is Nan || x.is_negative() ==> x.truncated(limit) == 0 && x.ceiling(limit) == 0
            && x.rounded(limit) == 0,
        x == (Number::Infinite { negative: false }) ==> x.truncated(limit) == limit && x.ceiling(
            limit,
        ) == limit && x.rounded(limit) == limit,
{
}

/// NaN stays NaN in every operation. Infinity stays infinity, but for the sums and products that
/// have no value; a finite number is nothing beside it.
pub proof fn law_special_values(x: Number, y: Number)
    ensures
        x is Nan || y is Nan ==> x.times(y) is Nan && x.over(y) is Nan && x.plus(y) is Nan
            && x.minus(y) is Nan,
        x is Infinite && y is Finite ==> x.plus(y) == x && x.minus(y) == x && x.over(y)
            is Infinite,
        x is Finite && y is Infinite ==> x.plus(y) == y && x.over(y).is_zero(),
        x is Infinite && y is Infinite && x.is_negative() != y.is_negative() ==> x.plus(y) is Nan,
        x is Infinite && y is Infinite && x.is_negative() == y.is_negative() ==> x.minus(y) is Nan
            && x.plus(y) == x,
        x is Infinite && y is Infinite ==> x.over(y) is Nan,
        x is Infinite && y.is_zero() ==> x.times(y) is Nan,
        x is Infinite && y !is Nan && !y.is_zero() ==> x.times(y) is Infinite && x.times(
            y,
        ).is_negative() == (x.is_negative() != y.is_negative()),
        x is Finite && !x.is_zero() && y.is_zero() ==> x.over(y) is Infinite,
        x.is_zero() && y.is_zero() ==> x.over(y) is Nan,
{
}

/// Sums and products do not depend on the order of the two numbers.
pub proof fn law_either_order(x: Number, y: Number)
    ensures
        x.times(y) == y.times(x),
        x.plus(y) == y.plus(x),
{
    assert(x.magnitude() * y.magnitude() == y.magnitude() * x.magnitude()) by (nonlinear_arith);
}

/// A number less itself is nothing, and over itself it is one.
pub proof fn law_itself(x: Number)
    requires
        x is Finite,
        x.magnitude() > 0,
    ensures
        x.minus(x) == Number::zero(false),
        x.over(x) == Number::integer(1),
{
    assert(x.negated().scaled() == -x.scaled());
    assert(!x.is_zero()) by {
        if x.is_zero() {
            let exponent = x->Finite_exponent;
            assert(0 * pow2((exponent + 1074) as nat) == 0) by (nonlinear_arith);
        }
    }
    crate::double::errors::law_ratio_in_any_terms(false, 1, 1, x.magnitude());
}

} // verus!
