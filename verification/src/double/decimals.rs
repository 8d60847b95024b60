use vstd::arithmetic::div_mod::*;
use vstd::arithmetic::power2::*;
use vstd::prelude::*;

use crate::double::laws;
use crate::double::Number;

verus! {

/// `2^1074` in terms of a lower power.
proof fn lemma_one_unit()
    ensures
        pow2(1074) == pow2(1022) * 0x10_0000_0000_0000,
        pow2(1022) == pow2(1021) * 2,
        pow2(1021) > 0,
        pow2(1074) * pow2(1074) == pow2(2148),
        pow2(2148) > 0,
{
    lemma_pow2_pos(2148);
    lemma_pow2_adds(1022, 52);
    lemma_pow2_adds(1021, 1);
    lemma_pow2_adds(1074, 1074);
    lemma_pow2_pos(1021);
    lemma2_to64();
    assert(pow2(52) == 0x10_0000_0000_0000) by {
        lemma_pow2_adds(32, 20);
        assert(0x1_0000_0000 * 0x10_0000 == 0x10_0000_0000_0000);
    }
}

/// Where the spacing of `t / 10` is known, its number is found by dividing.
proof fn lemma_tenths(t: nat, step: nat, scale: int, below: int, rest: int)
    requires
        Number::spaced_by(t, 10, step),
        step + 51 <= 1074 + 971,
        pow2(1074) == pow2(step) * scale,
        t * scale == 10 * below + rest,
        0 <= rest < 10,
        rest != 5,
        0 <= below < 0x1f_ffff_ffff_ffff,
    ensures
        Number::ratio(t, 10) is Finite,
        !Number::ratio(t, 10).is_negative(),
        rest < 5 ==> Number::ratio(t, 10).magnitude() == below * pow2(step),
        rest > 5 ==> Number::ratio(t, 10).magnitude() == (below + 1) * pow2(step),
{
    laws::lemma_spacing_exists(t, 10);
    crate::double::rounding::lemma_spacing_unique(t, 10, step, Number::spacing(t, 10));
    let p = pow2(step) as int;
    lemma_pow2_pos(step);
    let unit = (10 * pow2(step)) as int;
    let exact = (t * pow2(1074)) as int;
    assert(exact == unit * below + rest * p) by (nonlinear_arith)
        requires
            exact == t * (p * scale),
            unit == 10 * p,
            t * scale == 10 * below + rest,
    ;
    assert(0 <= rest * p < unit) by (nonlinear_arith)
        requires
            0 <= rest < 10,
            0 < p,
            unit == 10 * p,
    ;
    assert((2 * (rest * p) > unit) == (rest > 5)) by (nonlinear_arith)
        requires
            0 < p,
            unit == 10 * p,
    ;
    assert((2 * (rest * p) == unit) == (rest == 5)) by (nonlinear_arith)
        requires
            0 < p,
            unit == 10 * p,
    ;
    lemma_fundamental_div_mod_converse(exact, unit, below, rest * p);
    let multiple = Number::nearest_multiple(t, 10, step);
    assert(multiple == if rest > 5 {
        below + 1
    } else {
        below
    });
    assert(multiple * p >= 0) by (nonlinear_arith)
        requires
            multiple >= 0,
            p > 0,
    ;
}

/// The number of `t / 10` for the tenths that the controllers use, ten times as large: it is off
/// by very little.
proof fn lemma_tenths_value(t: nat)
    requires
        t == 3 || t == 8 || t == 12 || t == 13 || t == 15,
    ensures
        Number::ratio(t, 10) is Finite,
        !Number::ratio(t, 10).is_negative(),
        t == 3 ==> 10 * Number::ratio(t, 10).magnitude() == t * pow2(1074) - 2 * pow2(1020),
        t == 8 || t == 13 ==> 10 * Number::ratio(t, 10).magnitude() == t * pow2(1074) + 2 * pow2(
            1022,
        ),
        t == 12 ==> 10 * Number::ratio(t, 10).magnitude() == t * pow2(1074) - 2 * pow2(1022),
        t == 15 ==> 10 * Number::ratio(t, 10).magnitude() == t * pow2(1074),
{
    lemma_one_unit();
    if t == 3 {
        lemma_pow2_unfold(1021);
        assert(Number::spaced_by(3, 10, 1020));
        lemma_tenths(3, 1020, 0x40_0000_0000_0000, 5404319552844595, 2);
    } else if t == 8 {
        assert(Number::spaced_by(8, 10, 1021));
        lemma_tenths(8, 1021, 0x20_0000_0000_0000, 7205759403792793, 6);
    } else if t == 12 {
        assert(Number::spaced_by(12, 10, 1022));
        lemma_tenths(12, 1022, 0x10_0000_0000_0000, 5404319552844595, 2);
    } else if t == 13 {
        assert(Number::spaced_by(13, 10, 1022));
        lemma_tenths(13, 1022, 0x10_0000_0000_0000, 5854679515581644, 8);
    } else {
        assert(Number::spaced_by(15, 10, 1022));
        lemma_tenths(15, 1022, 0x10_0000_0000_0000, 6755399441055744, 0);
    }
}

/// A product of a positive count and a factor from a quarter to two is off by at most half of a small
/// unit, of which one is a multiple.
proof fn lemma_product(n: nat, f: Number) -> (unit: int)
    requires
        0 < n <= u32::MAX,
        f is Finite,
        !f.is_negative(),
        pow2(1074) <= 4 * f.magnitude(),
        f.magnitude() <= 2 * pow2(1074),
    ensures
        ({
            let r = Number::integer(n).times(f);
            let exact = n * f.magnitude();
            &&& r is Finite
            &&& !r.is_negative()
            &&& 0 < unit
            &&& -unit <= 2 * (r.magnitude() - exact) <= unit
            &&& exact < unit * 0x20_0000_0000_0000
            &&& unit * 0x10_0000_0000_0000 <= exact
            &&& r.magnitude() % unit as nat == 0
            &&& pow2(1074) % unit as nat == 0
        }),
{
    lemma_one_unit();
    laws::law_integers_exact(n);
    let one = pow2(1074);
    let d = pow2(2148);
    let mag = f.magnitude();
    let product = (n * one) * mag;
    let r = Number::integer(n).times(f);
    assert(product * one == (n * mag) * d) by (nonlinear_arith)
        requires
            product == (n * one) * mag,
            d == one * one,
    ;
    // The product is finite.
    let top = 0x4_0000_0000nat;
    laws::law_integers_exact(top);
    assert((n * mag) * d <= (top * one) * d) by (nonlinear_arith)
        requires
            n <= u32::MAX,
            mag <= 2 * one,
            top == 0x4_0000_0000,
            d > 0,
    ;
    laws::law_rounding_not_above(false, product, d, Number::integer(top));
    laws::lemma_nearest_multiple(product, d);
    laws::lemma_spacing_exists(product, d);
    laws::lemma_nearest_magnitude(false, product, d);
    let step = Number::spacing(product, d);
    let p = pow2(step) as int;
    lemma_pow2_pos(step);
    let multiple = Number::nearest_multiple(product, d, step);
    let exact = n * mag;
    assert(-p <= 2 * (multiple * p - exact) <= p) by (nonlinear_arith)
        requires
            -(d * p) <= 2 * (multiple * (d * p) - exact * d) <= d * p,
            d > 0,
    ;
    assert(exact < p * 0x20_0000_0000_0000) by (nonlinear_arith)
        requires
            exact * d < d * p * 0x20_0000_0000_0000,
            d > 0,
    ;
    assert(one <= 4 * exact) by (nonlinear_arith)
        requires
            exact == n * mag,
            n >= 1,
            one <= 4 * mag,
    ;
    if step == 0 {
        lemma2_to64();
        lemma_pow2_strictly_increases(4, 1021);
    }
    assert(p * 0x10_0000_0000_0000 <= exact) by (nonlinear_arith)
        requires
            d * p * 0x10_0000_0000_0000 <= exact * d,
            d > 0,
    ;
    // The unit is a power of two below one.
    assert(exact <= 0x4_0000_0000 * one) by (nonlinear_arith)
        requires
            exact == n * mag,
            n <= u32::MAX,
            mag <= 2 * one,
            one > 0,
    ;
    assert(p < one) by (nonlinear_arith)
        requires
            p * 0x10_0000_0000_0000 <= exact,
            exact <= 0x4_0000_0000 * one,
            one > 0,
            p > 0,
    ;
    assert(step <= 1074) by {
        if step > 1074 {
            lemma_pow2_strictly_increases(1074, step);
        }
    }
    lemma_pow2_adds(step, (1074 - step) as nat);
    let more = pow2((1074 - step) as nat) as int;
    assert(p * more == more * p) by (nonlinear_arith);
    lemma_mod_multiples_basic(more, p);
    lemma_mod_multiples_basic(multiple, p);
    p
}

proof fn lemma_nothing_times(n: nat, f: Number)
    requires
        n == 0,
        f is Finite,
        !f.is_negative(),
    ensures
        Number::integer(n).times(f) == Number::zero(false),
        Number::integer(n).times(f).magnitude() == 0,
{
    lemma_one_unit();
    laws::law_integers_exact(n);
    let one = pow2(1074);
    assert(n * one == 0) by (nonlinear_arith)
        requires
            n == 0,
    ;
    assert(0 * f.magnitude() == 0) by (nonlinear_arith);
    crate::double::arithmetic::lemma_nearest_zero(false, pow2(2148));
}

/// Multiplying a count by 1.2, 1.3 or 1.5 and rounding up is exact.
pub proof fn law_tenths_ceiling(n: nat, tenths: nat, limit: nat)
    requires
        n <= u32::MAX,
        tenths == 12 || tenths == 13 || tenths == 15,
    ensures
        Number::integer(n).times(Number::ratio(tenths, 10)).ceiling(limit) == ({
            let exact = (n * tenths + 9) / 10;
            if exact > limit {
                limit as int
            } else {
                exact as int
            }
        }),
{
    let f = Number::ratio(tenths, 10);
    let r = Number::integer(n).times(f);
    lemma_one_unit();
    lemma_tenths_value(tenths);
    laws::law_integers_exact(n);
    let one = pow2(1074) as int;
    let p = pow2(1022) as int;
    assert(12 * one <= tenths * one <= 15 * one) by (nonlinear_arith)
        requires
            12 <= tenths <= 15,
            one > 0,
    ;
    if n == 0 {
        assert((one - 1) / one == 0) by {
            lemma_basic_div(one - 1, one);
        }
        lemma_nothing_times(n, f);
    } else {
        let unit = lemma_product(n, f);
        let mag = r.magnitude() as int;
        let exact = n * f.magnitude();
        let whole = (n * tenths + 9) / 10;
        let rest = n * tenths - 10 * (whole - 1);
        assert(1 <= rest <= 10);
        let off = (if tenths == 13 {
            2int
        } else if tenths == 12 {
            -2
        } else {
            0
        });
        assert(10 * exact == 10 * ((whole - 1) * one) + rest * one + n * off * p)
            by (nonlinear_arith)
            requires
                exact == n * f.magnitude(),
                10 * f.magnitude() == tenths * one + off * p,
                rest == n * tenths - 10 * (whole - 1),
        ;
        assert(-0x2_0000_0000 * p <= n * off * p <= 0x2_0000_0000 * p) by (nonlinear_arith)
            requires
                0 <= n <= 0xffff_ffff,
                -2 <= off <= 2,
                p > 0,
        ;
        assert(exact <= 0x2_0000_0000 * one) by (nonlinear_arith)
            requires
                exact == n * f.magnitude(),
                n <= 0xffff_ffff,
                f.magnitude() <= 2 * one,
                one > 0,
        ;
        assert(rest * one >= one) by (nonlinear_arith)
            requires
                rest >= 1,
                one > 0,
        ;
        assert(mag > (whole - 1) * one);
        assert(mag <= whole * one) by {
            assert((whole - 1) * one + one == whole * one) by (nonlinear_arith);
            if rest < 10 {
                assert(rest * one <= 9 * one) by (nonlinear_arith)
                    requires
                        rest <= 9,
                        one > 0,
                ;
            } else if mag > whole * one {
                // Both are multiples of the unit, which is too large for that.
                assert(rest * one == 10 * one) by (nonlinear_arith)
                    requires
                        rest == 10,
                ;
                lemma_apart(mag, whole as int, one, unit);
                assert(n * off * p == off * (n * p)) by (nonlinear_arith);
                assert(10 * (whole * one) == tenths * (n * one)) by (nonlinear_arith)
                    requires
                        10 * whole == n * tenths,
                ;
                assert(n * one == 0x10_0000_0000_0000 * (n * p)) by (nonlinear_arith)
                    requires
                        one == p * 0x10_0000_0000_0000,
                ;
                assert(n * p > 0) by (nonlinear_arith)
                    requires
                        n > 0,
                        p > 0,
                ;
            }
        }
        lemma_ceiling(mag, whole as int, one);
    }
}

/// Of two multiples of a unit, the greater is greater by a unit at least.
proof fn lemma_apart(a: int, count: int, one: int, unit: int)
    requires
        unit > 0,
        a % unit == 0,
        one % unit == 0,
        a > count * one,
    ensures
        a >= count * one + unit,
{
    lemma_fundamental_div_mod(a, unit);
    lemma_fundamental_div_mod(one, unit);
    let x = a / unit;
    let y = count * (one / unit);
    assert(count * one == unit * y) by (nonlinear_arith)
        requires
            one == unit * (one / unit),
            y == count * (one / unit),
    ;
    assert(x > y) by (nonlinear_arith)
        requires
            unit * x > unit * y,
            unit > 0,
    ;
    assert(unit * x >= unit * y + unit) by (nonlinear_arith)
        requires
            x >= y + 1,
            unit > 0,
    ;
}

proof fn lemma_ceiling(mag: int, whole: int, one: int)
    requires
        one > 0,
        (whole - 1) * one < mag <= whole * one,
    ensures
        (mag + one - 1) / one == whole,
{
    let rest = mag + one - 1 - whole * one;
    assert(0 <= rest < one) by (nonlinear_arith)
        requires
            (whole - 1) * one < mag <= whole * one,
            rest == mag + one - 1 - whole * one,
    ;
    assert(one * whole == whole * one) by (nonlinear_arith);
    lemma_fundamental_div_mod_converse(mag + one - 1, one, whole, rest);
}

/// Multiplying a count by 0.8 and rounding down is exact.
pub proof fn law_eight_tenths_floor(n: nat, limit: nat)
    requires
        n <= u32::MAX,
        n <= limit,
    ensures
        Number::integer(n).times(Number::ratio(8, 10)).truncated(limit) == n * 8 / 10,
{
    let f = Number::ratio(8, 10);
    let r = Number::integer(n).times(f);
    lemma_one_unit();
    lemma_tenths_value(8);
    laws::law_integers_exact(n);
    let one = pow2(1074) as int;
    let p = pow2(1022) as int;
    if n == 0 {
        lemma_basic_div(0, one);
        lemma_nothing_times(n, f);
    } else {
        let unit = lemma_product(n, f);
        let mag = r.magnitude() as int;
        let exact = n * f.magnitude();
        let whole = n * 8 / 10;
        let rest = n * 8 - 10 * whole;
        assert(0 <= rest <= 9);
        assert(10 * exact == 10 * (whole * one) + rest * one + 2 * (n * p)) by (nonlinear_arith)
            requires
                exact == n * f.magnitude(),
                10 * f.magnitude() == 8 * one + 2 * p,
                rest == n * 8 - 10 * whole,
        ;
        assert(0 <= n * p <= 0xffff_ffff * p) by (nonlinear_arith)
            requires
                0 <= n <= 0xffff_ffff,
                p > 0,
        ;
        assert(exact <= 0x2_0000_0000 * one) by (nonlinear_arith)
            requires
                exact == n * f.magnitude(),
                n <= 0xffff_ffff,
                f.magnitude() <= 2 * one,
                one > 0,
        ;
        assert(0 <= rest * one <= 9 * one) by (nonlinear_arith)
            requires
                0 <= rest <= 9,
                one > 0,
        ;
        assert((whole + 1) * one == whole * one + one) by (nonlinear_arith);
        assert(mag < (whole + 1) * one);
        if mag < whole * one {
            // Both are multiples of the unit, which is too large for that.
            lemma_apart_below(mag, whole as int, one, unit);
        }
        assert(one * whole == whole * one) by (nonlinear_arith);
        lemma_fundamental_div_mod_converse(mag, one, whole as int, mag - whole * one);
    }
}

/// Comparing an integer with three tenths of another one is exact.
pub proof fn law_three_tenths(u: nat, t: nat)
    requires
        t <= u32::MAX,
        u < 0x20_0000_0000_0000,
    ensures
        Number::integer(u).below(Number::integer(t).times(Number::ratio(3, 10))) == (10 * u < 3
            * t),
{
    let f = Number::ratio(3, 10);
    let r = Number::integer(t).times(f);
    lemma_one_unit();
    lemma_pow2_unfold(1021);
    lemma_pow2_pos(1020);
    lemma_tenths_value(3);
    laws::law_integers_exact(t);
    laws::law_integers_exact(u);
    let one = pow2(1074) as int;
    let p = pow2(1020) as int;
    assert(0 <= u * one) by (nonlinear_arith)
        requires
            one > 0,
    ;
    if t == 0 {
        lemma_nothing_times(t, f);
    } else {
        let unit = lemma_product(t, f);
        let mag = r.magnitude() as int;
        let exact = (t * f.magnitude()) as int;
        assert(10 * exact == 3 * (t * one) - 2 * (t * p)) by (nonlinear_arith)
            requires
                exact == t * f.magnitude(),
                10 * f.magnitude() == 3 * one - 2 * p,
        ;
        assert(0 <= t * p <= 0xffff_ffff * p) by (nonlinear_arith)
            requires
                0 <= t <= 0xffff_ffff,
                p > 0,
        ;
        assert(exact <= 0x2_0000_0000 * one) by (nonlinear_arith)
            requires
                exact == t * f.magnitude(),
                t <= 0xffff_ffff,
                f.magnitude() <= 2 * one,
                one > 0,
        ;
        if 10 * u < 3 * t {
            assert(10 * (u * one) + one <= 3 * (t * one)) by (nonlinear_arith)
                requires
                    10 * u + 1 <= 3 * t,
                    one > 0,
            ;
        } else {
            assert(10 * (u * one) >= 3 * (t * one)) by (nonlinear_arith)
                requires
                    10 * u >= 3 * t,
                    one > 0,
            ;
            if mag > u * one {
                lemma_apart(mag, u as int, one, unit);
            }
        }
    }
}

/// Of two multiples of a unit, the lesser is less by a unit at least.
proof fn lemma_apart_below(a: int, count: int, one: int, unit: int)
    requires
        unit > 0,
        a % unit == 0,
        one % unit == 0,
        a < count * one,
    ensures
        a + unit <= count * one,
{
    lemma_fundamental_div_mod(a, unit);
    lemma_fundamental_div_mod(one, unit);
    let x = a / unit;
    let y = count * (one / unit);
    assert(count * one == unit * y) by (nonlinear_arith)
        requires
            one == unit * (one / unit),
            y == count * (one / unit),
    ;
    assert(x < y) by (nonlinear_arith)
        requires
            unit * x < unit * y,
            unit > 0,
    ;
    assert(unit * x + unit <= unit * y) by (nonlinear_arith)
        requires
            x + 1 <= y,
            unit > 0,
    ;
}

/// A finite number that is not negative does not shrink by a factor of at least one.
pub proof fn law_factor_does_not_shrink(x: Number, n: nat, d: nat)
    requires
        x is Finite,
        x.representable(),
        !x.is_negative(),
        0 < d <= n,
        n < 0x20_0000_0000_0000 * d,
    ensures
        x.at_most(x.times(Number::ratio(n, d))),
{
    lemma_one_unit();
    let f = Number::ratio(n, d);
    let one = pow2(1074);
    laws::law_integers_exact(1);
    assert((1 * one) * d <= n * one) by (nonlinear_arith)
        requires
            d <= n,
    ;
    laws::law_rounding_not_below(false, n, d, Number::integer(1));
    laws::law_rounding_representable(false, n, d);
    lemma_ratio_finite(n, d);
    let a = x.magnitude();
    let b = f.magnitude();
    assert(a * pow2(2148) <= (a * b) * one) by (nonlinear_arith)
        requires
            one <= b,
            pow2(2148) == one * one,
    ;
    laws::law_rounding_not_below(false, a * b, pow2(2148), x);
    laws::law_rounding_representable(false, a * b, pow2(2148));
}

/// A ratio of moderate size has a finite number.
pub proof fn lemma_ratio_finite(n: nat, d: nat)
    requires
        0 < d,
        n < 0x20_0000_0000_0000 * d,
    ensures
        Number::ratio(n, d) is Finite,
{
    let top = Number::Finite { negative: false, mantissa: 0x10_0000_0000_0000, exponent: 1 };
    lemma_pow2_unfold(1075);
    let one = pow2(1074);
    assert(top.magnitude() == 0x20_0000_0000_0000 * one) by {
        assert(0x10_0000_0000_0000 * (2 * one) == 0x20_0000_0000_0000 * one);
    }
    assert(n * one <= (0x20_0000_0000_0000 * one) * d) by (nonlinear_arith)
        requires
            n < 0x20_0000_0000_0000 * d,
    ;
    laws::law_rounding_not_above(false, n, d, top);
}

/// A finite number that is not negative does not grow by a factor of at most one.
pub proof fn law_factor_does_not_grow(x: Number, n: nat, d: nat)
    requires
        x is Finite,
        x.representable(),
        !x.is_negative(),
        0 < d,
        n <= d,
    ensures
        x.times(Number::ratio(n, d)).at_most(x),
        x.times(Number::ratio(n, d)) is Finite,
        !x.times(Number::ratio(n, d)).is_negative(),
{
    lemma_one_unit();
    let f = Number::ratio(n, d);
    let one = pow2(1074);
    laws::law_integers_exact(1);
    assert(n * one <= (1 * one) * d) by (nonlinear_arith)
        requires
            n <= d,
    ;
    laws::law_rounding_not_above(false, n, d, Number::integer(1));
    laws::law_rounding_representable(false, n, d);
    let a = x.magnitude();
    let b = f.magnitude();
    assert((a * b) * one <= a * pow2(2148)) by (nonlinear_arith)
        requires
            b <= one,
            pow2(2148) == one * one,
    ;
    laws::law_rounding_not_above(false, a * b, pow2(2148), x);
    laws::law_rounding_representable(false, a * b, pow2(2148));
}

/// Every bit pattern holds a number that there is.
pub proof fn lemma_representable(x: crate::double::Double)
    ensures
        x@.representable(),
{
}

} // verus!
