use vstd::arithmetic::div_mod::*;
use vstd::arithmetic::power2::*;
use vstd::prelude::*;

use crate::double::laws;
use crate::double::Number;

verus! {

/// The distance of two integers.
pub open spec fn gap(a: int, b: int) -> int {
    if a < b {
        b - a
    } else {
        a - b
    }
}

/// A result is off by at most one part in `2^53` of the exact ratio, or by half of the least
/// number there is.
pub proof fn law_rounding_error(negative: bool, n: nat, d: nat)
    requires
        0 < d,
        Number::nearest(negative, n, d) is Finite,
    ensures
        gap(
            (Number::nearest(negative, n, d).magnitude() * d) as int,
            (n * pow2(1074)) as int,
        ) * 0x20_0000_0000_0000 <= n * pow2(1074) + 0x10_0000_0000_0000 * d,
{
    laws::lemma_nearest_multiple(n, d);
    laws::lemma_spacing_exists(n, d);
    laws::lemma_nearest_magnitude(negative, n, d);
    let step = Number::spacing(n, d);
    let p = pow2(step) as int;
    let unit = (d * pow2(step)) as int;
    let exact = (n * pow2(1074)) as int;
    let multiple = Number::nearest_multiple(n, d, step);
    lemma_pow2_pos(step);
    assert((multiple * p) * d == multiple * unit) by (nonlinear_arith)
        requires
            unit == d * p,
    ;
    if step == 0 {
        lemma2_to64();
        assert(unit == d);
    }
    let off = gap(multiple * unit, exact);
    assert(2 * off <= unit);
    assert(0 <= exact) by (nonlinear_arith)
        requires
            exact == n * pow2(1074),
    ;
}

/// Only the ratio counts, not the terms in which it is given.
pub proof fn law_ratio_in_any_terms(negative: bool, n: nat, d: nat, k: nat)
    requires
        0 < d,
        0 < k,
    ensures
        Number::nearest(negative, n * k, d * k) == Number::nearest(negative, n, d),
{
    let one = pow2(1074);
    lemma_pow2_pos(1074);
    laws::lemma_spacing_exists(n, d);
    let step = Number::spacing(n, d);
    let p = pow2(step);
    lemma_pow2_pos(step);
    assert(d * k > 0) by (nonlinear_arith)
        requires
            d > 0,
            k > 0,
    ;
    assert((n * k) * one == (n * one) * k) by (nonlinear_arith);
    assert((d * k) * p * 0x20_0000_0000_0000 == (d * p * 0x20_0000_0000_0000) * k)
        by (nonlinear_arith);
    assert((d * k) * p * 0x10_0000_0000_0000 == (d * p * 0x10_0000_0000_0000) * k)
        by (nonlinear_arith);
    let x = n * one;
    let y = d * p * 0x20_0000_0000_0000;
    let z = d * p * 0x10_0000_0000_0000;
    assert(x < y ==> x * k < y * k) by (nonlinear_arith)
        requires
            k > 0,
    ;
    assert(z <= x ==> z * k <= x * k) by (nonlinear_arith)
        requires
            k > 0,
    ;
    assert(Number::spaced_by(n * k, d * k, step));
    laws::lemma_spacing_exists(n * k, d * k);
    crate::double::rounding::lemma_spacing_unique(
        n * k,
        d * k,
        step,
        Number::spacing(n * k, d * k),
    );
    let unit = (d * p) as int;
    assert(unit > 0) by (nonlinear_arith)
        requires
            unit == d * p,
            d > 0,
            p > 0,
    ;
    let big = ((d * k) * p) as int;
    assert(big == unit * k) by (nonlinear_arith)
        requires
            big == (d * k) * p,
            unit == d * p,
    ;
    let below = x as int / unit;
    let rest = x as int % unit;
    lemma_fundamental_div_mod(x as int, unit);
    assert(((n * k) * one) as int == big * below + rest * k) by (nonlinear_arith)
        requires
            (n * k) * one == x * k,
            x == unit * below + rest,
            big == unit * k,
    ;
    assert(0 <= rest * k < big) by (nonlinear_arith)
        requires
            0 <= rest < unit,
            big == unit * k,
            k > 0,
    ;
    lemma_fundamental_div_mod_converse(((n * k) * one) as int, big, below, rest * k);
    assert((2 * (rest * k) > big) == (2 * rest > unit)) by (nonlinear_arith)
        requires
            big == unit * k,
            k > 0,
    ;
    assert((2 * (rest * k) == big) == (2 * rest == unit)) by (nonlinear_arith)
        requires
            big == unit * k,
            k > 0,
    ;
}

/// A ratio of at most `2^64` has a finite number.
pub proof fn lemma_moderate(negative: bool, n: nat, d: nat)
    requires
        0 < d,
        n <= 0x1_0000_0000_0000_0000 * d,
    ensures
        Number::nearest(negative, n, d) is Finite,
        Number::nearest(negative, n, d).magnitude() <= 0x1_0000_0000_0000_0000 * pow2(1074),
        Number::nearest(negative, n, d).is_negative() == negative,
        Number::nearest(negative, n, d).representable(),
{
    let top = Number::Finite { negative: false, mantissa: 0x10_0000_0000_0000, exponent: 12 };
    let one = pow2(1074);
    lemma_pow2_adds(1074, 12);
    lemma2_to64();
    assert(top.magnitude() == 0x1_0000_0000_0000_0000 * one) by {
        assert(0x10_0000_0000_0000 * (one * 0x1000) == 0x1_0000_0000_0000_0000 * one);
    }
    assert(n * one <= (0x1_0000_0000_0000_0000 * one) * d) by (nonlinear_arith)
        requires
            n <= 0x1_0000_0000_0000_0000 * d,
    ;
    laws::law_rounding_not_above(negative, n, d, top);
    laws::law_rounding_representable(negative, n, d);
}

/// A product of moderate size is off by very little.
pub proof fn law_product_error(x: Number, y: Number)
    requires
        x is Finite,
        y is Finite,
        x.magnitude() * y.magnitude() <= 0x1_0000_0000_0000_0000 * pow2(2148),
    ensures
        x.times(y) is Finite,
        x.times(y).is_negative() == (x.is_negative() != y.is_negative()),
        x.times(y).representable(),
        gap(
            (x.times(y).magnitude() * pow2(1074)) as int,
            (x.magnitude() * y.magnitude()) as int,
        ) * 0x20_0000_0000_0000 <= x.magnitude() * y.magnitude() + 0x10_0000_0000_0000 * pow2(
            1074,
        ),
{
    let negative = x.is_negative() != y.is_negative();
    let n = x.magnitude() * y.magnitude();
    let one = pow2(1074);
    let d = pow2(2148);
    lemma_pow2_pos(1074);
    lemma_pow2_pos(2148);
    lemma_pow2_adds(1074, 1074);
    lemma_moderate(negative, n, d);
    law_rounding_error(negative, n, d);
    let r = x.times(y).magnitude();
    assert(gap((r * d) as int, (n * one) as int) == gap((r * one) as int, n as int) * one)
        by (nonlinear_arith)
        requires
            d == one * one,
            one > 0,
    ;
    let off = gap((r * one) as int, n as int);
    assert(off * 0x20_0000_0000_0000 <= n + 0x10_0000_0000_0000 * one) by (nonlinear_arith)
        requires
            off * one * 0x20_0000_0000_0000 <= n * one + 0x10_0000_0000_0000 * d,
            d == one * one,
            one > 0,
    ;
}

/// One, in units of `2^-1074`, is larger than any count.
pub proof fn lemma_one_is_large()
    ensures
        0x1_0000_0000_0000_0000_0000_0000_0000_0000 <= pow2(1074),
{
    lemma_pow2_adds(64, 64);
    lemma2_to64();
    assert(0x1_0000_0000_0000_0000 * 0x1_0000_0000_0000_0000
        == 0x1_0000_0000_0000_0000_0000_0000_0000_0000) by (nonlinear_arith);
    lemma_pow2_strictly_increases(128, 1074);
}

/// A fraction of a number is off by very little.
pub proof fn law_fraction_error(x: Number, n: nat, d: nat)
    requires
        x is Finite,
        x.magnitude() <= 0x100_0000_0000 * pow2(1074),
        0 < n <= 0x10_0000,
        0 < d <= 0x10_0000,
    ensures
        x.times(Number::ratio(n, d)) is Finite,
        x.times(Number::ratio(n, d)).is_negative() == x.is_negative(),
        x.times(Number::ratio(n, d)).representable(),
        gap(
            (x.times(Number::ratio(n, d)).magnitude() * d) as int,
            (x.magnitude() * n) as int,
        ) * 0x8_0000_0000_0000 <= x.magnitude() * n + 0x4_0000_0000_0000 * d,
{
    lemma_one_is_large();
    let one = pow2(1074) as int;
    let f = Number::ratio(n, d);
    lemma_moderate(false, n, d);
    law_rounding_error(false, n, d);
    let m = f.magnitude() as int;
    let v = x.magnitude() as int;
    let off = gap(m * d, n * one);
    assert(n * one <= 0x10_0000 * one) by (nonlinear_arith)
        requires
            n <= 0x10_0000,
            one > 0,
    ;
    assert(n * one >= one) by (nonlinear_arith)
        requires
            n >= 1,
            one > 0,
    ;
    assert(m <= m * d) by (nonlinear_arith)
        requires
            m >= 0,
            d >= 1,
    ;
    assert(m * d <= 2 * (n * one));
    assert(m <= 0x20_0000 * one);
    lemma_pow2_adds(1074, 1074);
    assert(v * m <= 0x1_0000_0000_0000_0000 * (one * one)) by (nonlinear_arith)
        requires
            0 <= v <= 0x100_0000_0000 * one,
            0 <= m <= 0x20_0000 * one,
            one > 0,
    ;
    law_product_error(x, f);
    let r = x.times(f).magnitude() as int;
    let slip = gap(r * one, v * m);
    let total = gap(r * d, v * n);
    let s = 0x20_0000_0000_0000int;
    // The two errors, brought to one denominator.
    assert(total * one <= slip * d + v * off) by (nonlinear_arith)
        requires
            total == gap(r * d, v * n),
            slip == gap(r * one, v * m),
            off == gap(m * d, n * one),
            v >= 0,
            d > 0,
            one > 0,
    ;
    assert((slip * d) * s <= (v * m) * d + 0x10_0000_0000_0000 * one * d) by (nonlinear_arith)
        requires
            slip * s <= v * m + 0x10_0000_0000_0000 * one,
            d > 0,
    ;
    assert((v * m) * d <= 2 * (v * n * one)) by (nonlinear_arith)
        requires
            m * d <= 2 * (n * one),
            v >= 0,
    ;
    assert((v * off) * s <= 2 * (v * n * one)) by (nonlinear_arith)
        requires
            off * s <= 2 * (n * one),
            v >= 0,
    ;
    assert(total * one * s <= 4 * (v * n * one) + 0x10_0000_0000_0000 * one * d);
    assert(total * s <= 4 * (v * n) + 0x10_0000_0000_0000 * d) by (nonlinear_arith)
        requires
            total * one * s <= 4 * (v * n * one) + 0x10_0000_0000_0000 * one * d,
            one > 0,
    ;
}

/// A quotient of moderate size is off by very little.
pub proof fn law_quotient_error(x: Number, y: Number)
    requires
        x is Finite,
        y is Finite,
        y.magnitude() > 0,
        x.magnitude() <= 0x1_0000_0000_0000_0000 * y.magnitude(),
    ensures
        x.over(y) is Finite,
        x.over(y).is_negative() == (x.is_negative() != y.is_negative()),
        x.over(y).representable(),
        gap(
            (x.over(y).magnitude() * y.magnitude()) as int,
            (x.magnitude() * pow2(1074)) as int,
        ) * 0x20_0000_0000_0000 <= x.magnitude() * pow2(1074) + 0x10_0000_0000_0000
            * y.magnitude(),
{
    let negative = x.is_negative() != y.is_negative();
    assert(!y.is_zero()) by {
        if y.is_zero() {
            match y {
                Number::Finite { negative, mantissa, exponent } => {
                    assert(mantissa * pow2((exponent + 1074) as nat) == 0) by (nonlinear_arith)
                        requires
                            mantissa == 0,
                    ;
                },
                _ => {},
            }
        }
    }
    lemma_moderate(negative, x.magnitude(), y.magnitude());
    law_rounding_error(negative, x.magnitude(), y.magnitude());
}

/// A number taken a whole number of times is off by very little.
pub proof fn law_multiple_error(n: nat, x: Number)
    requires
        x is Finite,
        n < 0x20_0000_0000_0000,
        n * x.magnitude() <= 0x1_0000_0000_0000_0000 * pow2(1074),
    ensures
        Number::integer(n).times(x) == x.times(Number::integer(n)),
        x.times(Number::integer(n)) is Finite,
        x.times(Number::integer(n)).is_negative() == x.is_negative(),
        x.times(Number::integer(n)).representable(),
        gap(x.times(Number::integer(n)).magnitude() as int, (n * x.magnitude()) as int)
            * 0x20_0000_0000_0000 <= n * x.magnitude() + 0x10_0000_0000_0000,
{
    let one = pow2(1074) as int;
    let m = x.magnitude() as int;
    let count = n as int;
    laws::law_integers_exact(n);
    lemma_pow2_pos(1074);
    lemma_pow2_adds(1074, 1074);
    assert(m * (count * one) == (count * one) * m) by (nonlinear_arith);
    assert(m * (count * one) == (count * m) * one) by (nonlinear_arith);
    assert((count * m) * one <= 0x1_0000_0000_0000_0000 * (one * one)) by (nonlinear_arith)
        requires
            count * m <= 0x1_0000_0000_0000_0000 * one,
            one > 0,
    ;
    law_product_error(x, Number::integer(n));
    let r = x.times(Number::integer(n)).magnitude() as int;
    let off = gap(r, count * m);
    assert(gap(r * one, (count * m) * one) == off * one) by (nonlinear_arith)
        requires
            off == gap(r, count * m),
            one > 0,
    ;
    assert(off * 0x20_0000_0000_0000 <= count * m + 0x10_0000_0000_0000) by (nonlinear_arith)
        requires
            (off * one) * 0x20_0000_0000_0000 <= (count * m) * one + 0x10_0000_0000_0000 * one,
            one > 0,
    ;
}

/// A number taken as many times as the product of two counts says is off by very little.
pub proof fn law_twofold_multiple_error(n: nat, k: nat, x: Number)
    requires
        x is Finite,
        !x.is_negative(),
        n < 0x20_0000_0000_0000,
        k < 0x20_0000_0000_0000,
        k * x.magnitude() <= 0x1000_0000_0000_0000 * pow2(1074),
        n * (k * x.magnitude()) <= 0x1000_0000_0000_0000 * pow2(1074),
    ensures
        ({
            let r = Number::integer(n).times(x.times(Number::integer(k)));
            &&& r is Finite
            &&& !r.is_negative()
            &&& gap(r.magnitude() as int, (n * (k * x.magnitude())) as int) * 0x8_0000_0000_0000
                <= n * (k * x.magnitude()) + n * 0x10_0000_0000_0000 + 0x10_0000_0000_0000
        }),
{
    let one = pow2(1074) as int;
    let m = x.magnitude() as int;
    let s = 0x20_0000_0000_0000int;
    lemma_one_is_large();
    assert(0 <= k * m) by (nonlinear_arith)
        requires
            k >= 0,
            m >= 0,
    ;
    law_multiple_error(k, x);
    let each = x.times(Number::integer(k));
    let a = each.magnitude() as int;
    let off = gap(a, k * m);
    assert(n * a <= 2 * (n * (k * m)) + n) by (nonlinear_arith)
        requires
            n >= 0,
            a <= 2 * (k * m) + 1,
    ;
    law_multiple_error(n, each);
    let r = Number::integer(n).times(each).magnitude() as int;
    assert(gap(n * a, n * (k * m)) == n * off) by (nonlinear_arith)
        requires
            off == gap(a, k * m),
            n >= 0,
    ;
    assert((n * off) * s <= n * (k * m) + n * 0x10_0000_0000_0000) by (nonlinear_arith)
        requires
            off * s <= k * m + 0x10_0000_0000_0000,
            n >= 0,
    ;
    assert(0 <= n * (k * m)) by (nonlinear_arith)
        requires
            n >= 0,
            k * m >= 0,
    ;
    assert(gap(r, n * (k * m)) <= gap(r, n * a) + n * off);
}

/// A share in percent is off by very little.
pub proof fn law_percentage_error(part: Number, whole: Number)
    requires
        part is Finite,
        !part.is_negative(),
        whole is Finite,
        !whole.is_negative(),
        whole.magnitude() > 0,
        part.magnitude() <= 0x1000_0000_0000_0000 * whole.magnitude(),
    ensures
        ({
            let percent = part.over(whole).times(Number::integer(100));
            &&& percent is Finite
            &&& !percent.is_negative()
            &&& gap(
                (percent.magnitude() * whole.magnitude()) as int,
                (100 * part.magnitude() * pow2(1074)) as int,
            ) * 0x1000_0000_0000 <= part.magnitude() * pow2(1074) + 0x10_0000_0000_0000
                * whole.magnitude()
        }),
{
    lemma_one_is_large();
    laws::law_integers_exact(100);
    let one = pow2(1074) as int;
    let a = part.magnitude() as int;
    let w = whole.magnitude() as int;
    law_quotient_error(part, whole);
    let share = part.over(whole);
    let q = share.magnitude() as int;
    let s = 0x20_0000_0000_0000int;
    let off = gap(q * w, a * one);
    assert(0 <= a * one <= 0x1000_0000_0000_0000 * (w * one)) by (nonlinear_arith)
        requires
            0 <= a <= 0x1000_0000_0000_0000 * w,
            one > 0,
    ;
    assert(w <= w * one) by (nonlinear_arith)
        requires
            w > 0,
            one >= 1,
    ;
    assert(q <= 0x2000_0000_0000_0001 * one) by (nonlinear_arith)
        requires
            q * w <= 2 * (a * one) + w,
            a * one <= 0x1000_0000_0000_0000 * (w * one),
            w > 0,
            one >= 1,
    ;
    lemma_pow2_adds(1074, 1074);
    assert(q * (100 * one) <= 0x1_0000_0000_0000_0000 * 100 * (one * one)) by (nonlinear_arith)
        requires
            0 <= q <= 0x2000_0000_0000_0001 * one,
            one > 0,
    ;
    lemma_wide_product(share, Number::integer(100));
    let percent = share.times(Number::integer(100));
    let r = percent.magnitude() as int;
    let slip = gap(r, 100 * q);
    assert(gap(r * one, q * (100 * one)) == slip * one) by (nonlinear_arith)
        requires
            slip == gap(r, 100 * q),
            one > 0,
    ;
    assert(slip * s <= 100 * q + 0x10_0000_0000_0000) by (nonlinear_arith)
        requires
            (slip * one) * s <= q * (100 * one) + 0x10_0000_0000_0000 * one,
            one > 0,
    ;
    let total = gap(r * w, 100 * (a * one));
    assert(total <= slip * w + 100 * off) by (nonlinear_arith)
        requires
            total == gap(r * w, 100 * (a * one)),
            slip == gap(r, 100 * q),
            off == gap(q * w, a * one),
            w > 0,
    ;
    assert((slip * w) * s <= 100 * (q * w) + 0x10_0000_0000_0000 * w) by (nonlinear_arith)
        requires
            slip * s <= 100 * q + 0x10_0000_0000_0000,
            w > 0,
    ;
    assert(100 * a * one == 100 * (a * one)) by (nonlinear_arith);
}

/// A product of even larger size is off by very little.
proof fn lemma_wide_product(x: Number, y: Number)
    requires
        x is Finite,
        y is Finite,
        x.magnitude() * y.magnitude() <= 0x1_0000_0000_0000_0000 * 100 * pow2(2148),
    ensures
        x.times(y) is Finite,
        x.times(y).is_negative() == (x.is_negative() != y.is_negative()),
        gap(
            (x.times(y).magnitude() * pow2(1074)) as int,
            (x.magnitude() * y.magnitude()) as int,
        ) * 0x20_0000_0000_0000 <= x.magnitude() * y.magnitude() + 0x10_0000_0000_0000 * pow2(
            1074,
        ),
{
    let negative = x.is_negative() != y.is_negative();
    let n = x.magnitude() * y.magnitude();
    let one = pow2(1074);
    let d = pow2(2148);
    lemma_pow2_pos(1074);
    lemma_pow2_pos(2148);
    lemma_pow2_adds(1074, 1074);
    let top = Number::Finite { negative: false, mantissa: 0x10_0000_0000_0000, exponent: 22 };
    lemma_pow2_adds(1074, 22);
    lemma2_to64();
    assert(top.magnitude() == 0x400_0000_0000_0000_0000 * one) by {
        assert(0x10_0000_0000_0000 * (one * 0x40_0000) == 0x400_0000_0000_0000_0000 * one);
    }
    assert(n * one <= (0x400_0000_0000_0000_0000 * one) * d) by (nonlinear_arith)
        requires
            n <= 0x1_0000_0000_0000_0000 * 100 * d,
    ;
    laws::law_rounding_not_above(negative, n, d, top);
    laws::law_rounding_representable(negative, n, d);
    law_rounding_error(negative, n, d);
    let r = x.times(y).magnitude();
    assert(gap((r * d) as int, (n * one) as int) == gap((r * one) as int, n as int) * one)
        by (nonlinear_arith)
        requires
            d == one * one,
            one > 0,
    ;
    let off = gap((r * one) as int, n as int);
    assert(off * 0x20_0000_0000_0000 <= n + 0x10_0000_0000_0000 * one) by (nonlinear_arith)
        requires
            off * one * 0x20_0000_0000_0000 <= n * one + 0x10_0000_0000_0000 * d,
            d == one * one,
            one > 0,
    ;
}

/// A sum of moderate size is off by very little.
pub proof fn law_sum_error(x: Number, y: Number)
    requires
        x is Finite,
        y is Finite,
        gap(x.scaled() + y.scaled(), 0) <= 0x1_0000_0000_0000_0000 * pow2(1074),
    ensures
        x.plus(y) is Finite,
        x.plus(y).representable(),
        gap(x.plus(y).scaled(), x.scaled() + y.scaled()) * 0x20_0000_0000_0000 <= gap(
            x.scaled() + y.scaled(),
            0,
        ) + 0x10_0000_0000_0000,
{
    let total = x.scaled() + y.scaled();
    let one = pow2(1074);
    lemma_pow2_pos(1074);
    if total == 0 {
        assert(0 * pow2(0) == 0) by (nonlinear_arith);
        assert(x.plus(y).magnitude() == 0);
    } else {
        let negative = total < 0;
        let n = gap(total, 0) as nat;
        lemma_moderate(negative, n, one);
        law_rounding_error(negative, n, one);
        let r = x.plus(y).magnitude();
        assert(gap((r * one) as int, (n * one) as int) == gap(r as int, n as int) * one)
            by (nonlinear_arith)
            requires
                one > 0,
        ;
        let off = gap(r as int, n as int);
        assert(off * 0x20_0000_0000_0000 <= n + 0x10_0000_0000_0000) by (nonlinear_arith)
            requires
                off * one * 0x20_0000_0000_0000 <= n * one + 0x10_0000_0000_0000 * one,
                one > 0,
        ;
    }
}

/// The integer that a number is rounded to is half away from it at most.
pub proof fn law_rounded_within_half(x: Number, limit: nat)
    requires
        x is Finite,
        !x.is_negative(),
    ensures
        x.rounded(limit) <= limit,
        x.rounded(limit) < limit ==> gap(
            2 * x.rounded(limit) * pow2(1074) as int,
            2 * x.magnitude() as int,
        ) <= pow2(1074),
        x.rounded(limit) == limit ==> 2 * limit * pow2(1074) <= 2 * x.magnitude() + pow2(1074),
{
    let one = pow2(1074) as int;
    lemma_pow2_pos(1074);
    let v = 2 * x.magnitude() + pow2(1074);
    lemma_fundamental_div_mod(v as int, 2 * one);
    let count = v as int / (2 * one);
    assert(2 * one * count == 2 * count * one) by (nonlinear_arith);
    if count > limit {
        assert(2 * count * one >= 2 * limit * one) by (nonlinear_arith)
            requires
                count > limit,
                one > 0,
        ;
    }
    assert(2 * limit * one == 2 * limit * pow2(1074));
}

/// The integer that a number is rounded up to is less than one above it.
pub proof fn law_ceiling_within_one(x: Number, limit: nat)
    requires
        x is Finite,
        !x.is_negative(),
    ensures
        x.ceiling(limit) <= limit,
        x.ceiling(limit) < limit ==> (x.ceiling(limit) - 1) * pow2(1074) < x.magnitude()
            <= x.ceiling(limit) * pow2(1074),
        x.ceiling(limit) == limit ==> (limit - 1) * pow2(1074) < x.magnitude(),
{
    let one = pow2(1074) as int;
    lemma_pow2_pos(1074);
    let v = x.magnitude() + pow2(1074) - 1;
    lemma_fundamental_div_mod(v, one);
    let count = v / one;
    assert(one * count == count * one) by (nonlinear_arith);
    assert((count - 1) * one == count * one - one) by (nonlinear_arith);
    if count > limit {
        assert((count - 1) * one >= (limit - 1) * one) by (nonlinear_arith)
            requires
                count > limit,
                one > 0,
        ;
    }
    assert(count >= 0) by {
        lemma_div_pos_is_pos(v, one);
    }
}

/// The integer that a number is cut to is less than one below it.
pub proof fn law_truncated_within_one(x: Number, limit: nat)
    requires
        x is Finite,
        !x.is_negative(),
    ensures
        x.truncated(limit) <= limit,
        x.truncated(limit) * pow2(1074) <= x.magnitude(),
        x.truncated(limit) < limit ==> x.magnitude() < (x.truncated(limit) + 1) * pow2(1074),
{
    let one = pow2(1074) as int;
    lemma_pow2_pos(1074);
    lemma_fundamental_div_mod(x.magnitude() as int, one);
    let count = x.magnitude() as int / one;
    assert(one * count == count * one) by (nonlinear_arith);
    assert((count + 1) * one == count * one + one) by (nonlinear_arith);
    if count > limit {
        assert(count * one >= limit * one) by (nonlinear_arith)
            requires
                count > limit,
                one > 0,
        ;
    }
}

/// Sums of integers are exact.
pub proof fn law_integer_sum(a: nat, b: nat)
    requires
        a + b < 0x20_0000_0000_0000,
    ensures
        Number::integer(a).plus(Number::integer(b)) == Number::integer(a + b),
{
    laws::law_integers_exact(a);
    laws::law_integers_exact(b);
    laws::law_integers_exact(a + b);
    let one = pow2(1074);
    lemma_pow2_pos(1074);
    assert(a * one + b * one == (a + b) * one) by (nonlinear_arith);
    assert((a + b) * one >= 0);
    if a + b > 0 {
        assert((a + b) * one > 0) by (nonlinear_arith)
            requires
                a + b > 0,
                one > 0,
        ;
        law_ratio_in_any_terms(false, a + b, 1, one);
    } else {
        crate::double::arithmetic::lemma_nearest_zero(false, 1);
        assert((a + b) * one == 0) by (nonlinear_arith)
            requires
                a + b == 0,
        ;
    }
}

/// Differences of integers are exact.
pub proof fn law_integer_difference(a: nat, b: nat)
    requires
        b <= a < 0x20_0000_0000_0000,
    ensures
        Number::integer(a).minus(Number::integer(b)) == Number::integer((a - b) as nat),
{
    laws::law_integers_exact(a);
    laws::law_integers_exact(b);
    let one = pow2(1074);
    lemma_pow2_pos(1074);
    let c = (a - b) as nat;
    assert(Number::integer(b).negated().scaled() == -(b * one));
    assert(a * one - b * one == c * one) by (nonlinear_arith)
        requires
            c == a - b,
    ;
    if c > 0 {
        assert(c * one > 0) by (nonlinear_arith)
            requires
                c > 0,
                one > 0,
        ;
        law_ratio_in_any_terms(false, c, 1, one);
    } else {
        crate::double::arithmetic::lemma_nearest_zero(false, 1);
        assert(c * one == 0) by (nonlinear_arith)
            requires
                c == 0,
        ;
    }
}

/// Products of integers are exact.
pub proof fn law_integer_product(a: nat, b: nat)
    requires
        a < 0x20_0000_0000_0000,
        b < 0x20_0000_0000_0000,
    ensures
        Number::integer(a).times(Number::integer(b)) == Number::integer(a * b),
{
    laws::law_integers_exact(a);
    laws::law_integers_exact(b);
    let one = pow2(1074);
    lemma_pow2_pos(1074);
    lemma_pow2_pos(2148);
    lemma_pow2_adds(1074, 1074);
    assert((a * one) * (b * one) == (a * b) * (one * one)) by (nonlinear_arith);
    law_ratio_in_any_terms(false, a * b, 1, one * one);
}

/// The quotient of two integers is the number nearest to their ratio.
pub proof fn law_integer_quotient(a: nat, b: nat)
    requires
        a < 0x20_0000_0000_0000,
        0 < b < 0x20_0000_0000_0000,
    ensures
        Number::integer(a).over(Number::integer(b)) == Number::ratio(a, b),
{
    laws::law_integers_exact(a);
    laws::law_integers_exact(b);
    laws::lemma_not_zero(b);
    lemma_pow2_pos(1074);
    law_ratio_in_any_terms(false, a, b, pow2(1074));
}

/// Multiplying by one changes nothing.
pub proof fn law_times_one(x: Number)
    requires
        x.representable(),
        x !is Nan,
    ensures
        x.times(Number::integer(1)) == x,
        x.times(Number::integer(1).negated()) == x.negated(),
{
    laws::law_integers_exact(1);
    laws::lemma_not_zero(1);
    let one = pow2(1074);
    lemma_pow2_pos(1074);
    lemma_pow2_adds(1074, 1074);
    assert(Number::integer(1).negated().magnitude() == Number::integer(1).magnitude());
    if x is Finite {
        laws::law_rounding_of_number(x);
        laws::law_rounding_of_number(x.negated());
        assert(x.magnitude() * (1 * one) == x.magnitude() * one);
        law_ratio_in_any_terms(x.is_negative(), x.magnitude(), one, one);
        law_ratio_in_any_terms(!x.is_negative(), x.magnitude(), one, one);
        assert(x.negated().magnitude() == x.magnitude());
    }
}

} // verus!
