use vstd::arithmetic::power2::*;
use vstd::prelude::*;

use crate::double::rounding::Remainder;
use crate::double::Number;

verus! {

/// Every ratio has a spacing.
pub proof fn lemma_spacing_exists(n: nat, d: nat)
    requires
        0 < d,
    ensures
        Number::spaced_by(n, d, Number::spacing(n, d)),
{
    let far = n * pow2(1074);
    lemma_pow2_exceeds(far);
    assert(far < d * pow2(far) * 0x20_0000_0000_0000) by (nonlinear_arith)
        requires
            far < pow2(far),
            0 < d,
    ;
    lemma_spacing_found(n, d, far);
}

proof fn lemma_pow2_exceeds(k: nat)
    ensures
        k < pow2(k),
    decreases k,
{
    if k == 0 {
        lemma_pow2_pos(0);
    } else {
        lemma_pow2_exceeds((k - 1) as nat);
        lemma_pow2_unfold(k);
    }
}

proof fn lemma_spacing_found(n: nat, d: nat, step: nat)
    requires
        n * pow2(1074) < d * pow2(step) * 0x20_0000_0000_0000,
    ensures
        exists|k: nat| Number::spaced_by(n, d, k),
    decreases step,
{
    if step == 0 || d * pow2(step) * 0x10_0000_0000_0000 <= n * pow2(1074) {
        assert(Number::spaced_by(n, d, step));
    } else {
        let lower = pow2((step - 1) as nat);
        lemma_pow2_unfold(step);
        assert(d * pow2(step) * 0x10_0000_0000_0000 == d * lower * 0x20_0000_0000_0000)
            by (nonlinear_arith)
            requires
                pow2(step) == 2 * lower,
        ;
        lemma_spacing_found(n, d, (step - 1) as nat);
    }
}

/// The nearest multiple of the spacing is within half a unit of the ratio, and no multiple
/// lies between the two.
pub proof fn lemma_nearest_multiple(n: nat, d: nat)
    requires
        0 < d,
    ensures
        ({
            let step = Number::spacing(n, d);
            let unit = (d * pow2(step)) as int;
            let exact = (n * pow2(1074)) as int;
            let multiple = Number::nearest_multiple(n, d, step);
            &&& 0 < unit
            &&& -unit <= 2 * (multiple * unit - exact) <= unit
            &&& 0 <= multiple <= 0x20_0000_0000_0000
            &&& step == 0 || 0x10_0000_0000_0000 <= multiple
        }),
{
    lemma_spacing_exists(n, d);
    let step = Number::spacing(n, d);
    let unit = (d * pow2(step)) as int;
    let exact = (n * pow2(1074)) as int;
    lemma_pow2_pos(step);
    assert(0 < unit) by (nonlinear_arith)
        requires
            unit == d * pow2(step),
            0 < d,
            0 < pow2(step),
    ;
    let below = exact / unit;
    let rest = exact % unit;
    vstd::arithmetic::div_mod::lemma_fundamental_div_mod(exact, unit);
    vstd::arithmetic::div_mod::lemma_mod_bound(exact, unit);
    assert(exact == unit * below + rest);
    assert((below + 1) * unit == below * unit + unit) by (nonlinear_arith);
    assert(below * unit == unit * below) by (nonlinear_arith);
    assert(0 <= below < 0x20_0000_0000_0000) by (nonlinear_arith)
        requires
            exact == unit * below + rest,
            0 <= rest < unit,
            0 <= exact < unit * 0x20_0000_0000_0000,
    ;
    if step != 0 {
        assert(0x10_0000_0000_0000 <= below) by (nonlinear_arith)
            requires
                exact == unit * below + rest,
                0 <= rest < unit,
                unit * 0x10_0000_0000_0000 <= exact,
        ;
    }
}

/// What rounding gives is a number that there is.
pub proof fn law_rounding_representable(negative: bool, n: nat, d: nat)
    requires
        0 < d,
    ensures
        Number::nearest(negative, n, d).representable(),
        Number::nearest(negative, n, d) !is Nan,
        Number::nearest(negative, n, d).is_negative() == negative,
{
    lemma_nearest_multiple(n, d);
}

/// The magnitude of a finite result is the nearest multiple of the spacing.
pub proof fn lemma_nearest_magnitude(negative: bool, n: nat, d: nat)
    requires
        0 < d,
        Number::nearest(negative, n, d) is Finite,
    ensures
        Number::nearest(negative, n, d).magnitude() == Number::nearest_multiple(
            n,
            d,
            Number::spacing(n, d),
        ) * pow2(Number::spacing(n, d)),
{
    lemma_nearest_multiple(n, d);
    let step = Number::spacing(n, d);
    let multiple = Number::nearest_multiple(n, d, step);
    lemma_pow2_unfold(step + 1);
    if multiple == 0x20_0000_0000_0000 {
        assert(0x10_0000_0000_0000 * (2 * pow2(step)) == 0x20_0000_0000_0000 * pow2(step));
    }
    assert(multiple * pow2(step) >= 0) by (nonlinear_arith)
        requires
            multiple >= 0,
            pow2(step) >= 0,
    ;
}

/// No number is nearer to a ratio than the one that it is rounded to.
pub proof fn law_rounding_is_nearest(negative: bool, n: nat, d: nat, y: Number)
    requires
        0 < d,
        Number::nearest(negative, n, d) is Finite,
        y is Finite,
        y.representable(),
    ensures
        ({
            let exact = n * pow2(1074);
            let error = Number::nearest(negative, n, d).magnitude() * d - exact;
            let other = y.magnitude() * d - exact;
            (if error < 0 {
                -error
            } else {
                error
            }) <= (if other < 0 {
                -other
            } else {
                other
            })
        }),
{
    lemma_nearest_multiple(n, d);
    lemma_spacing_exists(n, d);
    lemma_nearest_magnitude(negative, n, d);
    let step = Number::spacing(n, d);
    let p = pow2(step) as int;
    lemma_pow2_pos(step);
    let unit = (d * pow2(step)) as int;
    let exact = (n * pow2(1074)) as int;
    let below = exact / unit;
    let rest = exact % unit;
    vstd::arithmetic::div_mod::lemma_fundamental_div_mod(exact, unit);
    assert(unit * below == below * unit) by (nonlinear_arith);
    assert((below + 1) * unit == below * unit + unit) by (nonlinear_arith);
    assert(below >= 0) by {
        vstd::arithmetic::div_mod::lemma_div_pos_is_pos(exact, unit);
    }
    let mag = y.magnitude() as int;
    if step > 0 {
        assert(below >= 0x10_0000_0000_0000) by (nonlinear_arith)
            requires
                unit * 0x10_0000_0000_0000 <= exact,
                exact == below * unit + rest,
                0 <= rest < unit,
        ;
    }
    if below * p < mag < (below + 1) * p {
        lemma_no_number_between(y, step, below);
    }
    assert(mag <= below * p ==> mag * d <= below * unit) by (nonlinear_arith)
        requires
            unit == d * p,
            d > 0,
    ;
    assert(mag >= (below + 1) * p ==> mag * d >= (below + 1) * unit) by (nonlinear_arith)
        requires
            unit == d * p,
            d > 0,
    ;
    let multiple = Number::nearest_multiple(n, d, step);
    assert((multiple * p) * d == multiple * unit) by (nonlinear_arith)
        requires
            unit == d * p,
    ;
}

/// Of two ratios with the same denominator, the lesser is not rounded to a greater number.
pub proof fn law_rounding_keeps_order(negative: bool, a: nat, b: nat, d: nat)
    requires
        0 < d,
        a <= b,
        Number::nearest(negative, b, d) is Finite,
    ensures
        Number::nearest(negative, a, d) is Finite,
        Number::nearest(negative, a, d).magnitude() <= Number::nearest(negative, b, d).magnitude(),
{
    lemma_nearest_multiple(a, d);
    lemma_nearest_multiple(b, d);
    lemma_spacing_exists(a, d);
    lemma_spacing_exists(b, d);
    let low = Number::spacing(a, d);
    let high = Number::spacing(b, d);
    let p = pow2(low) as int;
    let q = pow2(high) as int;
    let one = pow2(1074) as int;
    lemma_pow2_pos(low);
    lemma_pow2_pos(high);
    assert(a * one <= b * one) by (nonlinear_arith)
        requires
            a <= b,
            one >= 0,
    ;
    if low > high {
        lemma_pow2_at_least_double(high, low);
        assert(d * p * 0x10_0000_0000_0000 >= d * q * 0x20_0000_0000_0000) by (nonlinear_arith)
            requires
                p >= 2 * q,
                d > 0,
        ;
    }
    let m = Number::nearest_multiple(a, d, low);
    let n = Number::nearest_multiple(b, d, high);
    if low == high {
        let unit = (d * pow2(low)) as int;
        lemma_multiples_ordered(a * one, b * one, unit);
        assert(m <= n);
        assert(m * p <= n * q) by (nonlinear_arith)
            requires
                m <= n,
                p == q,
                p > 0,
        ;
    } else {
        lemma_pow2_at_least_double(low, high);
        assert(m * p <= n * q) by (nonlinear_arith)
            requires
                0 <= m <= 0x20_0000_0000_0000,
                n >= 0x10_0000_0000_0000,
                q >= 2 * p,
                p > 0,
        ;
    }
    lemma_nearest_magnitude(negative, b, d);
    assert(Number::nearest(negative, a, d) is Finite);
    lemma_nearest_magnitude(negative, a, d);
}

proof fn lemma_pow2_at_least_double(low: nat, high: nat)
    requires
        low < high,
    ensures
        pow2(high) >= 2 * pow2(low),
{
    lemma_pow2_unfold(low + 1);
    if low + 1 < high {
        lemma_pow2_strictly_increases(low + 1, high);
    }
}

/// Rounding to the nearest multiple keeps the order.
proof fn lemma_multiples_ordered(x: int, y: int, unit: int)
    requires
        0 < unit,
        x <= y,
    ensures
        ({
            let round = |v: int|
                if 2 * (v % unit) > unit || (2 * (v % unit) == unit && (v / unit) % 2 == 1) {
                    v / unit + 1
                } else {
                    v / unit
                };
            round(x) <= round(y)
        }),
{
    vstd::arithmetic::div_mod::lemma_fundamental_div_mod(x, unit);
    vstd::arithmetic::div_mod::lemma_fundamental_div_mod(y, unit);
    vstd::arithmetic::div_mod::lemma_div_is_ordered(x, y, unit);
}

/// A representable magnitude that is not over a ratio is not over its rounding either.
pub proof fn law_rounding_not_below(negative: bool, n: nat, d: nat, y: Number)
    requires
        0 < d,
        y is Finite,
        y.representable(),
        y.magnitude() * d <= n * pow2(1074),
    ensures
        Number::nearest(negative, n, d) is Infinite || y.magnitude() <= Number::nearest(
            negative,
            n,
            d,
        ).magnitude(),
{
    lemma_nearest_multiple(n, d);
    let r = Number::nearest(negative, n, d);
    if r is Finite {
        lemma_nearest_magnitude(negative, n, d);
        let step = Number::spacing(n, d);
        let p = pow2(step) as int;
        let unit = (d * pow2(step)) as int;
        let exact = (n * pow2(1074)) as int;
        let multiple = Number::nearest_multiple(n, d, step);
        let mag = y.magnitude() as int;
        lemma_pow2_pos(step);
        if mag > multiple * p {
            // Then `y` lies strictly between two neighbouring multiples.
            assert(mag * d > multiple * unit) by (nonlinear_arith)
                requires
                    mag > multiple * p,
                    unit == d * p,
                    d > 0,
            ;
            assert(mag * d < (multiple + 1) * unit) by (nonlinear_arith)
                requires
                    mag * d <= exact,
                    -unit <= 2 * (multiple * unit - exact),
                    unit > 0,
            ;
            assert(mag < (multiple + 1) * p) by (nonlinear_arith)
                requires
                    mag * d < (multiple + 1) * unit,
                    unit == d * p,
                    d > 0,
            ;
            lemma_no_number_between(y, step, multiple);
        }
    }
}

/// A representable magnitude that is not under a ratio is not under its rounding either.
pub proof fn law_rounding_not_above(negative: bool, n: nat, d: nat, y: Number)
    requires
        0 < d,
        y is Finite,
        y.representable(),
        n * pow2(1074) <= y.magnitude() * d,
    ensures
        Number::nearest(negative, n, d) is Finite,
        Number::nearest(negative, n, d).magnitude() <= y.magnitude(),
{
    lemma_nearest_multiple(n, d);
    let r = Number::nearest(negative, n, d);
    let step = Number::spacing(n, d);
    let p = pow2(step) as int;
    let unit = (d * pow2(step)) as int;
    let exact = (n * pow2(1074)) as int;
    let multiple = Number::nearest_multiple(n, d, step);
    let mag = y.magnitude() as int;
    lemma_pow2_pos(step);
    if mag < multiple * p {
        assert(mag * d < multiple * unit) by (nonlinear_arith)
            requires
                mag < multiple * p,
                unit == d * p,
                d > 0,
        ;
        assert(mag * d > (multiple - 1) * unit) by (nonlinear_arith)
            requires
                exact <= mag * d,
                2 * (multiple * unit - exact) <= unit,
                unit > 0,
        ;
        assert(mag > (multiple - 1) * p) by (nonlinear_arith)
            requires
                mag * d > (multiple - 1) * unit,
                unit == d * p,
                d > 0,
        ;
        lemma_spacing_exists(n, d);
        assert(multiple > 0) by (nonlinear_arith)
            requires
                0 <= mag < multiple * p,
                p > 0,
        ;
        if multiple == 0x10_0000_0000_0000 && step > 0 {
            // The ratio itself is not below this multiple.
            assert(exact >= multiple * unit) by (nonlinear_arith)
                requires
                    unit * 0x10_0000_0000_0000 <= exact,
                    multiple == 0x10_0000_0000_0000,
            ;
        } else {
            lemma_no_number_between(y, step, multiple - 1);
        }
    }
    if r is Infinite {
        lemma_largest(y);
        lemma_infinite_multiple(n, d);
    } else {
        lemma_nearest_magnitude(negative, n, d);
    }
}

/// No representable magnitude lies strictly between neighbouring multiples of a spacing.
proof fn lemma_no_number_between(y: Number, step: nat, multiple: int)
    requires
        y is Finite,
        y.representable(),
        multiple * pow2(step) < y.magnitude() < (multiple + 1) * pow2(step),
        0 <= multiple,
    ensures
        step > 0,
        multiple < 0x10_0000_0000_0000,
{
    match y {
        Number::Finite { negative, mantissa, exponent } => {
            let p = pow2(step) as int;
            let own = pow2((exponent + 1074) as nat) as int;
            let mag = mantissa * own;
            lemma_pow2_pos(step);
            lemma_pow2_pos((exponent + 1074) as nat);
            assert(mag >= 0) by (nonlinear_arith)
                requires
                    mag == mantissa * own,
                    mantissa >= 0,
                    own > 0,
            ;
            if exponent + 1074 >= step {
                let more = pow2((exponent + 1074 - step) as nat) as int;
                lemma_pow2_adds(step, (exponent + 1074 - step) as nat);
                let k = mantissa * more;
                assert(mag == k * p) by (nonlinear_arith)
                    requires
                        mag == mantissa * own,
                        own == p * more,
                        k == mantissa * more,
                ;
                assert(multiple < k) by (nonlinear_arith)
                    requires
                        multiple * p < k * p,
                        p > 0,
                ;
                assert(k < multiple + 1) by (nonlinear_arith)
                    requires
                        k * p < (multiple + 1) * p,
                        p > 0,
                ;
            } else {
                let more = pow2((step - (exponent + 1074)) as nat) as int;
                lemma_pow2_adds((exponent + 1074) as nat, (step - (exponent + 1074)) as nat);
                lemma_pow2_unfold((step - (exponent + 1074)) as nat);
                lemma_pow2_pos((step - (exponent + 1074) - 1) as nat);
                assert(mag < 0x10_0000_0000_0000 * p) by (nonlinear_arith)
                    requires
                        mag == mantissa * own,
                        p == own * more,
                        more >= 2,
                        own > 0,
                        0 <= mantissa < 0x20_0000_0000_0000,
                ;
                assert(multiple < 0x10_0000_0000_0000) by (nonlinear_arith)
                    requires
                        multiple * p < mag,
                        mag < 0x10_0000_0000_0000 * p,
                        p > 0,
                ;
            }
        },
        _ => {},
    }
}

proof fn lemma_largest(y: Number)
    requires
        y is Finite,
        y.representable(),
    ensures
        y.magnitude() < 0x20_0000_0000_0000 * pow2(2045),
{
    match y {
        Number::Finite { negative, mantissa, exponent } => {
            let own = pow2((exponent + 1074) as nat) as int;
            lemma_pow2_pos((exponent + 1074) as nat);
            if exponent < 971 {
                lemma_pow2_strictly_increases((exponent + 1074) as nat, 2045);
            }
            assert(0 <= mantissa * own < 0x20_0000_0000_0000 * pow2(2045)) by (nonlinear_arith)
                requires
                    0 <= mantissa < 0x20_0000_0000_0000,
                    0 < own <= pow2(2045),
            ;
        },
        _ => {},
    }
}

proof fn lemma_infinite_multiple(n: nat, d: nat)
    requires
        0 < d,
        Number::nearest(false, n, d) is Infinite,
    ensures
        Number::nearest_multiple(n, d, Number::spacing(n, d)) * pow2(Number::spacing(n, d))
            >= 0x20_0000_0000_0000 * pow2(2045),
{
    lemma_nearest_multiple(n, d);
    let step = Number::spacing(n, d);
    let multiple = Number::nearest_multiple(n, d, step);
    let p = pow2(step) as int;
    let top = pow2(2045) as int;
    lemma_pow2_pos(2045);
    if multiple == 0x20_0000_0000_0000 {
        if step > 2045 {
            lemma_pow2_strictly_increases(2045, step);
        }
        assert(multiple * p >= 0x20_0000_0000_0000 * top) by (nonlinear_arith)
            requires
                multiple == 0x20_0000_0000_0000,
                p >= top,
        ;
    } else {
        assert(step >= 2046);
        if step > 2046 {
            lemma_pow2_strictly_increases(2046, step);
        }
        lemma_pow2_unfold(2046);
        assert(multiple * p >= 0x20_0000_0000_0000 * top) by (nonlinear_arith)
            requires
                multiple >= 0x10_0000_0000_0000,
                p >= 2 * top,
                top > 0,
        ;
    }
}

/// A ratio that is `m * 2^e` with a mantissa of at most 53 bits is not changed by rounding.
pub proof fn law_rounding_exact(negative: bool, n: nat, d: nat, m: nat, e: int)
    requires
        crate::double::rounding::located(n, d, m, e, Remainder::Zero),
        m < 0x20_0000_0000_0000,
        -1074 <= e <= 971,
    ensures
        Number::nearest(negative, n, d) is Finite,
        Number::nearest(negative, n, d).is_negative() == negative,
        Number::nearest(negative, n, d).magnitude() == m * pow2((e + 1074) as nat),
    decreases e + 1074,
{
    if e == -1074 || 0x10_0000_0000_0000 <= m {
        crate::double::rounding::lemma_located_nearest(n, d, m, e, Remainder::Zero);
    } else {
        let half = pow2((e - 1 + 1074) as nat);
        lemma_pow2_unfold((e + 1074) as nat);
        crate::double::rounding::lemma_located_doubled(n, d, m, e);
        assert((2 * m) * half == m * pow2((e + 1074) as nat)) by (nonlinear_arith)
            requires
                pow2((e + 1074) as nat) == 2 * half,
        ;
        law_rounding_exact(negative, n, d, 2 * m, e - 1);
    }
}

/// Integers of at most 53 bits are numbers.
pub proof fn law_integers_exact(n: nat)
    requires
        n < 0x20_0000_0000_0000,
    ensures
        Number::integer(n) is Finite,
        Number::integer(n).representable(),
        Number::integer(n).scaled() == n * pow2(1074),
        Number::integer(n).magnitude() == n * pow2(1074),
        !Number::integer(n).is_negative(),
{
    assert(n * pow2(2400) == n * (1 * pow2(2400)));
    crate::double::arithmetic::lemma_exactly_located(n, 1, n, 0);
    law_rounding_exact(false, n, 1, n, 0);
    law_rounding_representable(false, n, 1);
}

/// Truncating the number of an integer gives the integer back.
pub proof fn law_integers_truncate(n: nat, limit: nat)
    requires
        n < 0x20_0000_0000_0000,
        n <= limit,
    ensures
        Number::integer(n).truncated(limit) == n,
{
    law_integers_exact(n);
    lemma_pow2_pos(1074);
    vstd::arithmetic::div_mod::lemma_div_multiples_vanish(n as int, pow2(1074) as int);
    assert(n * pow2(1074) == pow2(1074) * n) by (nonlinear_arith);
}

/// Numbers from integers are ordered as the integers are.
pub proof fn law_integers_ordered(a: nat, b: nat)
    requires
        a < 0x20_0000_0000_0000,
        b < 0x20_0000_0000_0000,
    ensures
        Number::integer(a).below(Number::integer(b)) == (a < b),
        Number::integer(a).at_most(Number::integer(b)) == (a <= b),
{
    law_integers_exact(a);
    law_integers_exact(b);
    lemma_pow2_pos(1074);
    let one = pow2(1074);
    assert((a * one < b * one) == (a < b)) by (nonlinear_arith)
        requires
            one > 0,
    ;
    assert((b * one < a * one) == (b < a)) by (nonlinear_arith)
        requires
            one > 0,
    ;
}

/// A fraction whose value is at most an integer does not round to more than it.
pub proof fn law_ratio_at_most(n: nat, d: nat, bound: nat)
    requires
        0 < d,
        n <= bound * d,
        bound < 0x20_0000_0000_0000,
    ensures
        Number::ratio(n, d).at_most(Number::integer(bound)),
{
    law_integers_exact(bound);
    law_rounding_representable(false, n, d);
    let one = pow2(1074);
    assert(n * one <= (bound * one) * d) by (nonlinear_arith)
        requires
            n <= bound * d,
    ;
    law_rounding_not_above(false, n, d, Number::integer(bound));
}

/// For 32-bit integers, rounding the quotient does not change the integer above it.
pub proof fn law_quotient_ceiling(a: nat, b: nat, limit: nat)
    requires
        a <= u32::MAX,
        0 < b <= u32::MAX,
        a <= limit,
    ensures
        Number::integer(a).over(Number::integer(b)).ceiling(limit) == (a + b - 1) / (b as int),
{
    let one = pow2(1074) as int;
    let n = (a * one) as nat;
    let d = (b * one) as nat;
    let q = (a / b) as int;
    let left = (a % b) as int;
    lemma_pow2_pos(1074);
    lemma_pow2_exceeds(32);
    lemma2_to64();
    lemma_pow2_strictly_increases(32, 1074);
    law_integers_exact(a);
    law_integers_exact(b);
    law_integers_exact(q as nat);
    law_integers_exact((q + 1) as nat);
    vstd::arithmetic::div_mod::lemma_fundamental_div_mod(a as int, b as int);
    assert(a == q * b + left) by (nonlinear_arith)
        requires
            a == b * q + left,
    ;
    assert(0 < b * one && 0 <= a * one) by (nonlinear_arith)
        requires
            0 < b,
            0 < one,
            0 <= a,
    ;
    lemma_not_zero(b);
    let r = Number::nearest(false, n, d);
    assert(Number::integer(a).over(Number::integer(b)) == r);
    law_rounding_representable(false, n, d);
    if left == 0 {
        assert(n * pow2(2400) == q * (d * pow2(2400))) by (nonlinear_arith)
            requires
                n == a * one,
                d == b * one,
                a == q * b,
        ;
        crate::double::arithmetic::lemma_exactly_located(n, d, q as nat, 0);
        law_rounding_exact(false, n, d, q as nat, 0);
        vstd::arithmetic::div_mod::lemma_fundamental_div_mod_converse(
            q * one + one - 1,
            one,
            q,
            one - 1,
        );
        vstd::arithmetic::div_mod::lemma_fundamental_div_mod_converse(
            a + b - 1,
            b as int,
            q,
            b - 1,
        );
        assert(q <= a) by (nonlinear_arith)
            requires
                a == q * b,
                b >= 1,
                q >= 0,
        ;
    } else {
        assert((q * one) * d <= n * one) by (nonlinear_arith)
            requires
                n == a * one,
                d == b * one,
                a == q * b + left,
                left > 0,
                one > 0,
        ;
        assert(n * one <= ((q + 1) * one) * d) by (nonlinear_arith)
            requires
                n == a * one,
                d == b * one,
                a == q * b + left,
                left < b,
                one > 0,
        ;
        law_rounding_not_below(false, n, d, Number::integer(q as nat));
        law_rounding_not_above(false, n, d, Number::integer((q + 1) as nat));
        lemma_nearest_multiple(n, d);
        lemma_nearest_magnitude(false, n, d);
        lemma_spacing_exists(n, d);
        let step = Number::spacing(n, d);
        let p = pow2(step) as int;
        let unit = (d * pow2(step)) as int;
        let multiple = Number::nearest_multiple(n, d, step);
        let exact = n * one;
        let mag = r.magnitude() as int;
        let square = one * one;
        assert(square > 0) by (nonlinear_arith)
            requires
                square == one * one,
                one > 0,
        ;
        assert(exact == a * square && exact == q * one * d + left * square) by (nonlinear_arith)
            requires
                exact == n * one,
                n == a * one,
                d == b * one,
                a == q * b + left,
                square == one * one,
        ;
        assert(unit < 2 * square) by {
            lemma2_to64();
            if step == 0 {
                assert(unit < square) by (nonlinear_arith)
                    requires
                        unit == d * p,
                        p == 1,
                        d == b * one,
                        b < one,
                        one > 0,
                        square == one * one,
                ;
            } else {
                assert(unit < square) by (nonlinear_arith)
                    requires
                        unit * 0x10_0000_0000_0000 <= exact,
                        exact == a * square,
                        a < 0x1_0000_0000,
                        square > 0,
                ;
            }
        }
        if mag == q * one {
            assert(multiple * unit == mag * d) by (nonlinear_arith)
                requires
                    mag == multiple * p,
                    unit == d * p,
            ;
            assert(left * square >= square) by (nonlinear_arith)
                requires
                    left >= 1,
                    square >= 0,
            ;
            assert(mag * d == q * one * d);
        }
        assert((q + 1) * one == q * one + one) by (nonlinear_arith);
        vstd::arithmetic::div_mod::lemma_fundamental_div_mod_converse(
            mag + one - 1,
            one,
            q + 1,
            mag - 1 - q * one,
        );
        assert((q + 1) * b == q * b + b) by (nonlinear_arith);
        vstd::arithmetic::div_mod::lemma_fundamental_div_mod_converse(
            a + b - 1,
            b as int,
            q + 1,
            left - 1,
        );
        assert(q + 1 <= a) by (nonlinear_arith)
            requires
                a == q * b + left,
                b >= 1,
                left >= 1,
                q >= 0,
        ;
    }
}

/// An integer but 0 is a number but zero.
pub proof fn lemma_not_zero(b: nat)
    requires
        0 < b < 0x20_0000_0000_0000,
    ensures
        !Number::integer(b).is_zero(),
{
    law_integers_exact(b);
    lemma_pow2_pos(1074);
    assert(b * pow2(1074) > 0) by (nonlinear_arith)
        requires
            b > 0,
            pow2(1074) > 0,
    ;
    if Number::integer(b).is_zero() {
        assert(0 * pow2((Number::integer(b)->exponent + 1074) as nat) == 0);
    }
}

/// Rounding a number that there is gives that number.
pub proof fn law_rounding_of_number(x: Number)
    requires
        x is Finite,
        x.representable(),
    ensures
        Number::nearest(x.is_negative(), x.magnitude(), pow2(1074)) == x,
{
    match x {
        Number::Finite { negative, mantissa, exponent } => {
            let step = (exponent + 1074) as nat;
            let p = pow2(step) as int;
            let one = pow2(1074) as int;
            let n = x.magnitude();
            lemma_pow2_pos(step);
            lemma_pow2_pos(1074);
            assert(mantissa * p >= 0) by (nonlinear_arith)
                requires
                    mantissa >= 0,
                    p > 0,
            ;
            assert(n == mantissa * p);
            assert(n * one < one * p * 0x20_0000_0000_0000) by (nonlinear_arith)
                requires
                    n == mantissa * p,
                    mantissa < 0x20_0000_0000_0000,
                    p > 0,
                    one > 0,
            ;
            if step > 0 {
                assert(one * p * 0x10_0000_0000_0000 <= n * one) by (nonlinear_arith)
                    requires
                        n == mantissa * p,
                        mantissa >= 0x10_0000_0000_0000,
                        p > 0,
                        one > 0,
                ;
            }
            assert(Number::spaced_by(n, pow2(1074), step));
            lemma_spacing_exists(n, pow2(1074));
            crate::double::rounding::lemma_spacing_unique(
                n,
                pow2(1074),
                step,
                Number::spacing(n, pow2(1074)),
            );
            let unit = (pow2(1074) * pow2(step)) as int;
            assert(unit > 0) by (nonlinear_arith)
                requires
                    unit == one * p,
                    one > 0,
                    p > 0,
            ;
            assert((n * pow2(1074)) as int == unit * mantissa) by (nonlinear_arith)
                requires
                    n == mantissa * p,
                    unit == one * p,
                    one == pow2(1074),
            ;
            vstd::arithmetic::div_mod::lemma_fundamental_div_mod_converse(
                (n * pow2(1074)) as int,
                unit,
                mantissa,
                0,
            );
        },
        _ => {},
    }
}

} // verus!
