use vstd::arithmetic::power2::*;
use vstd::prelude::*;

use crate::double::{Double, Number};

verus! {

/// How the part that was cut off compares with half a unit.
#[derive(Clone, Copy, PartialEq, Eq, Structural)]
pub enum Remainder {
    Zero,
    BelowHalf,
    Half,
    AboveHalf,
}

/// Is `rest` the remainder so described of a division by `unit`?
pub open spec fn describes(remainder: Remainder, rest: int, unit: int) -> bool {
    match remainder {
        Remainder::Zero => rest == 0 && 0 < unit,
        Remainder::BelowHalf => 0 < rest && 2 * rest < unit,
        Remainder::Half => 0 < rest && 2 * rest == unit,
        Remainder::AboveHalf => unit < 2 * rest && rest < unit,
    }
}

/// Is `n / d` equal to `(m + part) * 2^e`, with `part` below one and as `remainder` says?
pub open spec fn located(n: nat, d: nat, m: nat, e: int, remainder: Remainder) -> bool {
    &&& -2400 <= e
    &&& describes(
        remainder,
        n * pow2(2400) - m * (d * pow2((e + 2400) as nat)),
        (d * pow2((e + 2400) as nat)) as int,
    )
}

/// What halving a whole number with a remainder leaves as its remainder.
pub fn halved(odd: bool, remainder: Remainder) -> (r: Remainder)
    ensures
        forall|rest: int, unit: int|
            #![trigger describes(remainder, rest, unit)]
            describes(remainder, rest, unit) ==> describes(
                r,
                rest + (if odd {
                    unit
                } else {
                    0
                }),
                2 * unit,
            ),
{
    match (odd, remainder) {
        (false, Remainder::Zero) => Remainder::Zero,
        (false, _) => Remainder::BelowHalf,
        (true, Remainder::Zero) => Remainder::Half,
        (true, _) => Remainder::AboveHalf,
    }
}

pub proof fn lemma_located_halved(n: nat, d: nat, m: nat, e: int, before: Remainder, after: Remainder)
    requires
        located(n, d, m, e, before),
        forall|rest: int, unit: int|
            #![trigger describes(before, rest, unit)]
            describes(before, rest, unit) ==> describes(
                after,
                rest + (if m % 2 == 1 {
                    unit
                } else {
                    0
                }),
                2 * unit,
            ),
    ensures
        located(n, d, m / 2, e + 1, after),
{
    let unit = (d * pow2((e + 2400) as nat)) as int;
    let rest = n * pow2(2400) - m * unit;
    assert(describes(before, rest, unit));
    lemma_pow2_unfold((e + 1 + 2400) as nat);
    assert(d * pow2((e + 1 + 2400) as nat) == 2 * unit) by (nonlinear_arith)
        requires
            unit == d * pow2((e + 2400) as nat),
            pow2((e + 1 + 2400) as nat) == 2 * pow2((e + 2400) as nat),
    ;
    let half = (m / 2) as int;
    let odd: int = if m % 2 == 1 { 1 } else { 0 };
    assert(m * unit == half * (2 * unit) + odd * unit) by (nonlinear_arith)
        requires
            m == 2 * half + odd,
    ;
}

pub proof fn lemma_located_doubled(n: nat, d: nat, m: nat, e: int)
    requires
        located(n, d, m, e, Remainder::Zero),
        -2400 < e,
    ensures
        located(n, d, 2 * m, e - 1, Remainder::Zero),
{
    let unit = (d * pow2((e - 1 + 2400) as nat)) as int;
    lemma_pow2_unfold((e + 2400) as nat);
    assert(d * pow2((e + 2400) as nat) == 2 * unit) by (nonlinear_arith)
        requires
            unit == d * pow2((e - 1 + 2400) as nat),
            pow2((e + 2400) as nat) == 2 * pow2((e - 1 + 2400) as nat),
    ;
    assert(m * (2 * unit) == (2 * m) * unit) by (nonlinear_arith);
}

/// The spacing around a ratio is unique.
pub proof fn lemma_spacing_unique(n: nat, d: nat, a: nat, b: nat)
    requires
        Number::spaced_by(n, d, a),
        Number::spaced_by(n, d, b),
    ensures
        a == b,
{
    if a < b {
        lemma_spacing_order(n, d, a, b);
    } else if b < a {
        lemma_spacing_order(n, d, b, a);
    }
}

proof fn lemma_spacing_order(n: nat, d: nat, a: nat, b: nat)
    requires
        Number::spaced_by(n, d, a),
        a < b,
    ensures
        !Number::spaced_by(n, d, b),
{
    lemma_pow2_adds(a, (b - a) as nat);
    lemma_pow2_unfold((b - a) as nat);
    lemma_pow2_pos((b - a - 1) as nat);
    lemma_pow2_pos(a);
    let more = pow2((b - a) as nat);
    assert(d * pow2(b) * 0x10_0000_0000_0000 >= d * pow2(a) * 0x20_0000_0000_0000)
        by (nonlinear_arith)
        requires
            pow2(b) == pow2(a) * more,
            more >= 2,
            d >= 0,
            pow2(a) >= 0,
    ;
}

/// A located ratio with a 53-bit whole part shows the spacing and the nearest multiple.
pub proof fn lemma_located_nearest(n: nat, d: nat, m: nat, e: int, remainder: Remainder)
    requires
        located(n, d, m, e, remainder),
        -1074 <= e,
        m < 0x20_0000_0000_0000,
        e == -1074 || 0x10_0000_0000_0000 <= m,
    ensures
        Number::spacing(n, d) == e + 1074,
        Number::nearest_multiple(n, d, (e + 1074) as nat) == (if remainder is AboveHalf || (
        remainder is Half && m % 2 == 1) {
            m + 1
        } else {
            m
        }),
{
    let step = (e + 1074) as nat;
    let unit = (d * pow2(step)) as int;
    let scaled = (n * pow2(1074)) as int;
    let common = pow2(1326);
    lemma_pow2_pos(1326);
    lemma_pow2_adds(1074, 1326);
    lemma_pow2_adds(step, 1326);
    assert((e + 2400) as nat == step + 1326);
    let wide = (d * pow2((e + 2400) as nat)) as int;
    assert(wide == unit * common) by (nonlinear_arith)
        requires
            wide == d * pow2((e + 2400) as nat),
            pow2((e + 2400) as nat) == pow2(step) * common,
            unit == d * pow2(step),
    ;
    assert(n * pow2(2400) == scaled * common) by (nonlinear_arith)
        requires
            pow2(2400) == pow2(1074) * common,
            scaled == n * pow2(1074),
    ;
    let rest = scaled - m * unit;
    assert(scaled * common - m * (unit * common) == rest * common) by (nonlinear_arith)
        requires
            rest == scaled - m * unit,
    ;
    lemma_describes_scaled(remainder, rest, unit, common as int);
    assert(scaled == unit * m + rest) by (nonlinear_arith)
        requires
            rest == scaled - m * unit,
    ;
    vstd::arithmetic::div_mod::lemma_fundamental_div_mod_converse(scaled, unit, m as int, rest);
    assert(scaled < unit * 0x20_0000_0000_0000) by (nonlinear_arith)
        requires
            scaled == unit * m + rest,
            0 <= rest < unit,
            m < 0x20_0000_0000_0000,
    ;
    if e != -1074 {
        assert(unit * 0x10_0000_0000_0000 <= scaled) by (nonlinear_arith)
            requires
                scaled == unit * m + rest,
                0 <= rest < unit,
                m >= 0x10_0000_0000_0000,
        ;
    }
    assert(Number::spaced_by(n, d, step));
    lemma_spacing_unique(n, d, step, Number::spacing(n, d));
}

pub proof fn lemma_describes_scaled(remainder: Remainder, rest: int, unit: int, common: int)
    requires
        describes(remainder, rest * common, unit * common),
        0 < common,
    ensures
        describes(remainder, rest, unit),
{
    assert(0 < unit * common ==> 0 < unit) by (nonlinear_arith)
        requires
            0 < common,
    ;
    assert(rest * common == 0 ==> rest == 0) by (nonlinear_arith)
        requires
            0 < common,
    ;
    assert(0 < rest * common ==> 0 < rest) by (nonlinear_arith)
        requires
            0 < common,
    ;
    assert(2 * (rest * common) < unit * common ==> 2 * rest < unit) by (nonlinear_arith)
        requires
            0 < common,
    ;
    assert(2 * (rest * common) == unit * common ==> 2 * rest == unit) by (nonlinear_arith)
        requires
            0 < common,
    ;
    assert(unit * common < 2 * (rest * common) ==> unit < 2 * rest) by (nonlinear_arith)
        requires
            0 < common,
    ;
    assert(rest * common < unit * common ==> rest < unit) by (nonlinear_arith)
        requires
            0 < common,
    ;
}

/// The number nearest to a located ratio.
pub(crate) fn round_located(
    negative: bool,
    whole: u128,
    power: i32,
    cut: Remainder,
    Ghost(n): Ghost<nat>,
    Ghost(d): Ghost<nat>,
) -> (r: Double)
    requires
        located(n, d, whole as nat, power as int, cut),
        -2400 <= power <= 2400,
        cut is Zero || 0x10_0000_0000_0000 <= whole || power <= -1074,
    ensures
        r@ == Number::nearest(negative, n, d),
{
    let mut m: u128 = whole;
    let mut e: i32 = power;
    let mut remainder: Remainder = cut;
    while e < -1074
        invariant
            located(n, d, m as nat, e as int, remainder),
            -2400 <= e <= 2400,
            remainder is Zero || 0x10_0000_0000_0000 <= m || e <= -1074,
        decreases -1074 - e,
    {
        let next: Remainder = halved(m % 2 == 1, remainder);
        proof {
            lemma_located_halved(n, d, m as nat, e as int, remainder, next);
        }
        m = m / 2;
        e = e + 1;
        remainder = next;
    }
    let ghost mut room: nat = 75;
    proof {
        lemma2_to64();
        lemma2_to64_rest();
        lemma_pow2_adds(64, 11);
    }
    let ghost top: int = e + 75;
    while m >= 0x20_0000_0000_0000
        invariant
            located(n, d, m as nat, e as int, remainder),
            -1074 <= e <= 2475,
            e + room == top,
            top <= 2475,
            m < 0x20_0000_0000_0000 * pow2(room),
            remainder is Zero || 0x10_0000_0000_0000 <= m || e <= -1074,
        decreases m,
    {
        let next: Remainder = halved(m % 2 == 1, remainder);
        proof {
            lemma_located_halved(n, d, m as nat, e as int, remainder, next);
            lemma2_to64();
            assert(room > 0);
            lemma_pow2_unfold(room);
            room = (room - 1) as nat;
        }
        m = m / 2;
        e = e + 1;
        remainder = next;
    }
    while m < 0x10_0000_0000_0000 && e > -1074
        invariant
            located(n, d, m as nat, e as int, remainder),
            -1074 <= e <= 2475,
            m < 0x20_0000_0000_0000,
            remainder is Zero || 0x10_0000_0000_0000 <= m || e <= -1074,
        decreases e + 1074,
    {
        proof {
            lemma_located_doubled(n, d, m as nat, e as int);
        }
        m = 2 * m;
        e = e - 1;
    }
    proof {
        lemma_located_nearest(n, d, m as nat, e as int, remainder);
    }
    let up: bool = match remainder {
        Remainder::AboveHalf => true,
        Remainder::Half => m % 2 == 1,
        _ => false,
    };
    let mut mantissa: u64 = m as u64;
    if up {
        mantissa = mantissa + 1;
    }
    if mantissa == 0x20_0000_0000_0000 {
        mantissa = 0x10_0000_0000_0000;
        e = e + 1;
    }
    if e > 971 {
        Double::infinite(negative)
    } else {
        Double::finite(negative, mantissa, e)
    }
}

} // verus!
