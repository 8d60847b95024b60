use vstd::prelude::*;

use crate::double::{Double, Number};

verus! {

/// Incoming request rate (requests per second) as a function of time in seconds.
#[derive(Clone, Copy, Debug)]
pub enum WorkloadPattern {
    Steady { rps: Double },
    Step { base: Double, step_to: Double, step_at: u32 },
    Burst { base: Double, peak: Double, burst_start: u32, burst_end: u32 },
    /// Linear ramp from `base` up to `peak` over `ramp_duration` seconds, then holds at peak.
    Ramp { base: Double, peak: Double, ramp_duration: u32 },
    /// Repeating sawtooth: linear ramp from `base` to `peak` over `period` seconds, then
    /// instant drop back to `base`. Good for testing oscillation and recovery.
    Sawtooth { base: Double, peak: Double, period: u32 },
    /// Sinusoidal oscillation around `center` with the given `amplitude` and `period_s`,
    /// cut off at 0.
    Wave { center: Double, amplitude: Double, period_s: u32 },
    /// Two independent bursts. Tests recovery between events.
    DoubleBurst {
        base: Double,
        peak: Double,
        burst1_start: u32,
        burst1_end: u32,
        burst2_start: u32,
        burst2_end: u32,
    },
}

impl WorkloadPattern {
    /// The value `part / whole` of the way from `base` to `peak`.
    pub open spec fn between(base: Number, peak: Number, part: nat, whole: nat) -> Number {
        base.plus(peak.minus(base).times(Number::integer(part).over(Number::integer(whole))))
    }

    /// The rate at second `t`, where `sine` is the sine of the wave's angle at that second.
    pub open spec fn rate(self, t: u32, sine: Number) -> Number {
        match self {
            WorkloadPattern::Steady { rps } => rps@,
            WorkloadPattern::Step { base, step_to, step_at } => if t < step_at {
                base@
            } else {
                step_to@
            },
            WorkloadPattern::Burst { base, peak, burst_start, burst_end } => if burst_start <= t
                < burst_end {
                peak@
            } else {
                base@
            },
            WorkloadPattern::Ramp { base, peak, ramp_duration } => if t < ramp_duration {
                Self::between(base@, peak@, t as nat, ramp_duration as nat)
            } else {
                peak@
            },
            WorkloadPattern::Sawtooth { base, peak, period } => if period == 0 {
                base@
            } else {
                Self::between(base@, peak@, t as nat % period as nat, period as nat)
            },
            WorkloadPattern::Wave { center, amplitude, period_s } => if period_s == 0 {
                center@.greater(Number::zero(false))
            } else {
                center@.plus(amplitude@.times(sine)).greater(Number::zero(false))
            },
            WorkloadPattern::DoubleBurst {
                base,
                peak,
                burst1_start,
                burst1_end,
                burst2_start,
                burst2_end,
            } => if burst1_start <= t < burst1_end || burst2_start <= t < burst2_end {
                peak@
            } else {
                base@
            },
        }
    }

    /// A full turn, in radians: twice the number nearest to pi.
    pub open spec fn full_turn() -> Number {
        Number::Finite { negative: false, mantissa: 0x19_21fb_5444_2d18, exponent: -50 }
    }

    fn turn() -> (r: Double)
        ensures
            r@ == Self::full_turn(),
    {
        Double::from_bits(0x4019_21fb_5444_2d18)
    }

    /// The angle, in radians, whose sine a wave takes at second `t`.
    pub fn angle_at(&self, t: u32) -> (r: Option<Double>)
        ensures
            match *self {
                WorkloadPattern::Wave { center, amplitude, period_s } => {
                    if period_s == 0 {
                        r is None
                    } else {
                        &&& r is Some
                        &&& r->0@ == Self::full_turn().times(Number::integer(t as nat)).over(
                            Number::integer(period_s as nat),
                        )
                    }
                },
                _ => r is None,
            },
    {
        match *self {
            WorkloadPattern::Wave { center, amplitude, period_s } => if period_s == 0 {
                None
            } else {
                Some(Self::turn().mul(Double::from_u32(t)).div(Double::from_u32(period_s)))
            },
            _ => None,
        }
    }

    fn along(base: Double, peak: Double, part: u32, whole: u32) -> (r: Double)
        ensures
            r@ == Self::between(base@, peak@, part as nat, whole as nat),
    {
        base.add(peak.sub(base).mul(Double::from_u32(part).div(Double::from_u32(whole))))
    }

    /// The rate at second `t`. Only a wave reads `sine`, the sine of `angle_at(t)`.
    pub fn rps_at(&self, t: u32, sine: Double) -> (r: Double)
        ensures
            r@ == self.rate(t, sine@),
    {
        match *self {
            WorkloadPattern::Steady { rps } => rps,
            WorkloadPattern::Step { base, step_to, step_at } => if t >= step_at {
                step_to
            } else {
                base
            },
            WorkloadPattern::Burst { base, peak, burst_start, burst_end } => if t >= burst_start
                && t < burst_end {
                peak
            } else {
                base
            },
            WorkloadPattern::Ramp { base, peak, ramp_duration } => if ramp_duration == 0 || t
                >= ramp_duration {
                peak
            } else {
                Self::along(base, peak, t, ramp_duration)
            },
            WorkloadPattern::Sawtooth { base, peak, period } => if period == 0 {
                base
            } else {
                Self::along(base, peak, t % period, period)
            },
            WorkloadPattern::Wave { center, amplitude, period_s } => if period_s == 0 {
                center.max(Double::from_bits(0))
            } else {
                center.add(amplitude.mul(sine)).max(Double::from_bits(0))
            },
            WorkloadPattern::DoubleBurst {
                base,
                peak,
                burst1_start,
                burst1_end,
                burst2_start,
                burst2_end,
            } => if (t >= burst1_start && t < burst1_end) || (t >= burst2_start && t
                < burst2_end) {
                peak
            } else {
                base
            },
        }
    }
}

/// A sawtooth repeats itself after each period.
pub proof fn law_sawtooth_repeats(base: Double, peak: Double, period: u32, t: u32, sine: Number)
    requires
        t + period <= u32::MAX,
    ensures
        ({
            let sawtooth = WorkloadPattern::Sawtooth { base, peak, period };
            sawtooth.rate((t + period) as u32, sine) == sawtooth.rate(t, sine)
        }),
{
    if period > 0 {
        vstd::arithmetic::div_mod::lemma_mod_add_multiples_vanish(t as int, period as int);
    }
}

/// A ramp holds at its peak once its duration is over.
pub proof fn law_ramp_holds(base: Double, peak: Double, ramp_duration: u32, t: u32, sine: Number)
    requires
        ramp_duration <= t,
    ensures
        (WorkloadPattern::Ramp { base, peak, ramp_duration }).rate(t, sine) == peak@,
{
}

/// A wave is never below zero, nor NaN, whatever the sine.
pub proof fn law_wave_not_negative(
    center: Double,
    amplitude: Double,
    period_s: u32,
    t: u32,
    sine: Number,
)
    ensures
        Number::zero(false).at_most(
            (WorkloadPattern::Wave { center, amplitude, period_s }).rate(t, sine),
        ),
{
}

/// A wave is its center and a share of its amplitude, cut off at zero and nowhere else.
pub proof fn law_wave_is_cut_at_zero_only(
    center: Double,
    amplitude: Double,
    period_s: u32,
    t: u32,
    sine: Number,
)
    requires
        period_s > 0,
    ensures
        ({
            let rate = (WorkloadPattern::Wave { center, amplitude, period_s }).rate(t, sine);
            let swung = center@.plus(amplitude@.times(sine));
            &&& Number::zero(false).at_most(swung) ==> rate == swung
            &&& !Number::zero(false).at_most(swung) ==> rate == Number::zero(false)
        }),
{
}

/// Without a period a wave stays at its center, cut off at zero, and a sawtooth at its base.
pub proof fn law_no_period(center: Double, amplitude: Double, peak: Double, t: u32, sine: Number)
    ensures
        ({
            let wave = WorkloadPattern::Wave { center, amplitude, period_s: 0 };
            let saw = WorkloadPattern::Sawtooth { base: center, peak, period: 0 };
            &&& Number::zero(false).at_most(center@) ==> wave.rate(t, sine) == center@
            &&& !Number::zero(false).at_most(center@) ==> wave.rate(t, sine) == Number::zero(false)
            &&& saw.rate(t, sine) == center@
        }),
{
}

/// A wave swings around its center: where the sine is 0 it is there, where the sine is 1 it is
/// above by the amplitude, and where the sine is -1 it is below by the amplitude, unless that is
/// negative.
pub proof fn law_wave_swings_around_center(
    center: Double,
    amplitude: Double,
    period_s: u32,
    t: u32,
)
    requires
        period_s > 0,
        center@ is Finite,
        amplitude@ is Finite,
    ensures
        ({
            let wave = WorkloadPattern::Wave { center, amplitude, period_s };
            let zero = Number::zero(false);
            let above = center@.plus(amplitude@);
            let below = center@.minus(amplitude@);
            &&& zero.at_most(above) ==> wave.rate(t, Number::integer(1)) == above
            &&& zero.at_most(below) ==> wave.rate(t, Number::integer(1).negated()) == below
            &&& !zero.at_most(above) ==> wave.rate(t, Number::integer(1)) == zero
            &&& !zero.at_most(below) ==> wave.rate(t, Number::integer(1).negated()) == zero
            &&& zero.below(center@) ==> wave.rate(t, Number::integer(0)) == center@
            &&& center@.is_zero() ==> wave.rate(t, Number::integer(0)).is_zero()
            &&& center@ == zero ==> wave.rate(t, Number::integer(0)) == zero
            &&& center@.below(zero) ==> wave.rate(t, Number::integer(0)) == zero
        }),
{
    crate::double::decimals::lemma_representable(center);
    crate::double::decimals::lemma_representable(amplitude);
    crate::double::errors::law_times_one(amplitude@);
    crate::double::laws::law_integers_exact(0);
    lemma_zero_magnitude(Number::zero(false));
    let nothing = amplitude@.times(Number::integer(0));
    let d = vstd::arithmetic::power2::pow2(2148);
    vstd::arithmetic::power2::lemma_pow2_pos(2148);
    assert(amplitude@.magnitude() * Number::integer(0).magnitude() == 0) by (nonlinear_arith)
        requires
            Number::integer(0).magnitude() == 0 * vstd::arithmetic::power2::pow2(1074),
    ;
    crate::double::arithmetic::lemma_nearest_zero(amplitude@.is_negative(), d);
    lemma_zero_magnitude(nothing);
    if center@.is_zero() {
        lemma_zero_magnitude(center@);
    } else {
        lemma_plus_nothing(center@);
        crate::double::laws::law_rounding_of_number(center@);
    }
}

/// On whole numbers the swing is exact.
pub proof fn law_whole_wave(
    center: Double,
    amplitude: Double,
    period_s: u32,
    t: u32,
    c: nat,
    a: nat,
)
    requires
        period_s > 0,
        center@ == Number::integer(c),
        amplitude@ == Number::integer(a),
        c + a < 0x20_0000_0000_0000,
    ensures
        ({
            let wave = WorkloadPattern::Wave { center, amplitude, period_s };
            &&& wave.rate(t, Number::integer(1)) == Number::integer(c + a)
            &&& wave.rate(t, Number::integer(1).negated()) == Number::integer(
                if a <= c {
                    (c - a) as nat
                } else {
                    0
                },
            )
            &&& wave.rate(t, Number::integer(0)) == Number::integer(c)
        }),
{
    let one = vstd::arithmetic::power2::pow2(1074);
    vstd::arithmetic::power2::lemma_pow2_pos(1074);
    crate::double::laws::law_integers_exact(c);
    crate::double::laws::law_integers_exact(a);
    crate::double::laws::law_integers_exact(c + a);
    crate::double::laws::law_integers_exact(0);
    crate::double::errors::law_integer_sum(c, a);
    crate::double::arithmetic::lemma_nearest_zero(false, 1);
    lemma_zero_magnitude(Number::zero(false));
    law_wave_swings_around_center(center, amplitude, period_s, t);
    let wave = WorkloadPattern::Wave { center, amplitude, period_s };
    assert((c + a) * one >= 0) by (nonlinear_arith)
        requires
            one > 0,
    ;
    assert(c * one > 0 || c == 0) by (nonlinear_arith)
        requires
            one > 0,
            c >= 0,
    ;
    if a <= c {
        crate::double::errors::law_integer_difference(c, a);
        crate::double::laws::law_integers_exact((c - a) as nat);
        assert((c - a) * one >= 0) by (nonlinear_arith)
            requires
                one > 0,
                a <= c,
        ;
    } else {
        let below = center@.minus(amplitude@);
        assert(c * one < a * one) by (nonlinear_arith)
            requires
                c < a,
                one > 0,
        ;
        assert(a * one - c * one == (a - c) * one) by (nonlinear_arith);
        crate::double::errors::law_ratio_in_any_terms(true, (a - c) as nat, 1, one);
        crate::double::laws::law_integers_exact((a - c) as nat);
        crate::double::errors::lemma_moderate(true, (a - c) as nat, 1);
        assert((a - c) * one > 0) by (nonlinear_arith)
            requires
                c < a,
                one > 0,
        ;
        assert(below == Number::nearest(true, (a - c) as nat, 1));
        assert(below.magnitude() == (a - c) * one) by {
            crate::double::laws::lemma_nearest_magnitude(true, (a - c) as nat, 1);
            crate::double::laws::lemma_nearest_magnitude(false, (a - c) as nat, 1);
        }
        assert(below.scaled() < 0);
    }
    assert(wave.rate(t, Number::integer(1)) == Number::integer(c + a));
    assert(wave.rate(t, Number::integer(0)) == Number::integer(c));
}

/// Two bursts are at their peak exactly where one of the two alone is.
pub proof fn law_double_burst_is_either(
    base: Double,
    peak: Double,
    burst1_start: u32,
    burst1_end: u32,
    burst2_start: u32,
    burst2_end: u32,
    t: u32,
    sine: Number,
)
    ensures
        ({
            let both = WorkloadPattern::DoubleBurst {
                base,
                peak,
                burst1_start,
                burst1_end,
                burst2_start,
                burst2_end,
            };
            let first = WorkloadPattern::Burst {
                base,
                peak,
                burst_start: burst1_start,
                burst_end: burst1_end,
            };
            let second = WorkloadPattern::Burst {
                base,
                peak,
                burst_start: burst2_start,
                burst_end: burst2_end,
            };
            both.rate(t, sine) == (if burst1_start <= t < burst1_end {
                first.rate(t, sine)
            } else {
                second.rate(t, sine)
            })
        }),
{
}

/// A ramp and each period of a sawtooth start at the base. (Zero is zero, whatever its sign.)
pub proof fn law_slopes_start_at_base(base: Double, peak: Double, span: u32, t: u32, sine: Number)
    requires
        span > 0,
        base@ is Finite,
        peak@.minus(base@) is Finite,
        t % span == 0,
    ensures
        ({
            let ramp = (WorkloadPattern::Ramp { base, peak, ramp_duration: span }).rate(0, sine);
            let saw = (WorkloadPattern::Sawtooth { base, peak, period: span }).rate(t, sine);
            if base@.is_zero() {
                ramp.is_zero() && saw.is_zero()
            } else {
                ramp == base@ && saw == base@
            }
        }),
{
    lemma_no_part_of_the_way(base@, peak@, span as nat);
    crate::double::decimals::lemma_representable(base);
    if base@.is_zero() {
        lemma_zero_magnitude(base@);
        lemma_zero_magnitude(
            peak@.minus(base@).times(Number::integer(0).over(Number::integer(span as nat))),
        );
    } else {
        lemma_plus_nothing(base@);
    }
}

/// A sawtooth never falls within a period, nor a ramp before its end.
pub proof fn law_slopes_do_not_fall(base: Double, peak: Double, span: u32, t: u32, sine: Number)
    requires
        base@ is Finite,
        peak@.minus(base@) is Finite,
        base@.at_most(peak@),
        t < u32::MAX,
    ensures
        span > 0 && t % span + 1 < span ==> ({
            let saw = WorkloadPattern::Sawtooth { base, peak, period: span };
            saw.rate(t, sine).at_most(saw.rate((t + 1) as u32, sine))
        }),
        t + 1 < span ==> ({
            let ramp = WorkloadPattern::Ramp { base, peak, ramp_duration: span };
            ramp.rate(t, sine).at_most(ramp.rate((t + 1) as u32, sine))
        }),
{
    if span > 0 && t % span + 1 < span {
        let phase = t as nat % span as nat;
        vstd::arithmetic::div_mod::lemma_fundamental_div_mod(t as int, span as int);
        let turns = t as int / span as int;
        assert(t as int + 1 == turns * span as int + (phase as int + 1)) by (nonlinear_arith)
            requires
                t as int == span as int * turns + phase as int,
        ;
        vstd::arithmetic::div_mod::lemma_fundamental_div_mod_converse(
            t as int + 1,
            span as int,
            turns,
            phase as int + 1,
        );
        lemma_further_is_not_less(base@, peak@, phase, span as nat);
    }
    if t + 1 < span {
        lemma_further_is_not_less(base@, peak@, t as nat, span as nat);
    }
}

/// Further on the way from one number up to another is not less.
proof fn lemma_further_is_not_less(base: Number, peak: Number, part: nat, whole: nat)
    requires
        base is Finite,
        peak.minus(base) is Finite,
        base.at_most(peak),
        part + 1 < whole <= u32::MAX,
    ensures
        WorkloadPattern::between(base, peak, part, whole).at_most(
            WorkloadPattern::between(base, peak, part + 1, whole),
        ),
{
    let far = peak.minus(base);
    let near = Number::integer(part).over(Number::integer(whole));
    let next = Number::integer(part + 1).over(Number::integer(whole));
    let one = vstd::arithmetic::power2::pow2(1074);
    let d = vstd::arithmetic::power2::pow2(2148);
    vstd::arithmetic::power2::lemma_pow2_pos(1074);
    vstd::arithmetic::power2::lemma_pow2_pos(2148);
    vstd::arithmetic::power2::lemma_pow2_adds(1074, 1074);
    crate::double::laws::law_integers_exact(part);
    crate::double::laws::law_integers_exact(part + 1);
    crate::double::laws::law_integers_exact(whole);
    crate::double::laws::law_integers_exact(1);
    crate::double::laws::lemma_not_zero(whole);
    assert(part * one <= (part + 1) * one <= whole * one) by (nonlinear_arith)
        requires
            part + 1 < whole,
    ;
    assert(whole * one > 0) by (nonlinear_arith)
        requires
            whole > 0,
            one > 0,
    ;
    assert(((part + 1) * one) * one <= (1 * one) * (whole * one)) by (nonlinear_arith)
        requires
            part + 1 < whole,
    ;
    // The share of the way is at most one.
    crate::double::laws::law_rounding_not_above(
        false,
        ((part + 1) * one) as nat,
        (whole * one) as nat,
        Number::integer(1),
    );
    crate::double::laws::law_rounding_representable(
        false,
        ((part + 1) * one) as nat,
        (whole * one) as nat,
    );
    crate::double::laws::law_rounding_representable(
        false,
        (part * one) as nat,
        (whole * one) as nat,
    );
    crate::double::laws::law_rounding_keeps_order(
        false,
        (part * one) as nat,
        ((part + 1) * one) as nat,
        (whole * one) as nat,
    );
    let a = near.magnitude();
    let b = next.magnitude();
    assert(a <= b <= one);
    // The way itself is not negative, but for the sign of zero.
    lemma_difference(base, peak);
    let f = far.magnitude();
    assert(f * a <= f * b) by (nonlinear_arith)
        requires
            a <= b,
    ;
    assert((f * b) * one <= f * d) by (nonlinear_arith)
        requires
            b <= one,
            d == one * one,
    ;
    crate::double::laws::law_rounding_not_above(far.is_negative(), f * b, d, far);
    crate::double::laws::law_rounding_representable(far.is_negative(), f * b, d);
    crate::double::laws::law_rounding_representable(far.is_negative(), f * a, d);
    crate::double::laws::law_rounding_keeps_order(far.is_negative(), f * a, f * b, d);
    lemma_sums_ordered(base, far.times(near), far.times(next));
}

/// What lies between a number and one that is not less is representable, and not negative unless
/// it is zero.
proof fn lemma_difference(base: Number, peak: Number)
    requires
        base is Finite,
        peak.minus(base) is Finite,
        base.at_most(peak),
    ensures
        peak.minus(base).representable(),
        peak.minus(base).is_negative() ==> peak.minus(base).magnitude() == 0,
{
    vstd::arithmetic::power2::lemma_pow2_pos(1074);
    let one = vstd::arithmetic::power2::pow2(1074);
    let total = peak.scaled() + base.negated().scaled();
    assert(base.negated().magnitude() == base.magnitude());
    assert(base.negated().scaled() == -base.scaled());
    assert(total >= 0);
    if total > 0 {
        crate::double::laws::law_rounding_representable(false, total as nat, one);
    } else {
        lemma_zero_magnitude(peak.minus(base));
    }
}

/// Adding more does not give less.
proof fn lemma_sums_ordered(x: Number, a: Number, b: Number)
    requires
        x is Finite,
        a is Finite,
        b is Finite,
        a.scaled() <= b.scaled(),
    ensures
        x.plus(a).at_most(x.plus(b)),
{
    let one = vstd::arithmetic::power2::pow2(1074);
    vstd::arithmetic::power2::lemma_pow2_pos(1074);
    let s = x.scaled() + a.scaled();
    let t = x.scaled() + b.scaled();
    if s != 0 {
        crate::double::laws::law_rounding_representable(
            s < 0,
            if s < 0 {
                (-s) as nat
            } else {
                s as nat
            },
            one,
        );
    } else {
        lemma_zero_magnitude(x.plus(a));
    }
    if t != 0 {
        crate::double::laws::law_rounding_representable(
            t < 0,
            if t < 0 {
                (-t) as nat
            } else {
                t as nat
            },
            one,
        );
    } else {
        lemma_zero_magnitude(x.plus(b));
    }
    if s > 0 && x.plus(b) is Finite {
        crate::double::laws::law_rounding_keeps_order(false, s as nat, t as nat, one);
    }
    if t < 0 && x.plus(a) is Finite {
        crate::double::laws::law_rounding_keeps_order(true, (-t) as nat, (-s) as nat, one);
    }
}

proof fn lemma_no_part_of_the_way(base: Number, peak: Number, whole: nat)
    requires
        0 < whole <= u32::MAX,
        peak.minus(base) is Finite,
    ensures
        peak.minus(base).times(Number::integer(0).over(Number::integer(whole))).is_zero(),
{
    crate::double::laws::law_integers_exact(0);
    crate::double::laws::law_integers_exact(whole);
    crate::double::laws::lemma_not_zero(whole);
    let far = peak.minus(base);
    let part = Number::integer(0).over(Number::integer(whole));
    let one = vstd::arithmetic::power2::pow2(1074);
    vstd::arithmetic::power2::lemma_pow2_pos(1074);
    vstd::arithmetic::power2::lemma_pow2_pos(2148);
    assert(0 * one == 0) by (nonlinear_arith);
    assert(whole * one > 0) by (nonlinear_arith)
        requires
            whole > 0,
            one > 0,
    ;
    crate::double::arithmetic::lemma_nearest_zero(false, (whole * one) as nat);
    assert(part == Number::zero(false));
    lemma_zero_magnitude(part);
    let negative = far.is_negative() != part.is_negative();
    assert(far.magnitude() * 0 == 0) by (nonlinear_arith);
    crate::double::arithmetic::lemma_nearest_zero(
        negative,
        vstd::arithmetic::power2::pow2(2148),
    );
}

/// Zero is the only number with no magnitude.
proof fn lemma_zero_magnitude(x: Number)
    requires
        x is Finite,
    ensures
        x.is_zero() ==> x.magnitude() == 0,
        x.representable() && x.magnitude() == 0 ==> x == Number::zero(x.is_negative()),
{
    match x {
        Number::Finite { negative, mantissa, exponent } => {
            let p = vstd::arithmetic::power2::pow2((exponent + 1074) as nat) as int;
            vstd::arithmetic::power2::lemma_pow2_pos((exponent + 1074) as nat);
            assert((mantissa * p == 0) == (mantissa == 0)) by (nonlinear_arith)
                requires
                    p > 0,
            ;
            if x.representable() {
                assert(mantissa * p >= 0) by (nonlinear_arith)
                    requires
                        mantissa >= 0,
                        p > 0,
                ;
            }
        },
        _ => {},
    }
}

proof fn lemma_plus_nothing(x: Number)
    requires
        x is Finite,
        x.representable(),
        x.is_zero() ==> !x.is_negative(),
    ensures
        forall|zero: Number| #[trigger] zero.is_zero() ==> x.plus(zero) == x,
{
    let one = vstd::arithmetic::power2::pow2(1074);
    vstd::arithmetic::power2::lemma_pow2_pos(1074);
    assert forall|zero: Number| #[trigger] zero.is_zero() implies x.plus(zero) == x by {
        assert(zero.scaled() == 0) by {
            lemma_zero_magnitude(zero);
        }
        lemma_zero_magnitude(x);
        crate::double::laws::law_rounding_of_number(x);
    }
}

/// The plain patterns: a steady rate; a step at its second; bursts from their start up to before
/// their end.
pub proof fn law_plain_patterns(
    low: Double,
    high: Double,
    a: u32,
    b: u32,
    c: u32,
    d: u32,
    t: u32,
    sine: Number,
)
    ensures
        ({
            let steady = WorkloadPattern::Steady { rps: low };
            let step = WorkloadPattern::Step { base: low, step_to: high, step_at: a };
            let burst = WorkloadPattern::Burst {
                base: low,
                peak: high,
                burst_start: a,
                burst_end: b,
            };
            let bursts = WorkloadPattern::DoubleBurst {
                base: low,
                peak: high,
                burst1_start: a,
                burst1_end: b,
                burst2_start: c,
                burst2_end: d,
            };
            &&& steady.rate(t, sine) == low@
            &&& t < a ==> step.rate(t, sine) == low@
            &&& t >= a ==> step.rate(t, sine) == high@
            &&& a <= t < b ==> burst.rate(t, sine) == high@
            &&& t < a || b <= t ==> burst.rate(t, sine) == low@
            &&& a <= t < b || c <= t < d ==> bursts.rate(t, sine) == high@
            &&& (t < a || b <= t) && (t < c || d <= t) ==> bursts.rate(t, sine) == low@
        }),
{
}

/// A ramp, and each period of a sawtooth, rises or falls in proportion to the time: from and to
/// whole rates it is off by very little.
pub proof fn law_slopes_are_straight(
    base: Double,
    peak: Double,
    span: u32,
    t: u32,
    sine: Number,
    low: nat,
    high: nat,
)
    requires
        span > 0,
        base@ == Number::integer(low),
        peak@ == Number::integer(high),
        low <= u32::MAX,
        high <= u32::MAX,
        0 < low + high,
    ensures
        ({
            let saw = (WorkloadPattern::Sawtooth { base, peak, period: span }).rate(t, sine);
            is_on_slope(saw, low, high, t as nat % span as nat, span as nat)
        }),
        t < span ==> ({
            let ramp = (WorkloadPattern::Ramp { base, peak, ramp_duration: span }).rate(t, sine);
            is_on_slope(ramp, low, high, t as nat, span as nat)
        }),
{
    if low <= high {
        lemma_slope(low, high, t as nat % span as nat, span as nat);
        if t < span {
            lemma_slope(low, high, t as nat, span as nat);
        }
    } else {
        lemma_slope_down(low, high, t as nat % span as nat, span as nat);
        if t < span {
            lemma_slope_down(low, high, t as nat, span as nat);
        }
    }
}

/// Is a number `part / span` of the way from one integer to another, off by very little?
pub open spec fn is_on_slope(x: Number, low: nat, high: nat, part: nat, span: nat) -> bool {
    let one = vstd::arithmetic::power2::pow2(1074);
    &&& x is Finite
    &&& crate::double::errors::gap(
        x.scaled() * span,
        (low * span + (high - low) * part) * one,
    ) * 0x2_0000_0000_0000 <= (low + high) * span * one
}

proof fn lemma_slope(low: nat, high: nat, part: nat, span: nat)
    requires
        part < span <= u32::MAX,
        low <= high,
        0 < high <= u32::MAX,
    ensures
        is_on_slope(
            WorkloadPattern::between(Number::integer(low), Number::integer(high), part, span),
            low,
            high,
            part,
            span,
        ),
{
    let one = vstd::arithmetic::power2::pow2(1074) as int;
    let s = 0x20_0000_0000_0000int;
    crate::double::errors::lemma_one_is_large();
    crate::double::laws::law_integers_exact(low);
    crate::double::laws::law_integers_exact(high);
    crate::double::laws::law_integers_exact(part);
    crate::double::laws::law_integers_exact(span);
    crate::double::errors::law_integer_difference(high, low);
    let rise = (high - low) as nat;
    let r = rise as int;
    let p = part as int;
    let d = span as int;
    let b = low as int;
    assert(p * one <= d * one) by (nonlinear_arith)
        requires
            p <= d,
            one > 0,
    ;
    assert(d * one >= one) by (nonlinear_arith)
        requires
            d >= 1,
            one > 0,
    ;
    let share = Number::integer(part).over(Number::integer(span));
    crate::double::errors::law_quotient_error(Number::integer(part), Number::integer(span));
    let f = share.magnitude() as int;
    let off = crate::double::errors::gap(f * d, p * one);
    assert(crate::double::errors::gap(f * (d * one), (p * one) * one) == off * one)
        by (nonlinear_arith)
        requires
            off == crate::double::errors::gap(f * d, p * one),
            one > 0,
    ;
    assert(off * s <= p * one + 0x10_0000_0000_0000 * d) by (nonlinear_arith)
        requires
            (off * one) * s <= (p * one) * one + 0x10_0000_0000_0000 * (d * one),
            one > 0,
    ;
    assert(f <= 2 * one + 1) by (nonlinear_arith)
        requires
            f * d <= 2 * (d * one) + d,
            d > 0,
    ;
    assert(0 <= r * f <= 0xffff_ffff * (2 * one + 1)) by (nonlinear_arith)
        requires
            0 <= r <= 0xffff_ffff,
            0 <= f <= 2 * one + 1,
    ;
    crate::double::errors::law_multiple_error(rise, share);
    let climb = Number::integer(rise).times(share);
    let m = climb.magnitude() as int;
    assert(0 <= b * one <= 0xffff_ffff * one) by (nonlinear_arith)
        requires
            0 <= b <= 0xffff_ffff,
            one > 0,
    ;
    crate::double::errors::law_sum_error(Number::integer(low), climb);
    let x = Number::integer(low).plus(climb).scaled();
    let last = crate::double::errors::gap(x, b * one + m);
    let mid = crate::double::errors::gap(m, r * f);
    let goal = (b * d + r * p) * one;
    assert(goal == (b * one) * d + r * (p * one)) by (nonlinear_arith)
        requires
            goal == (b * d + r * p) * one,
    ;
    assert(crate::double::errors::gap(x * d, goal) <= last * d + mid * d + r * off)
        by (nonlinear_arith)
        requires
            last == crate::double::errors::gap(x, b * one + m),
            mid == crate::double::errors::gap(m, r * f),
            off == crate::double::errors::gap(f * d, p * one),
            goal == (b * one) * d + r * (p * one),
            d > 0,
            r >= 0,
    ;
    assert((last * d) * s <= (b * one) * d + m * d + 0x10_0000_0000_0000 * d) by (nonlinear_arith)
        requires
            last * s <= b * one + m + 0x10_0000_0000_0000,
            d > 0,
    ;
    assert((mid * d) * s <= (r * f) * d + 0x10_0000_0000_0000 * d) by (nonlinear_arith)
        requires
            mid * s <= r * f + 0x10_0000_0000_0000,
            d > 0,
    ;
    assert((r * off) * s <= r * (p * one) + 0x10_0000_0000_0000 * (r * d)) by (nonlinear_arith)
        requires
            off * s <= p * one + 0x10_0000_0000_0000 * d,
            r >= 0,
    ;
    assert(m * d <= 2 * ((r * f) * d) + d) by (nonlinear_arith)
        requires
            m <= 2 * (r * f) + 1,
            d > 0,
    ;
    assert((r * f) * d <= 2 * (r * (d * one)) + r * d) by (nonlinear_arith)
        requires
            f * d <= 2 * (d * one) + d,
            r >= 0,
    ;
    assert(r * (p * one) <= r * (d * one)) by (nonlinear_arith)
        requires
            p * one <= d * one,
            r >= 0,
    ;
    let h = high as int;
    assert((b * one) * d + r * (d * one) == h * d * one) by (nonlinear_arith)
        requires
            h == b + r,
    ;
    assert(r * d <= 0xffff_ffff * d) by (nonlinear_arith)
        requires
            r <= 0xffff_ffff,
            d > 0,
    ;
    assert(h * d * one >= d * one) by (nonlinear_arith)
        requires
            h >= 1,
            d > 0,
            one > 0,
    ;
    assert(d * one >= 0x1_0000_0000_0000_0000_0000_0000_0000_0000 * d) by (nonlinear_arith)
        requires
            one >= 0x1_0000_0000_0000_0000_0000_0000_0000_0000,
            d > 0,
    ;
    assert((b * one) * d >= 0) by (nonlinear_arith)
        requires
            b * one >= 0,
            d > 0,
    ;
    assert(r * (d * one) >= 0) by (nonlinear_arith)
        requires
            r >= 0,
            d * one > 0,
    ;
    assert((low * span + rise * part) * one == goal);
    assert(h * d * one <= (low + high) * span * one) by (nonlinear_arith)
        requires
            h == high,
            d == span,
            one > 0,
    ;
}

/// A difference below zero takes as much of a share as the one above zero.
proof fn lemma_fall(low: nat, high: nat, share: Number)
    requires
        high < low <= u32::MAX,
        share is Finite,
        !share.is_negative(),
        Number::integer((low - high) as nat).times(share) is Finite,
    ensures
        ({
            let fall = Number::integer(high).minus(Number::integer(low)).times(share);
            &&& fall is Finite
            &&& fall.is_negative()
            &&& fall.magnitude() == Number::integer((low - high) as nat).times(share).magnitude()
        }),
{
    let one = vstd::arithmetic::power2::pow2(1074);
    let d = (low - high) as nat;
    vstd::arithmetic::power2::lemma_pow2_pos(1074);
    vstd::arithmetic::power2::lemma_pow2_pos(2148);
    crate::double::laws::law_integers_exact(low);
    crate::double::laws::law_integers_exact(high);
    crate::double::laws::law_integers_exact(d);
    assert(high * one - low * one == -(d * one)) by (nonlinear_arith)
        requires
            d == low - high,
    ;
    assert(d * one > 0) by (nonlinear_arith)
        requires
            d > 0,
            one > 0,
    ;
    crate::double::errors::law_ratio_in_any_terms(true, d, 1, one);
    crate::double::errors::lemma_moderate(true, d, 1);
    crate::double::laws::lemma_nearest_magnitude(true, d, 1);
    crate::double::laws::lemma_nearest_magnitude(false, d, 1);
    let below = Number::integer(high).minus(Number::integer(low));
    assert(Number::integer(low).negated().scaled() == -(low * one));
    assert(below == Number::nearest(true, d, 1));
    let n = (d * one) * share.magnitude();
    let e = vstd::arithmetic::power2::pow2(2148);
    crate::double::laws::law_rounding_representable(false, n, e);
    crate::double::laws::law_rounding_representable(true, n, e);
    crate::double::laws::lemma_nearest_magnitude(false, n, e);
    crate::double::laws::lemma_nearest_magnitude(true, n, e);
}

/// The way down.
proof fn lemma_slope_down(low: nat, high: nat, part: nat, span: nat)
    requires
        part < span <= u32::MAX,
        high < low <= u32::MAX,
    ensures
        is_on_slope(
            WorkloadPattern::between(Number::integer(low), Number::integer(high), part, span),
            low,
            high,
            part,
            span,
        ),
{
    let one = vstd::arithmetic::power2::pow2(1074) as int;
    let s = 0x20_0000_0000_0000int;
    crate::double::errors::lemma_one_is_large();
    crate::double::laws::law_integers_exact(low);
    crate::double::laws::law_integers_exact(high);
    crate::double::laws::law_integers_exact(part);
    crate::double::laws::law_integers_exact(span);
    let rise = (low - high) as nat;
    let r = rise as int;
    let p = part as int;
    let d = span as int;
    let b = low as int;
    assert(p * one <= d * one) by (nonlinear_arith)
        requires
            p <= d,
            one > 0,
    ;
    assert(d * one >= one) by (nonlinear_arith)
        requires
            d >= 1,
            one > 0,
    ;
    let share = Number::integer(part).over(Number::integer(span));
    crate::double::errors::law_quotient_error(Number::integer(part), Number::integer(span));
    let f = share.magnitude() as int;
    let off = crate::double::errors::gap(f * d, p * one);
    assert(crate::double::errors::gap(f * (d * one), (p * one) * one) == off * one)
        by (nonlinear_arith)
        requires
            off == crate::double::errors::gap(f * d, p * one),
            one > 0,
    ;
    assert(off * s <= p * one + 0x10_0000_0000_0000 * d) by (nonlinear_arith)
        requires
            (off * one) * s <= (p * one) * one + 0x10_0000_0000_0000 * (d * one),
            one > 0,
    ;
    assert(f <= 2 * one + 1) by (nonlinear_arith)
        requires
            f * d <= 2 * (d * one) + d,
            d > 0,
    ;
    assert(0 <= r * f <= 0xffff_ffff * (2 * one + 1)) by (nonlinear_arith)
        requires
            0 <= r <= 0xffff_ffff,
            0 <= f <= 2 * one + 1,
    ;
    crate::double::errors::law_multiple_error(rise, share);
    lemma_fall(low, high, share);
    let climb = Number::integer(high).minus(Number::integer(low)).times(share);
    let m = climb.magnitude() as int;
    assert(0 <= b * one <= 0xffff_ffff * one) by (nonlinear_arith)
        requires
            0 <= b <= 0xffff_ffff,
            one > 0,
    ;
    crate::double::errors::law_sum_error(Number::integer(low), climb);
    let x = Number::integer(low).plus(climb).scaled();
    let last = crate::double::errors::gap(x, b * one - m);
    let mid = crate::double::errors::gap(m, r * f);
    let goal = (b * d - r * p) * one;
    assert(goal == (b * one) * d - r * (p * one)) by (nonlinear_arith)
        requires
            goal == (b * d - r * p) * one,
    ;
    assert(crate::double::errors::gap(x * d, goal) <= last * d + mid * d + r * off)
        by (nonlinear_arith)
        requires
            last == crate::double::errors::gap(x, b * one - m),
            mid == crate::double::errors::gap(m, r * f),
            off == crate::double::errors::gap(f * d, p * one),
            goal == (b * one) * d - r * (p * one),
            d > 0,
            r >= 0,
    ;
    assert((last * d) * s <= (b * one) * d + m * d + 0x10_0000_0000_0000 * d) by (nonlinear_arith)
        requires
            last * s <= b * one + m + 0x10_0000_0000_0000,
            d > 0,
    ;
    assert((mid * d) * s <= (r * f) * d + 0x10_0000_0000_0000 * d) by (nonlinear_arith)
        requires
            mid * s <= r * f + 0x10_0000_0000_0000,
            d > 0,
    ;
    assert((r * off) * s <= r * (p * one) + 0x10_0000_0000_0000 * (r * d)) by (nonlinear_arith)
        requires
            off * s <= p * one + 0x10_0000_0000_0000 * d,
            r >= 0,
    ;
    assert(m * d <= 2 * ((r * f) * d) + d) by (nonlinear_arith)
        requires
            m <= 2 * (r * f) + 1,
            d > 0,
    ;
    assert((r * f) * d <= 2 * (r * (d * one)) + r * d) by (nonlinear_arith)
        requires
            f * d <= 2 * (d * one) + d,
            r >= 0,
    ;
    assert(r * (p * one) <= r * (d * one)) by (nonlinear_arith)
        requires
            p * one <= d * one,
            r >= 0,
    ;
    let h = low as int;
    assert(r * (d * one) <= h * d * one) by (nonlinear_arith)
        requires
            r <= h,
            d > 0,
            one > 0,
    ;
    assert((b * one) * d == h * d * one) by (nonlinear_arith)
        requires
            h == b,
    ;
    assert(r * d <= 0xffff_ffff * d) by (nonlinear_arith)
        requires
            r <= 0xffff_ffff,
            d > 0,
    ;
    assert(h * d * one >= d * one) by (nonlinear_arith)
        requires
            h >= 1,
            d > 0,
            one > 0,
    ;
    assert(d * one >= 0x1_0000_0000_0000_0000_0000_0000_0000_0000 * d) by (nonlinear_arith)
        requires
            one >= 0x1_0000_0000_0000_0000_0000_0000_0000_0000,
            d > 0,
    ;
    assert((b * one) * d >= 0) by (nonlinear_arith)
        requires
            b * one >= 0,
            d > 0,
    ;
    assert(r * (d * one) >= 0) by (nonlinear_arith)
        requires
            r >= 0,
            d * one > 0,
    ;
    assert(low * span + (high - low) * part == b * d - r * p) by (nonlinear_arith)
        requires
            b == low,
            d == span,
            p == part,
            r == low - high,
    ;
    assert(h * d * one <= (low + high) * span * one) by (nonlinear_arith)
        requires
            h == low,
            d == span,
            one > 0,
    ;
}

} // verus!
