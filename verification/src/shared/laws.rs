//! What the controller of real workers promises, in plain integers.

use vstd::arithmetic::power2::*;
use vstd::prelude::*;

use crate::double::errors::gap;
use crate::double::{errors, laws, Double, Number};
use crate::shared::controller::Controller;
use crate::shared::metrics::Metrics;
use crate::shared::scaling::{lemma_cut, lemma_grown, Scaling};
use crate::shared::types::{Bottleneck, SystemState, TargetState};

verus! {

/// A share of a hundred, taken of a count, is computed to within a small part of one.
proof fn lemma_share(util: Number, count: nat)
    requires
        util is Finite,
        !util.is_negative(),
        util.magnitude() <= 0x100_0000_0000 * pow2(1074),
        util.magnitude() * count <= 100 * u32::MAX * pow2(1074),
        count <= u32::MAX,
    ensures
        ({
            let part = util.over(Number::integer(100)).times(Number::integer(count));
            &&& part is Finite
            &&& !part.is_negative()
            &&& gap(100 * part.magnitude() as int, (util.magnitude() * count) as int) * 2048
                <= pow2(1074)
        }),
{
    let one = pow2(1074) as int;
    let u = util.magnitude() as int;
    let hundred = Number::integer(100);
    errors::lemma_one_is_large();
    laws::law_integers_exact(100);
    laws::law_integers_exact(count);
    errors::law_quotient_error(util, hundred);
    let share = util.over(hundred);
    let q = share.magnitude() as int;
    let off = gap(100 * q, u);
    assert(gap((q * (100 * one)), u * one) == off * one) by (nonlinear_arith)
        requires
            off == gap(100 * q, u),
            one > 0,
    ;
    assert(off * 0x20_0000_0000_0000 <= u + 0x10_0000_0000_0000 * 100) by (nonlinear_arith)
        requires
            (off * one) * 0x20_0000_0000_0000 <= u * one + 0x10_0000_0000_0000 * (100 * one),
            one > 0,
    ;
    let c = count as int;
    assert(gap(100 * (q * c), u * c) == off * c) by (nonlinear_arith)
        requires
            off == gap(100 * q, u),
            c >= 0,
    ;
    assert((off * c) * 0x20_0000_0000_0000 <= u * c + 0x10_0000_0000_0000 * 100 * c)
        by (nonlinear_arith)
        requires
            off * 0x20_0000_0000_0000 <= u + 0x10_0000_0000_0000 * 100,
            c >= 0,
    ;
    assert(0 <= u * c) by (nonlinear_arith)
        requires
            0 <= u,
            0 <= c,
    ;
    assert(q * c <= 0x4_0000_0000 * one);
    lemma_pow2_adds(1074, 1074);
    assert(q * (count * one) <= 0x1_0000_0000_0000_0000 * (one * one)) by (nonlinear_arith)
        requires
            q * c <= 0x4_0000_0000 * one,
            c == count,
            one > 0,
    ;
    errors::law_product_error(share, Number::integer(count));
    let part = share.times(Number::integer(count));
    let r = part.magnitude() as int;
    let slip = gap(r, q * c);
    assert(gap(r * one, q * (c * one)) == slip * one) by (nonlinear_arith)
        requires
            slip == gap(r, q * c),
            one > 0,
    ;
    assert(slip * 0x20_0000_0000_0000 <= q * c + 0x10_0000_0000_0000) by (nonlinear_arith)
        requires
            (slip * one) * 0x20_0000_0000_0000 <= q * (c * one) + 0x10_0000_0000_0000 * one,
            one > 0,
    ;
}

/// The slots in use are the utilised share of all slots, to within half a slot and a small
/// part. Of a whole percentage they are so to within half a slot.
pub proof fn law_slots_in_use(controller: Controller, state: SystemState, percent: nat)
    requires
        state.cpu_util@ is Finite,
        !state.cpu_util@.is_negative(),
        state.cpu_util@.magnitude() <= 0x100_0000_0000 * pow2(1074),
        state.num_replicas * controller.slots_per_replica <= u32::MAX,
        state.cpu_util@.magnitude() * (state.num_replicas * controller.slots_per_replica) <= 100
            * u32::MAX * pow2(1074),
    ensures
        gap(
            200 * controller.active_slots(state) * pow2(1074) as int,
            2 * state.cpu_util@.magnitude() * (state.num_replicas * controller.slots_per_replica),
        ) <= 101 * pow2(1074),
        percent <= 0x100_0000_0000 && state.cpu_util@ == Number::integer(percent) ==> gap(
            100 * controller.active_slots(state) as int,
            percent * (state.num_replicas * controller.slots_per_replica),
        ) <= 50,
        state.cpu_util@ == Number::integer(0) ==> controller.active_slots(state) == 0,
        state.cpu_util@ == Number::integer(100) ==> controller.active_slots(state)
            == state.num_replicas * controller.slots_per_replica,
{
    let util = state.cpu_util@;
    let slots = state.num_replicas * controller.slots_per_replica;
    assert(0 <= slots) by (nonlinear_arith)
        requires
            slots == state.num_replicas * controller.slots_per_replica,
    ;
    let count = slots as nat;
    let one = pow2(1074) as int;
    errors::lemma_one_is_large();
    lemma_share(util, count);
    let part = util.over(Number::integer(100)).times(Number::integer(count));
    let u = util.magnitude() as int;
    let r = part.magnitude() as int;
    let a = controller.active_slots(state) as int;
    errors::law_rounded_within_half(part, u32::MAX as nat);
    assert(2 * a * one == 2 * (a * one)) by (nonlinear_arith);
    assert(200 * a * one == 200 * (a * one)) by (nonlinear_arith);
    assert(2 * u * count == 2 * (u * count)) by (nonlinear_arith);
    assert(u * count <= 100 * one * 0xffff_ffff) by (nonlinear_arith)
        requires
            u * count <= 100 * u32::MAX * one,
    ;
    assert(2 * (u32::MAX as nat) * pow2(1074) == 2 * (0xffff_ffff * one)) by (nonlinear_arith)
        requires
            one == pow2(1074),
    ;
    assert(gap(200 * (a * one), 2 * (u * count)) * 1024 <= 100 * one * 1024 + one);
    lemma_whole_share(util, count, a, 0);
    lemma_whole_share(util, count, a, 100);
    lemma_whole_share(util, count, a, percent);
}

/// A whole number that is half away from a whole share, and a small part, is half away.
proof fn lemma_whole_share(util: Number, count: nat, a: int, percent: nat)
    requires
        gap(200 * (a * pow2(1074)), 2 * (util.magnitude() * count) as int) * 1024 <= 100 * pow2(
            1074,
        ) * 1024 + pow2(1074),
    ensures
        percent <= 0x100_0000_0000 && util == Number::integer(percent) ==> gap(
            100 * a,
            percent * count as int,
        ) <= 50,
{
    if percent <= 0x100_0000_0000 && util == Number::integer(percent) {
        let one = pow2(1074) as int;
        errors::lemma_one_is_large();
        laws::law_integers_exact(percent);
        let off = gap(200 * a, 2 * (percent * count) as int);
        assert(gap(200 * (a * one), 2 * ((percent * one) * count)) == off * one)
            by (nonlinear_arith)
            requires
                off == gap(200 * a, 2 * (percent * count) as int),
                one > 0,
        ;
        assert(off <= 100) by (nonlinear_arith)
            requires
                off * one * 1024 <= 100 * one * 1024 + one,
                one > 0,
        ;
    }
}

/// Where there is a bottleneck, the slots of the replicas asked for hold what waits and the
/// utilised share of the slots there are, to within half a slot, unless the replicas are
/// already three times as many as before or as many as allowed. Where replicas are added, one
/// fewer would not do.
pub proof fn law_target_holds_demand(
    controller: Controller,
    state: SystemState,
    bottleneck: Bottleneck,
    target: TargetState,
)
    requires
        controller.answers(state, bottleneck, target),
        bottleneck is Load || bottleneck is Cpu || bottleneck is Memory || bottleneck is Mixed,
        controller.min_replicas <= state.num_replicas <= controller.max_replicas,
        0 < state.num_replicas,
        0 < controller.slots_per_replica,
        state.num_replicas * controller.slots_per_replica <= u32::MAX,
        state.cpu_util@ is Finite,
        !state.cpu_util@.is_negative(),
        state.cpu_util@.magnitude() <= 0x100_0000_0000 * pow2(1074),
        state.cpu_util@.magnitude() * (state.num_replicas * controller.slots_per_replica) <= 100
            * u32::MAX * pow2(1074),
    ensures
        state.num_replicas <= target.num_replicas <= 3 * state.num_replicas,
        target.num_replicas < 3 * state.num_replicas && target.num_replicas
            < controller.max_replicas ==> 200 * (target.num_replicas
            * controller.slots_per_replica) * pow2(1074) + 101 * pow2(1074) >= 200
            * state.waiting_requests * pow2(1074) + 2 * state.cpu_util@.magnitude() * (
        state.num_replicas * controller.slots_per_replica),
        target.num_replicas > state.num_replicas ==> 200 * ((target.num_replicas - 1)
            * controller.slots_per_replica) * pow2(1074) < 200 * state.waiting_requests * pow2(
            1074,
        ) + 2 * state.cpu_util@.magnitude() * (state.num_replicas
            * controller.slots_per_replica) + 101 * pow2(1074),
{
    law_slots_in_use(controller, state, 0);
    errors::lemma_one_is_large();
    lemma_target_holds(controller, state, bottleneck, target);
    let one = pow2(1074) as int;
    let slots = controller.slots_per_replica as int;
    let now = state.num_replicas as int;
    let r = target.num_replicas as int;
    let w = state.waiting_requests as int;
    let a = controller.active_slots(state) as int;
    let u = state.cpu_util@.magnitude() as int;
    assert(200 * a * one == 200 * (a * one)) by (nonlinear_arith);
    assert(200 * w * one == 200 * (w * one)) by (nonlinear_arith);
    if r < 3 * now && r < controller.max_replicas {
        assert(200 * (r * slots) * one >= 200 * (w * one) + 200 * (a * one)) by (nonlinear_arith)
            requires
                r * slots >= w + a,
                one > 0,
        ;
    }
    if r > now {
        assert(200 * ((r - 1) * slots) * one < 200 * (w * one) + 200 * (a * one))
            by (nonlinear_arith)
            requires
                (r - 1) * slots < w + a,
                one > 0,
        ;
    }
}

/// The replicas asked for, held against what waits and the slots in use.
proof fn lemma_target_holds(
    controller: Controller,
    state: SystemState,
    bottleneck: Bottleneck,
    target: TargetState,
)
    requires
        controller.answers(state, bottleneck, target),
        bottleneck is Load || bottleneck is Cpu || bottleneck is Memory || bottleneck is Mixed,
        controller.min_replicas <= state.num_replicas <= controller.max_replicas,
        0 < state.num_replicas,
        0 < controller.slots_per_replica,
    ensures
        state.num_replicas <= target.num_replicas <= 3 * state.num_replicas,
        target.num_replicas < 3 * state.num_replicas && target.num_replicas
            < controller.max_replicas ==> target.num_replicas * controller.slots_per_replica
            >= state.waiting_requests + controller.active_slots(state),
        target.num_replicas > state.num_replicas ==> (target.num_replicas - 1)
            * controller.slots_per_replica < state.waiting_requests + controller.active_slots(
            state,
        ),
{
    let slots = controller.slots_per_replica as int;
    let demand = state.waiting_requests + controller.active_slots(state) as int;
    let needed = (demand + slots - 1) / slots;
    let r = target.num_replicas as int;
    vstd::arithmetic::div_mod::lemma_fundamental_div_mod(demand + slots - 1, slots);
    assert(slots * needed == needed * slots) by (nonlinear_arith);
    assert((needed - 1) * slots == needed * slots - slots) by (nonlinear_arith);
    if r < 3 * state.num_replicas && r < controller.max_replicas {
        assert(r * slots >= demand) by (nonlinear_arith)
            requires
                r >= needed || demand == 0,
                needed * slots >= demand,
                slots > 0,
                r >= 0,
        ;
    }
    if r > state.num_replicas {
        assert((r - 1) * slots < demand) by (nonlinear_arith)
            requires
                r <= needed,
                (needed - 1) * slots < demand,
                slots > 0,
        ;
    }
}

/// The same of a whole percentage, to within half a slot exactly.
pub proof fn law_target_holds_whole_demand(
    controller: Controller,
    state: SystemState,
    bottleneck: Bottleneck,
    target: TargetState,
    percent: nat,
)
    requires
        controller.answers(state, bottleneck, target),
        bottleneck is Load || bottleneck is Cpu || bottleneck is Memory || bottleneck is Mixed,
        controller.min_replicas <= state.num_replicas <= controller.max_replicas,
        0 < state.num_replicas,
        0 < controller.slots_per_replica,
        state.num_replicas * controller.slots_per_replica <= u32::MAX,
        percent <= 0x100_0000_0000,
        percent * (state.num_replicas * controller.slots_per_replica) <= 100 * u32::MAX,
        state.cpu_util@ == Number::integer(percent),
    ensures
        state.num_replicas <= target.num_replicas <= 3 * state.num_replicas,
        target.num_replicas < 3 * state.num_replicas && target.num_replicas
            < controller.max_replicas ==> 100 * (target.num_replicas
            * controller.slots_per_replica) + 50 >= 100 * state.waiting_requests + percent * (
        state.num_replicas * controller.slots_per_replica),
        target.num_replicas > state.num_replicas ==> 100 * ((target.num_replicas - 1)
            * controller.slots_per_replica) + 50 <= 100 * state.waiting_requests + percent * (
        state.num_replicas * controller.slots_per_replica),
{
    lemma_whole_in_range(percent, state.num_replicas * controller.slots_per_replica);
    law_slots_in_use(controller, state, percent);
    lemma_target_holds(controller, state, bottleneck, target);
}

/// A whole percentage before saturation, as a number.
pub proof fn lemma_whole_in_range(percent: nat, slots: int)
    requires
        percent <= 0x100_0000_0000,
        0 <= percent * slots <= 100 * u32::MAX,
    ensures
        Number::integer(percent) is Finite,
        !Number::integer(percent).is_negative(),
        Number::integer(percent).magnitude() <= 0x100_0000_0000 * pow2(1074),
        Number::integer(percent).magnitude() * slots <= 100 * u32::MAX * pow2(1074),
{
    laws::law_integers_exact(percent);
    let one = pow2(1074) as int;
    assert(percent * one <= 0x100_0000_0000 * one) by (nonlinear_arith)
        requires
            percent <= 0x100_0000_0000,
            one >= 0,
    ;
    assert((percent * one) * slots <= 100 * u32::MAX * one) by (nonlinear_arith)
        requires
            percent * slots <= 100 * u32::MAX,
            one >= 0,
    ;
}

/// Replicas that are all busy while anything waits get at least one more, unless there are as
/// many as allowed.
pub proof fn law_busy_replicas_get_help(
    controller: Controller,
    state: SystemState,
    bottleneck: Bottleneck,
    target: TargetState,
)
    requires
        controller.answers(state, bottleneck, target),
        bottleneck is Load || bottleneck is Cpu || bottleneck is Memory || bottleneck is Mixed,
        controller.min_replicas <= state.num_replicas < controller.max_replicas,
        0 < state.num_replicas,
        0 < controller.slots_per_replica,
        state.num_replicas * controller.slots_per_replica <= u32::MAX,
        state.waiting_requests > 0,
        state.cpu_util@ == Number::integer(100),
    ensures
        target.num_replicas > state.num_replicas,
{
    law_target_holds_whole_demand(controller, state, bottleneck, target, 100);
    if target.num_replicas == state.num_replicas {
        assert(target.num_replicas < 3 * state.num_replicas);
    }
}

/// A queue before no replica at all starts one. Replicas without slots hold no queue, however many
/// there are: they are tripled, as far as allowed.
pub proof fn law_first_replica(
    controller: Controller,
    state: SystemState,
    bottleneck: Bottleneck,
    target: TargetState,
)
    requires
        controller.answers(state, bottleneck, target),
        bottleneck is Load || bottleneck is Cpu || bottleneck is Memory || bottleneck is Mixed,
        controller.min_replicas <= 1 <= controller.max_replicas,
        state.waiting_requests > 0,
    ensures
        state.num_replicas == 0 ==> target.num_replicas == 1,
        state.num_replicas > 0 && controller.slots_per_replica == 0 && 3 * state.num_replicas
            <= u32::MAX ==> target.num_replicas == (if 3 * state.num_replicas
            <= controller.max_replicas {
            3 * state.num_replicas
        } else {
            controller.max_replicas as int
        }),
{
}

/// Scaling in is gradual: of more than five replicas a fifth goes (rounded up), of five or
/// fewer one, and the fewest allowed stay.
pub proof fn law_scaling_in_is_gradual(
    controller: Controller,
    state: SystemState,
    target: TargetState,
)
    requires
        controller.answers(state, Bottleneck::Overprovisioned, target),
        controller.min_replicas < state.num_replicas <= controller.max_replicas,
    ensures
        controller.min_replicas <= target.num_replicas < state.num_replicas,
        state.num_replicas <= 5 ==> target.num_replicas == state.num_replicas - 1,
        state.num_replicas > 5 ==> 8 * state.num_replicas < 10 * (target.num_replicas + 1),
        state.num_replicas > 5 && target.num_replicas > controller.min_replicas ==> 10
            * target.num_replicas <= 8 * state.num_replicas,
        state.num_replicas > 5 && 10 * (controller.min_replicas + 1) <= 8 * state.num_replicas
            ==> 10 * target.num_replicas <= 8 * state.num_replicas,
{
}

/// Is a number as much of another as the tenths say, off by very little?
pub open spec fn about(result: Number, value: Number, tenths: nat) -> bool {
    &&& result is Finite
    &&& !result.is_negative()
    &&& gap(10 * result.magnitude() as int, (tenths * value.magnitude()) as int)
        * 0x8_0000_0000_0000 <= tenths * value.magnitude() + 0x28_0000_0000_0000
}

/// Is a number another one grown to the given tenths, or the limit that this is beyond?
pub open spec fn grown_up_to(result: Number, value: Number, tenths: nat, max: Number) -> bool {
    &&& result.at_most(max)
    &&& result == max || about(result, value, tenths)
    &&& result == max ==> 10 * max.magnitude() * 0x8_0000_0000_0000 <= tenths * value.magnitude()
        * 0x8_0000_0000_0000 + tenths * value.magnitude() + 0x28_0000_0000_0000
}

/// Is a number another one cut by a tenth, or the limit that this is beyond, where less than a
/// fifth is used; and otherwise the same?
pub open spec fn cut_down_to(result: Number, value: Number, util: Number, min: Number) -> bool {
    if min.below(value) && util.below(Number::integer(20)) {
        &&& min.at_most(result)
        &&& result == min || about(result, value, 9)
        &&& result == min ==> 9 * value.magnitude() * 0x8_0000_0000_0000 <= 10 * min.magnitude()
            * 0x8_0000_0000_0000 + 9 * value.magnitude() + 0x28_0000_0000_0000
    } else {
        result == value
    }
}

/// Is a number finite, of moderate size and without a sign?
pub open spec fn is_resource(x: Number) -> bool {
    &&& x is Finite
    &&& !x.is_negative()
    &&& x.magnitude() <= 0x100_0000_0000 * pow2(1074)
}

pub proof fn lemma_growth(value: Double, tenths: nat, min: Number, max: Double)
    requires
        tenths == 12 || tenths == 13,
        is_resource(value@),
        is_resource(max@),
        min.at_most(value@),
        value@.at_most(max@),
    ensures
        grown_up_to(Scaling::grown(value, tenths, max).clamped(min, max@), value@, tenths, max@),
        Scaling::grown(value, tenths, max).clamped(min, max@) == Scaling::grown(
            value,
            tenths,
            max,
        ),
{
    lemma_grown(value, max);
    errors::law_fraction_error(value@, tenths, 10);
    let product = value@.times(Number::ratio(tenths, 10));
    assert(product.magnitude() * 10 == 10 * product.magnitude());
    assert(value@.magnitude() * tenths == tenths * value@.magnitude()) by (nonlinear_arith);
    assert(Scaling::grown(value, tenths, max).at_most(max@));
    assert(tenths * value@.magnitude() * 0x8_0000_0000_0000 == (tenths * value@.magnitude())
        * 0x8_0000_0000_0000);
}

pub proof fn lemma_reduction(value: Double, util: Double, min: Double, max: Number)
    requires
        is_resource(value@),
        Number::zero(false).at_most(min@),
        min@.at_most(value@),
        value@.at_most(max),
    ensures
        cut_down_to(Scaling::cut(value, util, min).clamped(min@, max), value@, util@, min@),
{
    lemma_cut(value, min);
    errors::law_fraction_error(value@, 9, 10);
    assert(0 * pow2(0) == 0) by (nonlinear_arith);
    let product = value@.times(Number::ratio(9, 10));
    assert(product.magnitude() * 10 == 10 * product.magnitude());
}

/// A utilisation is very low under three tenths of its target. On whole numbers that is exact, and
/// otherwise it holds but for a very small part.
pub proof fn law_three_tenths_are_very_low(util: Double, target: Double, u: nat, t: nat)
    requires
        is_resource(util@),
        is_resource(target@),
    ensures
        util@ == Number::integer(u) && target@ == Number::integer(t) && u <= u32::MAX && t
            <= u32::MAX ==> Controller::very_low(util, target) == (10 * u < 3 * t),
        10 * util@.magnitude() * 0x8_0000_0000_0000 + 3 * target@.magnitude()
            + 0x28_0000_0000_0000 < 3 * target@.magnitude() * 0x8_0000_0000_0000
            ==> Controller::very_low(util, target),
        10 * util@.magnitude() * 0x8_0000_0000_0000 > 3 * target@.magnitude()
            * 0x8_0000_0000_0000 + 3 * target@.magnitude() + 0x28_0000_0000_0000
            ==> !Controller::very_low(util, target),
{
    if u <= u32::MAX && t <= u32::MAX {
        crate::double::decimals::law_three_tenths(u, t);
    }
    errors::law_fraction_error(target@, 3, 10);
}

/// CPU and memory grow by three tenths where one of them is short, by two tenths where both are,
/// up to the limit; they are cut by a tenth where hardly a fifth is used of too much, down to the
/// limit; and otherwise they are left as they are.
pub proof fn law_vertical_steps(
    controller: Controller,
    state: SystemState,
    bottleneck: Bottleneck,
    target: TargetState,
)
    requires
        controller.answers(state, bottleneck, target),
        controller.has_asked_for(state),
        is_resource(state.cpu_per_replica@),
        is_resource(controller.max_cpu@),
        is_resource(state.mem_per_replica@),
        is_resource(controller.max_mem@),
    ensures
        bottleneck is Cpu ==> grown_up_to(
            target.cpu_per_replica@,
            state.cpu_per_replica@,
            13,
            controller.max_cpu@,
        ),
        bottleneck is Memory ==> grown_up_to(
            target.mem_per_replica@,
            state.mem_per_replica@,
            13,
            controller.max_mem@,
        ),
        bottleneck is Mixed ==> grown_up_to(
            target.cpu_per_replica@,
            state.cpu_per_replica@,
            12,
            controller.max_cpu@,
        ) && grown_up_to(
            target.mem_per_replica@,
            state.mem_per_replica@,
            12,
            controller.max_mem@,
        ),
        bottleneck is Overprovisioned ==> cut_down_to(
            target.cpu_per_replica@,
            state.cpu_per_replica@,
            state.cpu_util@,
            controller.min_cpu@,
        ) && cut_down_to(
            target.mem_per_replica@,
            state.mem_per_replica@,
            state.mem_util@,
            controller.min_mem@,
        ),
        bottleneck is Load || bottleneck is Memory ==> target.cpu_per_replica@
            == state.cpu_per_replica@,
        bottleneck is Load || bottleneck is Cpu ==> target.mem_per_replica@
            == state.mem_per_replica@,
        bottleneck is Stable || bottleneck is Unknown ==> target.num_replicas
            == state.num_replicas && target.cpu_per_replica@ == state.cpu_per_replica@
            && target.mem_per_replica@ == state.mem_per_replica@,
{
    lemma_growth(state.cpu_per_replica, 13, controller.min_cpu@, controller.max_cpu);
    lemma_growth(state.cpu_per_replica, 12, controller.min_cpu@, controller.max_cpu);
    lemma_growth(state.mem_per_replica, 13, controller.min_mem@, controller.max_mem);
    lemma_growth(state.mem_per_replica, 12, controller.min_mem@, controller.max_mem);
    lemma_reduction(
        state.cpu_per_replica,
        state.cpu_util,
        controller.min_cpu,
        controller.max_cpu@,
    );
    lemma_reduction(
        state.mem_per_replica,
        state.mem_util,
        controller.min_mem,
        controller.max_mem@,
    );
}

/// A bottleneck is found where requests wait, or where latency is over its target while the
/// replicas are not idle, and nowhere else; it is named by the resources that are short. Only a
/// system without one, of which hardly anything is used, has too much.
pub proof fn law_diagnosis_names_what_is_short(
    controller: Controller,
    state: SystemState,
    metrics: Metrics,
)
    ensures
        ({
            let found = controller.diagnosis(state, metrics);
            let high_cpu = controller.cpu_util_target@.below(state.cpu_util@);
            let high_mem = controller.mem_util_target@.below(state.mem_util@);
            let slow = controller.latency_target_ms@.below(metrics.avg_latency_ms@);
            let idle = !high_cpu && !high_mem && !Number::integer(10).below(state.cpu_util@);
            let trouble = state.waiting_requests > 0 || (slow && !idle);
            &&& trouble == (found is Load || found is Cpu || found is Memory || found is Mixed)
            &&& trouble ==> (found is Cpu || found is Mixed) == high_cpu
            &&& trouble ==> (found is Memory || found is Mixed) == high_mem
            &&& !trouble ==> (found is Overprovisioned) == (Controller::very_low(
                state.cpu_util,
                controller.cpu_util_target,
            ) && Controller::very_low(state.mem_util, controller.mem_util_target)
                && state.num_replicas > controller.min_replicas)
            &&& found is Stable ==> !high_cpu && !high_mem
            &&& found is Unknown ==> high_cpu || high_mem
        }),
{
}

/// Two values are apart where they differ by more than a hundredth, but for a very small part; it
/// does not matter which is the greater one.
pub proof fn law_apart_by_a_hundredth(a: Double, b: Double)
    requires
        a@ is Finite,
        b@ is Finite,
        gap(a@.scaled(), b@.scaled()) <= 0x1_0000_0000_0000_0000 * pow2(1074),
    ensures
        100 * gap(a@.scaled(), b@.scaled()) * 0x4_0000_0000_0000 > pow2(1074)
            * 0x4_0000_0000_0000 + pow2(1074) ==> TargetState::apart(a, b),
        100 * gap(a@.scaled(), b@.scaled()) * 0x4_0000_0000_0000 < pow2(1074)
            * 0x4_0000_0000_0000 - pow2(1074) ==> !TargetState::apart(a, b),
        TargetState::apart(a, b) == TargetState::apart(b, a),
{
    errors::lemma_one_is_large();
    errors::lemma_moderate(false, 1, 100);
    errors::law_rounding_error(false, 1, 100);
    errors::law_sum_error(a@, b@.negated());
    errors::law_sum_error(b@, a@.negated());
    assert(b@.negated().scaled() == -b@.scaled());
    assert(a@.negated().scaled() == -a@.scaled());
    let d = a@.scaled() - b@.scaled();
    if d != 0 {
        let n = gap(d, 0) as nat;
        errors::lemma_moderate(false, n, pow2(1074));
        errors::lemma_moderate(true, n, pow2(1074));
        laws::lemma_nearest_magnitude(false, n, pow2(1074));
        laws::lemma_nearest_magnitude(true, n, pow2(1074));
    }
    let there = a@.minus(b@).absolute();
    let back = b@.minus(a@).absolute();
    assert(there.scaled() == there.magnitude());
    assert(back.scaled() == back.magnitude());
    assert(there.magnitude() == a@.minus(b@).magnitude());
    assert(back.magnitude() == b@.minus(a@).magnitude());
    assert(there.magnitude() == back.magnitude()) by {
        if d == 0 {
            assert(0 * pow2(0) == 0) by (nonlinear_arith);
        }
    }
    assert(Number::ratio(1, 100).scaled() == Number::ratio(1, 100).magnitude());
}

/// The workers are told of a new target where it has another number of replicas, or a CPU that is
/// apart from the one before.
pub proof fn law_targets_differ(before: TargetState, after: TargetState)
    ensures
        after.num_replicas != before.num_replicas ==> before.differs(after),
        TargetState::apart(after.cpu_per_replica, before.cpu_per_replica) ==> before.differs(after),
        after.num_replicas == before.num_replicas && !TargetState::apart(
            after.cpu_per_replica,
            before.cpu_per_replica,
        ) ==> !before.differs(after),
{
}

/// Where nothing is to be changed, what is beyond a limit is brought back to that limit.
pub proof fn law_limits_pull_back(
    controller: Controller,
    state: SystemState,
    bottleneck: Bottleneck,
    target: TargetState,
)
    requires
        controller.limits_ordered(),
        controller.answers(state, bottleneck, target),
        bottleneck is Stable || bottleneck is Unknown,
    ensures
        state.num_replicas > controller.max_replicas ==> target.num_replicas
            == controller.max_replicas,
        state.num_replicas < controller.min_replicas ==> target.num_replicas
            == controller.min_replicas,
        controller.max_cpu@.below(state.cpu_per_replica@) ==> target.cpu_per_replica@
            == controller.max_cpu@,
        state.cpu_per_replica@.below(controller.min_cpu@) ==> target.cpu_per_replica@
            == controller.min_cpu@,
        controller.max_mem@.below(state.mem_per_replica@) ==> target.mem_per_replica@
            == controller.max_mem@,
        state.mem_per_replica@.below(controller.min_mem@) ==> target.mem_per_replica@
            == controller.min_mem@,
{
}

} // verus!
