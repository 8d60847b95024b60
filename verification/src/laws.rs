//! What the simulated system and its controller promise, in plain integers.

use vstd::arithmetic::power2::*;
use vstd::prelude::*;

use crate::controller::Controller;
use crate::double::errors::gap;
use crate::double::{errors, laws, Number};
use crate::shared::laws::{
    cut_down_to, grown_up_to, is_resource, lemma_growth, lemma_reduction,
};
use crate::shared::metrics::Metrics;
use crate::shared::types::{Bottleneck, SystemState, TargetState};
use crate::simulator::SimulatorConfig;
use crate::types::SimulatorState;

verus! {

/// CPU and memory grow by three tenths where one of them is short, by two tenths where both are,
/// up to the limit; they are cut by a tenth where hardly a fifth is used of too much, down to the
/// limit; and otherwise they are left as they are.
pub proof fn law_vertical_steps(
    controller: Controller,
    state: SystemState,
    bottleneck: Bottleneck,
    target: TargetState,
)
    requires
        controller.answers(state, bottleneck, target),
        controller.has_asked_for(state),
        is_resource(state.cpu_per_replica@),
        is_resource(controller.max_cpu@),
        is_resource(state.mem_per_replica@),
        is_resource(controller.max_mem@),
    ensures
        bottleneck is Cpu ==> grown_up_to(
            target.cpu_per_replica@,
            state.cpu_per_replica@,
            13,
            controller.max_cpu@,
        ),
        bottleneck is Memory ==> grown_up_to(
            target.mem_per_replica@,
            state.mem_per_replica@,
            13,
            controller.max_mem@,
        ),
        bottleneck is Mixed ==> grown_up_to(
            target.cpu_per_replica@,
            state.cpu_per_replica@,
            12,
            controller.max_cpu@,
        ) && grown_up_to(
            target.mem_per_replica@,
            state.mem_per_replica@,
            12,
            controller.max_mem@,
        ),
        bottleneck is Overprovisioned ==> cut_down_to(
            target.cpu_per_replica@,
            state.cpu_per_replica@,
            state.cpu_util@,
            controller.min_cpu@,
        ) && cut_down_to(
            target.mem_per_replica@,
            state.mem_per_replica@,
            state.mem_util@,
            controller.min_mem@,
        ),
        bottleneck is Load || bottleneck is Memory ==> target.cpu_per_replica@
            == state.cpu_per_replica@,
        bottleneck is Load || bottleneck is Cpu ==> target.mem_per_replica@
            == state.mem_per_replica@,
        bottleneck is Stable || bottleneck is Unknown ==> target.num_replicas
            == state.num_replicas && target.cpu_per_replica@ == state.cpu_per_replica@
            && target.mem_per_replica@ == state.mem_per_replica@,
{
    lemma_growth(state.cpu_per_replica, 13, controller.min_cpu@, controller.max_cpu);
    lemma_growth(state.cpu_per_replica, 12, controller.min_cpu@, controller.max_cpu);
    lemma_growth(state.mem_per_replica, 13, controller.min_mem@, controller.max_mem);
    lemma_growth(state.mem_per_replica, 12, controller.min_mem@, controller.max_mem);
    lemma_reduction(
        state.cpu_per_replica,
        state.cpu_util,
        controller.min_cpu,
        controller.max_cpu@,
    );
    lemma_reduction(
        state.mem_per_replica,
        state.mem_util,
        controller.min_mem,
        controller.max_mem@,
    );
}

/// Are the replicas grown to the given tenths, rounded up, or the limit that this is beyond?
pub open spec fn more_by_tenths(more: u32, now: u32, tenths: nat, max: u32) -> bool {
    &&& more <= max
    &&& 10 * (more - 1) < tenths * now
    &&& more < max ==> tenths * now <= 10 * more
}

/// Replicas grow by a half where the load is too high, by three tenths where CPU and memory are
/// short, and by two tenths where one of these is and has reached its limit.
pub proof fn law_horizontal_steps(
    controller: Controller,
    state: SystemState,
    bottleneck: Bottleneck,
    target: TargetState,
)
    requires
        controller.answers(state, bottleneck, target),
        controller.has_asked_for(state),
        0 < state.num_replicas,
        is_resource(state.cpu_per_replica@),
        is_resource(controller.max_cpu@),
        is_resource(state.mem_per_replica@),
        is_resource(controller.max_mem@),
    ensures
        bottleneck is Load ==> more_by_tenths(
            target.num_replicas,
            state.num_replicas,
            15,
            controller.max_replicas,
        ),
        bottleneck is Mixed ==> more_by_tenths(
            target.num_replicas,
            state.num_replicas,
            13,
            controller.max_replicas,
        ),
        bottleneck is Cpu && controller.max_cpu@.at_most(target.cpu_per_replica@)
            ==> more_by_tenths(
            target.num_replicas,
            state.num_replicas,
            12,
            controller.max_replicas,
        ),
        bottleneck is Cpu && target.cpu_per_replica@.below(controller.max_cpu@)
            ==> target.num_replicas == state.num_replicas,
        bottleneck is Memory && controller.max_mem@.at_most(target.mem_per_replica@)
            ==> more_by_tenths(
            target.num_replicas,
            state.num_replicas,
            12,
            controller.max_replicas,
        ),
        bottleneck is Memory && target.mem_per_replica@.below(controller.max_mem@)
            ==> target.num_replicas == state.num_replicas,
{
    lemma_growth(state.cpu_per_replica, 13, controller.min_cpu@, controller.max_cpu);
    lemma_growth(state.mem_per_replica, 13, controller.min_mem@, controller.max_mem);
}

/// Scaling in is gradual: of more than five replicas a fifth goes (rounded up), of five or
/// fewer one, and the fewest allowed stay.
pub proof fn law_scaling_in_is_gradual(
    controller: Controller,
    state: SystemState,
    target: TargetState,
)
    requires
        controller.answers(state, Bottleneck::Overprovisioned, target),
        controller.min_replicas < state.num_replicas <= controller.max_replicas,
    ensures
        controller.min_replicas <= target.num_replicas < state.num_replicas,
        state.num_replicas <= 5 ==> target.num_replicas == state.num_replicas - 1,
        state.num_replicas > 5 ==> 8 * state.num_replicas < 10 * (target.num_replicas + 1),
        state.num_replicas > 5 && target.num_replicas > controller.min_replicas ==> 10
            * target.num_replicas <= 8 * state.num_replicas,
        state.num_replicas > 5 && 10 * (controller.min_replicas + 1) <= 8 * state.num_replicas
            ==> 10 * target.num_replicas <= 8 * state.num_replicas,
{
}

/// A bottleneck is found where latency is over its target or more than a hundred requests wait,
/// and nowhere else; it is named by the resources that are short. Only a system without one,
/// without a queue, and of which hardly anything is used, has too much.
pub proof fn law_diagnosis_names_what_is_short(
    controller: Controller,
    state: SystemState,
    metrics: Metrics,
)
    ensures
        ({
            let found = controller.diagnosis(state, metrics);
            let high_cpu = controller.cpu_util_target@.below(state.cpu_util@);
            let high_mem = controller.mem_util_target@.below(state.mem_util@);
            let trouble = state.waiting_requests > 100 || controller.latency_target_ms@.below(
                metrics.avg_latency_ms@,
            );
            &&& trouble == (found is Load || found is Cpu || found is Memory || found is Mixed)
            &&& trouble ==> (found is Cpu || found is Mixed) == high_cpu
            &&& trouble ==> (found is Memory || found is Mixed) == high_mem
            &&& !trouble ==> (found is Overprovisioned) == (Controller::very_low(
                state.cpu_util,
                controller.cpu_util_target,
            ) && Controller::very_low(state.mem_util, controller.mem_util_target)
                && state.waiting_requests == 0 && state.num_replicas > controller.min_replicas)
            &&& found is Stable ==> !high_cpu && !high_mem
            &&& found is Unknown ==> high_cpu || high_mem
        }),
{
}

/// A utilisation is very low under three tenths of its target. On whole numbers that is exact, and
/// otherwise it holds but for a very small part.
pub proof fn law_three_tenths_are_very_low(
    util: crate::double::Double,
    target: crate::double::Double,
    u: nat,
    t: nat,
)
    requires
        is_resource(util@),
        is_resource(target@),
    ensures
        util@ == Number::integer(u) && target@ == Number::integer(t) && u <= u32::MAX && t
            <= u32::MAX ==> Controller::very_low(util, target) == (10 * u < 3 * t),
        10 * util@.magnitude() * 0x8_0000_0000_0000 + 3 * target@.magnitude()
            + 0x28_0000_0000_0000 < 3 * target@.magnitude() * 0x8_0000_0000_0000
            ==> Controller::very_low(util, target),
        10 * util@.magnitude() * 0x8_0000_0000_0000 > 3 * target@.magnitude()
            * 0x8_0000_0000_0000 + 3 * target@.magnitude() + 0x28_0000_0000_0000
            ==> !Controller::very_low(util, target),
{
    if u <= u32::MAX && t <= u32::MAX {
        crate::double::decimals::law_three_tenths(u, t);
    }
    errors::law_fraction_error(target@, 3, 10);
}

/// What the replicas can serve is their number times their CPU times what one CPU serves: exactly
/// so of whole numbers, and off by very little of any CPU.
pub proof fn law_throughput(
    config: SimulatorConfig,
    active: nat,
    target: TargetState,
    cpu: nat,
    requests: nat,
)
    requires
        config.requests_per_cpu_per_sec@ == Number::integer(requests),
        requests <= u32::MAX,
        active <= u32::MAX,
        target.cpu_per_replica@ is Finite,
        !target.cpu_per_replica@.is_negative(),
        requests * target.cpu_per_replica@.magnitude() <= 0x1000_0000_0000_0000 * pow2(1074),
        active * (requests * target.cpu_per_replica@.magnitude()) <= 0x1000_0000_0000_0000 * pow2(
            1074,
        ),
    ensures
        ({
            let served = config.throughput(active, target);
            let exact = active * (requests * target.cpu_per_replica@.magnitude());
            &&& served is Finite
            &&& !served.is_negative()
            &&& gap(served.magnitude() as int, exact as int) * 0x8_0000_0000_0000 <= exact + active
                * 0x10_0000_0000_0000 + 0x10_0000_0000_0000
        }),
        target.cpu_per_replica@ == Number::integer(cpu) && cpu < 0x20_0000_0000_0000 && cpu
            * requests < 0x20_0000_0000_0000 && active * (cpu * requests) < 0x20_0000_0000_0000
            ==> config.throughput(active, target) == Number::integer(active * (cpu * requests)),
{
    errors::law_twofold_multiple_error(active, requests, target.cpu_per_replica@);
    if cpu < 0x20_0000_0000_0000 && cpu * requests < 0x20_0000_0000_0000 {
        errors::law_integer_product(cpu, requests);
        errors::law_integer_product(active, cpu * requests);
    }
}

/// What is served in a second is all there is, or as much as the replicas can serve.
pub proof fn law_served_to_capacity(
    config: SimulatorConfig,
    state: SimulatorState,
    target: TargetState,
    rps: Number,
    next: SimulatorState,
    seen: SystemState,
    requests: nat,
)
    requires
        config.stepped(state, target, rps, next, seen),
        config.requests_per_cpu_per_sec@ == Number::integer(requests),
        requests <= u32::MAX,
        target.cpu_per_replica@ is Finite,
        !target.cpu_per_replica@.is_negative(),
        requests * target.cpu_per_replica@.magnitude() <= 0x1000_0000_0000_0000 * pow2(1074),
        seen.num_replicas * (requests * target.cpu_per_replica@.magnitude())
            <= 0x1000_0000_0000_0000 * pow2(1074),
    ensures
        ({
            let served = state.queue + seen.incoming_requests - next.queue
                - seen.dropped_requests;
            let exact = seen.num_replicas * (requests * target.cpu_per_replica@.magnitude());
            let slack = exact + seen.num_replicas * 0x10_0000_0000_0000 + 0x10_0000_0000_0000;
            &&& 0 <= served
            &&& served * pow2(1074) * 0x8_0000_0000_0000 <= exact * 0x8_0000_0000_0000 + slack
            &&& next.queue > 0 && served < u32::MAX ==> exact * 0x8_0000_0000_0000 < (served + 1)
                * pow2(1074) * 0x8_0000_0000_0000 + slack
            &&& seen.dropped_requests > 0 ==> next.queue == config.max_queue_size
            &&& next.queue <= config.max_queue_size
        }),
{
    let n = seen.num_replicas as nat;
    law_throughput(config, n, target, 0, requests);
    let t = config.throughput(n, target);
    errors::law_truncated_within_one(t, u32::MAX as nat);
    let capacity = t.truncated(u32::MAX as nat) as int;
    let served = state.queue + seen.incoming_requests - next.queue - seen.dropped_requests;
    let one = pow2(1074) as int;
    errors::lemma_one_is_large();
    assert(served * one <= capacity * one) by (nonlinear_arith)
        requires
            served <= capacity,
            one > 0,
    ;
}

/// Utilisation is the share of what there is that the requests take, in percent and at most 100.
pub proof fn law_utilisation_is_a_share(
    config: SimulatorConfig,
    state: SimulatorState,
    target: TargetState,
    rps: Number,
    next: SimulatorState,
    seen: SystemState,
)
    requires
        config.stepped(state, target, rps, next, seen),
        rps is Finite,
        !rps.is_negative(),
    ensures
        ({
            let each = target.cpu_per_replica@.times(config.requests_per_cpu_per_sec@);
            let capacity = Number::integer(seen.num_replicas as nat).times(each);
            &&& capacity is Finite && capacity.scaled() > 0 && Number::zero(false).below(each)
                && seen.num_replicas > 0 ==> is_share(seen.cpu_util@, rps, capacity)
            &&& seen.num_replicas == 0 ==> seen.cpu_util@ == Number::zero(false)
        }),
        ({
            let used = rps.times(config.memory_per_request@);
            let total = Number::integer(seen.num_replicas as nat).times(target.mem_per_replica@);
            &&& used is Finite && !used.is_negative() && total is Finite && total.scaled() > 0
                ==> is_share(seen.mem_util@, used, total)
            &&& total is Finite && total.scaled() == 0 ==> seen.mem_util@ == Number::zero(false)
        }),
{
    let each = target.cpu_per_replica@.times(config.requests_per_cpu_per_sec@);
    let capacity = Number::integer(seen.num_replicas as nat).times(each);
    assert(0 * pow2(0) == 0) by (nonlinear_arith);
    if capacity is Finite && capacity.scaled() > 0 && Number::zero(false).below(each)
        && seen.num_replicas > 0 {
        lemma_share(rps, capacity);
    }
    let used = rps.times(config.memory_per_request@);
    let total = Number::integer(seen.num_replicas as nat).times(target.mem_per_replica@);
    if used is Finite && !used.is_negative() && total is Finite && total.scaled() > 0 {
        lemma_share(used, total);
    }
}

/// Is a number the share in percent, off by very little, or 100 where there is no less than a
/// whole?
pub open spec fn is_share(percent: Number, part: Number, whole: Number) -> bool {
    if whole.magnitude() <= part.magnitude() {
        percent == Number::integer(100)
    } else {
        &&& percent is Finite
        &&& !percent.is_negative()
        &&& gap(
            (percent.magnitude() * whole.magnitude()) as int,
            (100 * part.magnitude() * pow2(1074)) as int,
        ) * 0x1000_0000_0000 <= part.magnitude() * pow2(1074) + 0x10_0000_0000_0000
            * whole.magnitude()
    }
}

proof fn lemma_share(part: Number, whole: Number)
    requires
        part is Finite,
        !part.is_negative(),
        whole is Finite,
        whole.scaled() > 0,
    ensures
        is_share(SimulatorConfig::percentage(part, whole), part, whole),
{
    let share = part.over(whole);
    let a = part.magnitude();
    let w = whole.magnitude();
    let one = pow2(1074);
    lemma_pow2_pos(1074);
    laws::law_integers_exact(1);
    laws::law_integers_exact(100);
    errors::law_integer_product(1, 100);
    assert(!whole.is_zero()) by {
        if whole is Finite {
            let exponent = whole->Finite_exponent;
            assert(0 * pow2((exponent + 1074) as nat) == 0) by (nonlinear_arith);
        }
    }
    laws::law_rounding_representable(false, a, w);
    if w <= a {
        assert((1 * one) * w <= a * one) by (nonlinear_arith)
            requires
                w <= a,
        ;
        laws::law_rounding_not_below(false, a, w, Number::integer(1));
        if share is Finite && share.magnitude() == one {
            laws::law_rounding_of_number(share);
            laws::law_rounding_of_number(Number::integer(1));
        }
        assert(share.lesser(Number::integer(1)) == Number::integer(1));
    } else {
        errors::law_percentage_error(part, whole);
        assert(a * one <= (1 * one) * w) by (nonlinear_arith)
            requires
                a <= w,
        ;
        laws::law_rounding_not_above(false, a, w, Number::integer(1));
    }
}

/// The capacity of the latency model is a hundred requests a second for each CPU, off by very
/// little.
pub proof fn law_modelled_capacity(state: SystemState)
    requires
        state.cpu_per_replica@ is Finite,
        !state.cpu_per_replica@.is_negative(),
        pow2(1074) <= state.num_replicas * state.cpu_per_replica@.magnitude() * 0x1_0000,
        state.num_replicas * state.cpu_per_replica@.magnitude() <= 0x10_0000_0000_0000 * pow2(
            1074,
        ),
    ensures
        ({
            let served = Metrics::capacity(state);
            let exact = 100 * (state.num_replicas * state.cpu_per_replica@.magnitude());
            &&& served is Finite
            &&& !served.is_negative()
            &&& gap(served.magnitude() as int, exact) * 0x4_0000_0000_0000 <= exact
        }),
{
    let one = pow2(1074) as int;
    let n = state.num_replicas as int;
    let c = state.cpu_per_replica@.magnitude() as int;
    errors::lemma_one_is_large();
    errors::law_multiple_error(state.num_replicas as nat, state.cpu_per_replica@);
    let cpus = Number::integer(state.num_replicas as nat).times(state.cpu_per_replica@);
    errors::law_multiple_error(100, cpus);
}

/// Latency is ten milliseconds and the time in which the replicas serve what waits, off by very
/// little; they serve a hundred requests a second for each CPU.
pub proof fn law_latency_model(state: SystemState)
    requires
        state.cpu_per_replica@ is Finite,
        !state.cpu_per_replica@.is_negative(),
        pow2(1074) <= state.num_replicas * state.cpu_per_replica@.magnitude() * 0x1_0000,
        state.num_replicas * state.cpu_per_replica@.magnitude() <= 0x10_0000_0000_0000 * pow2(
            1074,
        ),
    ensures
        ({
            let latency = Metrics::modelled_latency(state);
            let served = 100 * (state.num_replicas * state.cpu_per_replica@.magnitude());
            let exact = 10 * (served * pow2(1074)) + 1000 * (state.waiting_requests * pow2(1074)
                * pow2(1074));
            &&& latency is Finite
            &&& !latency.is_negative()
            &&& gap(latency.magnitude() * served, exact) * 0x100_0000_0000 <= exact
        }),
{
    let one = pow2(1074) as int;
    let q = state.waiting_requests as int;
    let e = 100 * (state.num_replicas * state.cpu_per_replica@.magnitude());
    errors::lemma_one_is_large();
    laws::law_integers_exact(state.waiting_requests as nat);
    laws::law_integers_exact(10);
    law_modelled_capacity(state);
    let capacity = Metrics::capacity(state);
    let w = capacity.magnitude() as int;
    assert(0 * pow2(0) == 0) by (nonlinear_arith);
    assert(0 <= q * one <= 0x1_0000_0000 * one) by (nonlinear_arith)
        requires
            0 <= q <= 0x1_0000_0000,
            one > 0,
    ;
    assert(q * one <= 0x1_0000_0000_0000_0000 * w);
    let queue = Number::integer(state.waiting_requests as nat);
    errors::law_quotient_error(queue, capacity);
    let wait = queue.over(capacity);
    let x = wait.magnitude() as int;
    let qq = q * one * one;
    assert(0 <= qq <= 0x1_0000_0000_0000_0000 * (w * one)) by (nonlinear_arith)
        requires
            qq == (q * one) * one,
            0 <= q * one <= 0x1_0000_0000 * one,
            one <= 0x1_0000_0000 * w,
            one > 0,
    ;
    assert(x * w <= 2 * qq + w);
    assert(qq <= 0x1000_0000_0000 * (w * one)) by (nonlinear_arith)
        requires
            qq == (q * one) * one,
            0 <= q * one <= 0x1_0000_0000 * one,
            one <= 0x1000 * w,
            one > 0,
    ;
    assert(x <= 0x2000_0000_0000 * one + 1) by (nonlinear_arith)
        requires
            x * w <= 2 * qq + w,
            qq <= 0x1000_0000_0000 * (w * one),
            w > 0,
    ;
    errors::law_multiple_error(1000, wait);
    let delay = wait.times(Number::integer(1000));
    let d = delay.magnitude() as int;
    errors::law_sum_error(Number::integer(10), delay);
    let latency = Number::integer(10).plus(delay);
    errors::lemma_moderate(false, (10 * one + d) as nat, pow2(1074));
    let l = latency.magnitude() as int;
    assert(latency == Metrics::modelled_latency(state));
    lemma_latency_error(one, q, e, w, x, d, l);
}

/// The errors of the latency model, added up.
proof fn lemma_latency_error(one: int, q: int, e: int, w: int, x: int, d: int, l: int)
    requires
        0x1_0000_0000_0000_0000_0000_0000_0000_0000 <= one,
        q >= 0,
        w > 0,
        x >= 0,
        d >= 0,
        l >= 0,
        gap(w, e) * 0x4_0000_0000_0000 <= e,
        gap(x * w, q * one * one) * 0x20_0000_0000_0000 <= q * one * one + 0x10_0000_0000_0000 * w,
        gap(d, 1000 * x) * 0x20_0000_0000_0000 <= 1000 * x + 0x10_0000_0000_0000,
        gap(l, 10 * one + d) * 0x20_0000_0000_0000 <= 10 * one + d + 0x10_0000_0000_0000,
    ensures
        gap(l * e, 10 * (e * one) + 1000 * (q * one * one)) * 0x100_0000_0000 <= 10 * (e * one)
            + 1000 * (q * one * one),
{
    let s = 0x20_0000_0000_0000int;
    let qq = q * one * one;
    let last = gap(l, 10 * one + d);
    let mid = gap(d, 1000 * x);
    let off = gap(x * w, qq);
    assert(qq >= 0) by (nonlinear_arith)
        requires
            qq == q * one * one,
            q >= 0,
            one > 0,
    ;
    let gw = 10 * (w * one) + 1000 * qq;
    let ge = 10 * (e * one) + 1000 * qq;
    assert(gap(l * w, gw) <= last * w + mid * w + 1000 * off) by (nonlinear_arith)
        requires
            last == gap(l, 10 * one + d),
            mid == gap(d, 1000 * x),
            off == gap(x * w, qq),
            gw == 10 * (w * one) + 1000 * qq,
            w > 0,
    ;
    assert((last * w) * s <= 10 * (w * one) + d * w + 0x10_0000_0000_0000 * w)
        by (nonlinear_arith)
        requires
            last * s <= 10 * one + d + 0x10_0000_0000_0000,
            w > 0,
    ;
    assert((mid * w) * s <= 1000 * (x * w) + 0x10_0000_0000_0000 * w) by (nonlinear_arith)
        requires
            mid * s <= 1000 * x + 0x10_0000_0000_0000,
            w > 0,
    ;
    assert(d <= 2000 * x + 1);
    assert(d * w <= 2000 * (x * w) + w) by (nonlinear_arith)
        requires
            d <= 2000 * x + 1,
            w > 0,
    ;
    assert(0x1_0000_0000_0000_0000_0000_0000_0000_0000 * w <= w * one) by (nonlinear_arith)
        requires
            0x1_0000_0000_0000_0000_0000_0000_0000_0000 <= one,
            w > 0,
    ;
    assert(gap(l * w, gw) * 0x4_0000_0000_0000 <= gw);
    // From the capacity that is computed to the exact one.
    let slip = gap(w, e);
    assert(gap(l * w, l * e) == l * slip) by (nonlinear_arith)
        requires
            slip == gap(w, e),
            l >= 0,
    ;
    assert(gap(w * one, e * one) == slip * one) by (nonlinear_arith)
        requires
            slip == gap(w, e),
            one > 0,
    ;
    assert((l * slip) * 0x4_0000_0000_0000 <= l * e) by (nonlinear_arith)
        requires
            slip * 0x4_0000_0000_0000 <= e,
            l >= 0,
    ;
    assert((slip * one) * 0x4_0000_0000_0000 <= e * one) by (nonlinear_arith)
        requires
            slip * 0x4_0000_0000_0000 <= e,
            one > 0,
    ;
    assert(l * e <= 2 * (l * w)) by (nonlinear_arith)
        requires
            e <= 2 * w,
            l >= 0,
    ;
    assert(0 <= e * one) by (nonlinear_arith)
        requires
            e >= 0,
            one > 0,
    ;
    assert(gw <= 2 * ge);
}

/// Without a replica, latency is the processing alone.
pub proof fn law_latency_without_replicas(state: SystemState)
    requires
        state.cpu_per_replica@ is Finite,
        state.num_replicas == 0,
    ensures
        Metrics::modelled_latency(state) == Number::integer(10),
{
    let one = pow2(1074);
    lemma_pow2_pos(1074);
    lemma_pow2_pos(2148);
    laws::law_integers_exact(0);
    laws::law_integers_exact(10);
    laws::law_integers_exact(100);
    laws::law_integers_exact(1000);
    crate::double::arithmetic::lemma_nearest_zero(false, 1);
    crate::double::arithmetic::lemma_nearest_zero(false, pow2(2148));
    crate::double::arithmetic::lemma_nearest_zero(true, pow2(2148));
    let cpu = state.cpu_per_replica@;
    assert(0 * cpu.magnitude() == 0) by (nonlinear_arith);
    assert(0 * pow2(0) == 0) by (nonlinear_arith);
    assert(0 * (100 * one) == 0) by (nonlinear_arith);
    assert(0 * (1000 * one) == 0) by (nonlinear_arith);
    assert(Number::zero(false).magnitude() == 0);
    assert(Number::zero(true).magnitude() == 0);
    assert(Metrics::queue_wait(state) == Number::zero(false));
    errors::law_integer_sum(10, 0);
}

/// In a second the replicas that are ready become active. If these are not too many, the others
/// keep their order and their times, the last of them given up where there are too many, and what
/// is missing is asked for, to be ready after the warm-up. Of too many active ones one is stopped,
/// and nothing is pending any more.
pub proof fn law_replicas_in_a_second(
    config: SimulatorConfig,
    state: SimulatorState,
    target: TargetState,
    rps: Number,
    next: SimulatorState,
    seen: SystemState,
)
    requires
        config.stepped(state, target, rps, next, seen),
        state.time + 1 + config.replica_warmup_time_s <= u32::MAX,
    ensures
        ({
            let ready = state.ready_times().filter(|at: u32| at <= state.time + 1);
            let waiting = state.ready_times().filter(|at: u32| at > state.time + 1);
            let active = state.active_replicas + ready.len();
            let times = next.ready_times();
            &&& ready.len() + waiting.len() == state.pending_replicas@.len()
            &&& active <= target.num_replicas ==> {
                &&& next.active_replicas == active
                &&& next.active_replicas + times.len() == target.num_replicas
                &&& forall|i: int|
                    0 <= i < times.len() ==> #[trigger] times[i] == (if i < waiting.len() {
                        waiting[i]
                    } else {
                        (next.time + config.replica_warmup_time_s) as u32
                    })
            }
            &&& active > target.num_replicas ==> next.active_replicas == active - 1 && times.len()
                == 0
            &&& seen.num_replicas == next.active_replicas
            &&& next.time == state.time + 1
        }),
{
    let times = state.ready_times();
    let is_ready = |at: u32| at <= state.time + 1;
    let is_waiting = |at: u32| at > state.time + 1;
    let late = |ready: u32| ((state.time + 1) as nat) < ready;
    lemma_filters_split(times, is_ready, is_waiting);
    lemma_same_filter(times, is_waiting, late);
    assert(SimulatorConfig::replicas(state).at((state.time + 1) as nat).ready_times
        == times.filter(late));
}

/// What one filter takes, the other leaves.
proof fn lemma_filters_split(
    times: Seq<u32>,
    some: spec_fn(u32) -> bool,
    others: spec_fn(u32) -> bool,
)
    requires
        forall|at: u32| #[trigger] some(at) == !others(at),
    ensures
        times.filter(some).len() + times.filter(others).len() == times.len(),
    decreases times.len(),
{
    reveal(Seq::filter);
    if times.len() > 0 {
        lemma_filters_split(times.drop_last(), some, others);
        assert(some(times.last()) == !others(times.last()));
    }
}

proof fn lemma_same_filter(times: Seq<u32>, one: spec_fn(u32) -> bool, other: spec_fn(u32) -> bool)
    requires
        forall|at: u32| #[trigger] one(at) == other(at),
    ensures
        times.filter(one) == times.filter(other),
    decreases times.len(),
{
    reveal(Seq::filter);
    if times.len() > 0 {
        lemma_same_filter(times.drop_last(), one, other);
        assert(one(times.last()) == other(times.last()));
    }
}

/// What is seen of a second is what there is: the time, the queue, the replicas, the target's
/// resources, and the requests that came, as a rate and cut to a whole number.
pub proof fn law_second_is_seen(
    config: SimulatorConfig,
    state: SimulatorState,
    target: TargetState,
    rps: Number,
    next: SimulatorState,
    seen: SystemState,
)
    requires
        config.stepped(state, target, rps, next, seen),
        rps is Finite,
        !rps.is_negative(),
    ensures
        seen.time_s == state.time + 1,
        seen.waiting_requests == next.queue,
        seen.incoming_rps@ == rps,
        seen.incoming_requests * pow2(1074) <= rps.magnitude(),
        seen.incoming_requests < u32::MAX ==> rps.magnitude() < (seen.incoming_requests + 1)
            * pow2(1074),
        seen.cpu_per_replica == target.cpu_per_replica,
        seen.mem_per_replica == target.mem_per_replica,
        next.cpu_per_replica == target.cpu_per_replica,
        next.mem_per_replica == target.mem_per_replica,
{
    errors::law_truncated_within_one(rps, u32::MAX as nat);
}


/// The 99th percentile is twice the average where requests wait, and otherwise the same.
pub proof fn law_latency_percentile(state: SystemState, metrics: Metrics)
    requires
        call_ensures(Metrics::from_state, (&state,), metrics),
        metrics.avg_latency_ms@ is Finite,
        !metrics.avg_latency_ms@.is_negative(),
        metrics.avg_latency_ms@.magnitude() <= 0x100_0000_0000 * pow2(1074),
    ensures
        metrics.avg_latency_ms@ == Metrics::modelled_latency(state),
        metrics.queue_depth == state.waiting_requests,
        state.waiting_requests == 0 ==> metrics.p99_latency_ms@ == metrics.avg_latency_ms@,
        state.waiting_requests > 0 ==> gap(
            metrics.p99_latency_ms@.magnitude() as int,
            2 * metrics.avg_latency_ms@.magnitude() as int,
        ) * 0x20_0000_0000_0000 <= 2 * metrics.avg_latency_ms@.magnitude() + 0x10_0000_0000_0000,
{
    lemma_pow2_pos(1074);
    errors::law_multiple_error(2, metrics.avg_latency_ms@);
}

/// Where nothing is to be changed, what is beyond a limit is brought back to that limit.
pub proof fn law_limits_pull_back(
    controller: Controller,
    state: SystemState,
    bottleneck: Bottleneck,
    target: TargetState,
)
    requires
        controller.limits_ordered(),
        controller.answers(state, bottleneck, target),
        bottleneck is Stable || bottleneck is Unknown,
    ensures
        state.num_replicas > controller.max_replicas ==> target.num_replicas
            == controller.max_replicas,
        state.num_replicas < controller.min_replicas ==> target.num_replicas
            == controller.min_replicas,
        controller.max_cpu@.below(state.cpu_per_replica@) ==> target.cpu_per_replica@
            == controller.max_cpu@,
        state.cpu_per_replica@.below(controller.min_cpu@) ==> target.cpu_per_replica@
            == controller.min_cpu@,
        controller.max_mem@.below(state.mem_per_replica@) ==> target.mem_per_replica@
            == controller.max_mem@,
        state.mem_per_replica@.below(controller.min_mem@) ==> target.mem_per_replica@
            == controller.min_mem@,
{
}

} // verus!
