//! What the functions promise of what they return, in plain integers.

use vstd::arithmetic::power2::*;
use vstd::prelude::*;

use crate::docker::controller::CsvOutput;
use crate::docker::executor::{ContainerStep, DockerExecutor, PortProbe};
use crate::double::errors::gap;
use crate::double::{errors, laws, Double, Number};
use crate::http::controller::HttpController;
use crate::http::executor::{Executor, Step};
use crate::http::instance::InstanceMetrics;
use crate::http::laws::{total, whole_latencies};
use crate::http::loadgen::Loadgen;
use crate::http::process::cpu_ticks;
use crate::http::proxy::{connected, Refusal};
use crate::http::request::{Response, Route};
use crate::http::service::{ServiceConfig, Work};
use crate::http::sizes::{is_begun, is_cut_multiple, is_factor, is_multiple};
use crate::shared::metrics::Metrics;
use crate::shared::types::{SystemState, TargetState};
use crate::shared::workload::WorkloadPattern;

verus! {

/// Replicas that are all busy while anything waits get at least one more when the controller
/// decides, unless there are as many as allowed.
pub proof fn law_busy_replicas_get_help(
    controller: crate::shared::controller::Controller,
    state: SystemState,
    metrics: Metrics,
    target: TargetState,
)
    requires
        call_ensures(
            crate::shared::controller::Controller::decide,
            (&controller, &state, &metrics),
            target,
        ),
        controller.min_replicas <= state.num_replicas < controller.max_replicas,
        0 < state.num_replicas,
        0 < controller.slots_per_replica,
        state.num_replicas * controller.slots_per_replica <= u32::MAX,
        state.waiting_requests > 0,
        state.cpu_util@ == Number::integer(100),
    ensures
        target.num_replicas > state.num_replicas,
{
    let found = controller.diagnosis(state, metrics);
    crate::shared::laws::law_diagnosis_names_what_is_short(controller, state, metrics);
    crate::shared::laws::law_busy_replicas_get_help(controller, state, found, target);
}

/// Where requests wait, the slots of the replicas that the controller asks for hold them and the
/// utilised share of the slots there are, to within half a slot, unless the replicas are three
/// times as many as before or as many as allowed; and where replicas are added, one fewer would
/// not do.
pub proof fn law_decision_holds_demand(
    controller: crate::shared::controller::Controller,
    state: SystemState,
    metrics: Metrics,
    target: TargetState,
    percent: nat,
)
    requires
        call_ensures(
            crate::shared::controller::Controller::decide,
            (&controller, &state, &metrics),
            target,
        ),
        controller.min_replicas <= state.num_replicas <= controller.max_replicas,
        0 < state.num_replicas,
        0 < controller.slots_per_replica,
        state.num_replicas * controller.slots_per_replica <= u32::MAX,
        state.waiting_requests > 0,
        percent <= 0x100_0000_0000,
        percent * (state.num_replicas * controller.slots_per_replica) <= 100 * u32::MAX,
        state.cpu_util@ == Number::integer(percent),
    ensures
        state.num_replicas <= target.num_replicas <= 3 * state.num_replicas,
        target.num_replicas < 3 * state.num_replicas && target.num_replicas
            < controller.max_replicas ==> 100 * (target.num_replicas
            * controller.slots_per_replica) + 50 >= 100 * state.waiting_requests + percent * (
        state.num_replicas * controller.slots_per_replica),
        target.num_replicas > state.num_replicas ==> 100 * ((target.num_replicas - 1)
            * controller.slots_per_replica) + 50 <= 100 * state.waiting_requests + percent * (
        state.num_replicas * controller.slots_per_replica),
{
    let found = controller.diagnosis(state, metrics);
    crate::shared::laws::law_diagnosis_names_what_is_short(controller, state, metrics);
    crate::shared::laws::law_target_holds_whole_demand(controller, state, found, target, percent);
}

/// The count that is asked for by demand is that of the law, whatever the bottleneck.
pub proof fn law_replicas_for_demand(
    controller: crate::shared::controller::Controller,
    state: SystemState,
    replicas: u32,
    percent: nat,
)
    requires
        call_ensures(
            crate::shared::controller::Controller::replicas_for_demand,
            (&controller, &state),
            replicas,
        ),
        0 < state.num_replicas,
        0 < controller.slots_per_replica,
        state.num_replicas * controller.slots_per_replica <= u32::MAX,
        percent <= 0x100_0000_0000,
        percent * (state.num_replicas * controller.slots_per_replica) <= 100 * u32::MAX,
        state.cpu_util@ == Number::integer(percent),
    ensures
        state.num_replicas <= replicas <= 3 * state.num_replicas,
        replicas < 3 * state.num_replicas ==> 100 * (replicas * controller.slots_per_replica) + 50
            >= 100 * state.waiting_requests + percent * (state.num_replicas
            * controller.slots_per_replica),
        replicas > state.num_replicas ==> 100 * ((replicas - 1) * controller.slots_per_replica)
            + 50 <= 100 * state.waiting_requests + percent * (state.num_replicas
            * controller.slots_per_replica),
{
    assert(0 <= percent * (state.num_replicas * controller.slots_per_replica))
        by (nonlinear_arith);
    crate::shared::laws::lemma_whole_in_range(
        percent,
        state.num_replicas * controller.slots_per_replica,
    );
    crate::shared::laws::law_slots_in_use(controller, state, percent);
    if replicas < 3 * state.num_replicas {
        crate::shared::controller::law_demand_is_held(controller, state);
    } else if replicas > state.num_replicas {
        let slots = controller.slots_per_replica as int;
        let demand = controller.demand(state) as int;
        let needed = (demand + slots - 1) / slots;
        let r = replicas as int;
        vstd::arithmetic::div_mod::lemma_fundamental_div_mod(demand + slots - 1, slots);
        assert(slots * needed == needed * slots) by (nonlinear_arith);
        assert((needed - 1) * slots == needed * slots - slots) by (nonlinear_arith);
        assert((r - 1) * slots < demand) by (nonlinear_arith)
            requires
                r <= needed,
                (needed - 1) * slots < demand,
                slots > 0,
        ;
    }
}

/// A system without a queue and with a good latency, of which less than three tenths of the
/// targets is used, loses a fifth of its replicas when the controller decides (rounded up; one of
/// five or fewer), but keeps the fewest allowed.
pub proof fn law_surplus_goes_gradually(
    controller: crate::shared::controller::Controller,
    state: SystemState,
    metrics: Metrics,
    target: TargetState,
    cpu: nat,
    mem: nat,
    cpu_target: nat,
    mem_target: nat,
)
    requires
        call_ensures(
            crate::shared::controller::Controller::decide,
            (&controller, &state, &metrics),
            target,
        ),
        controller.min_replicas < state.num_replicas <= controller.max_replicas,
        state.waiting_requests == 0,
        metrics.avg_latency_ms@.at_most(controller.latency_target_ms@),
        state.cpu_util@ == Number::integer(cpu),
        state.mem_util@ == Number::integer(mem),
        controller.cpu_util_target@ == Number::integer(cpu_target),
        controller.mem_util_target@ == Number::integer(mem_target),
        cpu_target <= u32::MAX,
        mem_target <= u32::MAX,
        10 * cpu < 3 * cpu_target,
        10 * mem < 3 * mem_target,
    ensures
        controller.min_replicas <= target.num_replicas < state.num_replicas,
        state.num_replicas <= 5 ==> target.num_replicas == state.num_replicas - 1,
        state.num_replicas > 5 ==> 8 * state.num_replicas < 10 * (target.num_replicas + 1),
        state.num_replicas > 5 && target.num_replicas > controller.min_replicas ==> 10
            * target.num_replicas <= 8 * state.num_replicas,
{
    crate::double::decimals::law_three_tenths(cpu, cpu_target);
    crate::double::decimals::law_three_tenths(mem, mem_target);
    crate::shared::laws::law_diagnosis_names_what_is_short(controller, state, metrics);
    crate::shared::laws::law_scaling_in_is_gradual(controller, state, target);
}

/// The same of the controller that grows by fixed steps.
pub proof fn law_simulated_surplus_goes_gradually(
    controller: crate::controller::Controller,
    state: SystemState,
    metrics: Metrics,
    target: TargetState,
    cpu: nat,
    mem: nat,
    cpu_target: nat,
    mem_target: nat,
)
    requires
        call_ensures(
            crate::controller::Controller::decide,
            (&controller, &state, &metrics),
            target,
        ),
        controller.min_replicas < state.num_replicas <= controller.max_replicas,
        state.waiting_requests == 0,
        metrics.avg_latency_ms@.at_most(controller.latency_target_ms@),
        state.cpu_util@ == Number::integer(cpu),
        state.mem_util@ == Number::integer(mem),
        controller.cpu_util_target@ == Number::integer(cpu_target),
        controller.mem_util_target@ == Number::integer(mem_target),
        cpu_target <= u32::MAX,
        mem_target <= u32::MAX,
        10 * cpu < 3 * cpu_target,
        10 * mem < 3 * mem_target,
    ensures
        controller.min_replicas <= target.num_replicas < state.num_replicas,
        state.num_replicas <= 5 ==> target.num_replicas == state.num_replicas - 1,
        state.num_replicas > 5 ==> 8 * state.num_replicas < 10 * (target.num_replicas + 1),
        state.num_replicas > 5 && target.num_replicas > controller.min_replicas ==> 10
            * target.num_replicas <= 8 * state.num_replicas,
{
    crate::double::decimals::law_three_tenths(cpu, cpu_target);
    crate::double::decimals::law_three_tenths(mem, mem_target);
    crate::laws::law_diagnosis_names_what_is_short(controller, state, metrics);
    crate::laws::law_scaling_in_is_gradual(controller, state, target);
}

/// A decision is the answer to the bottleneck that is found, whichever controller decides.
pub proof fn law_decisions_answer_what_is_found(
    shared: crate::shared::controller::Controller,
    simulated: crate::controller::Controller,
    state: SystemState,
    metrics: Metrics,
    first: TargetState,
    second: TargetState,
)
    requires
        call_ensures(
            crate::shared::controller::Controller::decide,
            (&shared, &state, &metrics),
            first,
        ),
        call_ensures(
            crate::controller::Controller::decide,
            (&simulated, &state, &metrics),
            second,
        ),
    ensures
        shared.answers(state, shared.diagnosis(state, metrics), first),
        simulated.answers(state, simulated.diagnosis(state, metrics), second),
{
}

/// The queue alone tells an emergency: it is one as soon as it is longer than the threshold.
pub proof fn law_emergency_by_queue(
    controller: crate::shared::controller::Controller,
    state: SystemState,
    emergency: bool,
)
    requires
        call_ensures(
            crate::shared::controller::Controller::is_emergency,
            (&controller, &state),
            emergency,
        ),
    ensures
        state.waiting_requests > controller.emergency_queue_threshold ==> emergency,
        state.waiting_requests <= controller.emergency_queue_threshold ==> !emergency,
{
}

/// What workers report together has the mean of their latencies.
pub proof fn law_aggregate_has_the_mean(
    metrics: Vec<InstanceMetrics>,
    whole: Seq<nat>,
    together: Option<InstanceMetrics>,
)
    requires
        call_ensures(InstanceMetrics::aggregate, (&metrics,), together),
        together is Some,
        0 < metrics@.len() < 0x20_0000_0000_0000,
        whole_latencies(metrics@, whole),
        total(whole) < 0x20_0000_0000_0000,
    ensures
        together->0.avg_latency_ms@ == Number::ratio(total(whole), metrics@.len()),
{
    crate::http::laws::law_latency_is_the_mean(metrics@, whole);
}

/// The rate of a wave swings around its center by its amplitude, and is cut off at zero only.
pub proof fn law_rate_of_whole_wave(
    center: Double,
    amplitude: Double,
    period_s: u32,
    t: u32,
    sine: Double,
    rate: Double,
    c: nat,
    a: nat,
)
    requires
        call_ensures(
            WorkloadPattern::rps_at,
            (&WorkloadPattern::Wave { center, amplitude, period_s }, t, sine),
            rate,
        ),
        period_s > 0,
        center@ == Number::integer(c),
        amplitude@ == Number::integer(a),
        c + a < 0x20_0000_0000_0000,
    ensures
        sine@ == Number::integer(0) ==> rate@ == Number::integer(c),
        sine@ == Number::integer(1) ==> rate@ == Number::integer(c + a),
        sine@ == Number::integer(1).negated() && a <= c ==> rate@ == Number::integer(
            (c - a) as nat,
        ),
        sine@ == Number::integer(1).negated() && a > c ==> rate@ == Number::integer(0),
{
    crate::shared::workload::law_whole_wave(center, amplitude, period_s, t, c, a);
}

/// A wave's angle makes a full turn in each period: it is in proportion to the time, off by very
/// little. A full turn is twice pi.
pub proof fn law_angle_turns(
    center: Double,
    amplitude: Double,
    period_s: u32,
    t: u32,
    angle: Option<Double>,
)
    requires
        call_ensures(
            WorkloadPattern::angle_at,
            (&WorkloadPattern::Wave { center, amplitude, period_s }, t),
            angle,
        ),
    ensures
        6_283_185_307_179_586 * pow2(1074) <= 1_000_000_000_000_000
            * WorkloadPattern::full_turn().magnitude() < 6_283_185_307_179_587 * pow2(1074),
        period_s == 0 ==> angle is None,
        period_s > 0 ==> angle is Some && angle->0@ is Finite && !angle->0@.is_negative() && gap(
            (angle->0@.magnitude() * period_s) as int,
            (WorkloadPattern::full_turn().magnitude() * t) as int,
        ) * 0x8_0000_0000_0000 <= WorkloadPattern::full_turn().magnitude() * t
            + 0x8_0000_0000_0000 * period_s,
{
    let turn = WorkloadPattern::full_turn();
    let one = pow2(1074) as int;
    errors::lemma_one_is_large();
    lemma_pow2_adds(1024, 50);
    lemma_pow2_adds(32, 18);
    lemma_pow2_pos(1024);
    lemma2_to64();
    let p = pow2(1024) as int;
    assert(turn.magnitude() == 0x19_21fb_5444_2d18 * p);
    assert(one == p * 0x4_0000_0000_0000);
    let m = turn.magnitude() as int;
    if period_s > 0 {
        let s = 0x20_0000_0000_0000int;
        let k = t as int;
        let d = period_s as int;
        assert(0 <= k * m <= 0x1_0000_0000 * (8 * one)) by (nonlinear_arith)
            requires
                0 <= k <= 0x1_0000_0000,
                0 <= m <= 8 * one,
        ;
        errors::law_multiple_error(t as nat, turn);
        let far = turn.times(Number::integer(t as nat));
        let f = far.magnitude() as int;
        laws::law_integers_exact(period_s as nat);
        assert(d * one >= one) by (nonlinear_arith)
            requires
                d >= 1,
                one > 0,
        ;
        errors::law_quotient_error(far, Number::integer(period_s as nat));
        let r = angle->0@.magnitude() as int;
        let off = gap(r * d, f);
        assert(gap(r * (d * one), f * one) == off * one) by (nonlinear_arith)
            requires
                off == gap(r * d, f),
                one > 0,
        ;
        assert(off * s <= f + 0x10_0000_0000_0000 * d) by (nonlinear_arith)
            requires
                (off * one) * s <= f * one + 0x10_0000_0000_0000 * (d * one),
                one > 0,
        ;
        assert(k * m == m * k) by (nonlinear_arith);
        assert(gap(r * d, k * m) <= off + gap(f, k * m));
    }
}

/// As many requests are sent in a second as its rate says, rounded.
pub proof fn law_requests_of_rate(rate: Double, count: u32)
    requires
        call_ensures(Loadgen::requests, (rate,), count),
        rate@ is Finite,
        !rate@.is_negative(),
    ensures
        count < u32::MAX ==> gap(2 * count * pow2(1074) as int, 2 * rate@.magnitude() as int)
            <= pow2(1074),
        count == u32::MAX ==> 2 * u32::MAX * pow2(1074) <= 2 * rate@.magnitude() + pow2(1074),
{
    errors::law_rounded_within_half(rate@, u32::MAX as nat);
}

/// A request takes two million rounds or ten megabytes, or half of each, times the factors; other
/// requests take nothing.
pub proof fn law_work_of_requests(config: ServiceConfig, route: Route, work: Work)
    requires
        call_ensures(ServiceConfig::work, (&config, route), work),
        is_factor(config.cpu_factor@),
        is_factor(config.mem_factor@),
    ensures
        route is CpuHeavy ==> work is Cpu && is_multiple(
            work->Cpu_iters as nat,
            2_000_000,
            config.cpu_factor@,
        ),
        route is MemHeavy ==> work is Memory && is_cut_multiple(
            work->Memory_bytes as nat,
            10 * 1024 * 1024,
            config.mem_factor@,
        ),
        route is Mixed ==> work is Both && is_multiple(
            work->Both_iters as nat,
            1_000_000,
            config.cpu_factor@,
        ) && is_cut_multiple(work->Both_bytes as nat, 5 * 1024 * 1024, config.mem_factor@),
        !(route is CpuHeavy || route is MemHeavy || route is Mixed) ==> work is Nothing,
{
    crate::http::sizes::law_work_is_scaled(config, 2_000_000);
    crate::http::sizes::law_work_is_scaled(config, 1_000_000);
    crate::http::sizes::law_work_is_scaled(config, 10_485_760);
    crate::http::sizes::law_work_is_scaled(config, 5_242_880);
}

/// A megabyte is 1024 kilobytes: the number is the nearest to the quotient.
pub proof fn law_megabytes(kb: u64, mb: Double)
    requires
        call_ensures(CsvOutput::megabytes, (kb,), mb),
        kb < 0x20_0000_0000_0000,
    ensures
        mb@ == Number::ratio(kb as nat, 1024),
{
    errors::law_integer_quotient(kb as nat, 1024);
}

/// The ticks in both modes are added.
pub proof fn law_ticks_in_both_modes(user: u64, kernel: u64, ticks: u64)
    requires
        call_ensures(cpu_ticks, (user, kernel), ticks),
    ensures
        ticks == user + kernel,
{
}

/// Too few workers get one more, with the next port and as many threads as CPUs are begun; too
/// many lose the last one; enough stay.
pub proof fn law_worker_steps(executor: Executor, target: usize, step: Step)
    requires
        call_ensures(Executor::ensure_workers, (&executor, target), step),
        executor.workers@.len() < 0x1_0000,
        is_factor(executor.cpu_per_replica@),
    ensures
        executor.workers@.len() < target ==> (step matches Step::Start(launch) && {
            &&& launch.port == executor.base_port + executor.workers@.len()
            &&& launch.max_concurrency == executor.max_concurrency
            &&& launch.worker_threads <= executor.max_concurrency
            &&& launch.worker_threads < executor.max_concurrency ==> is_begun(
                launch.worker_threads as nat,
                executor.cpu_per_replica@,
            )
        }),
        executor.workers@.len() > target ==> step == Step::Stop(
            executor.workers@[executor.workers@.len() - 1],
        ),
        executor.workers@.len() == target ==> step is Done,
{
    crate::http::sizes::law_threads(executor);
}

/// The same of containers, which are named by their number.
pub proof fn law_container_steps(executor: DockerExecutor, target: usize, step: ContainerStep)
    requires
        call_ensures(DockerExecutor::ensure_workers, (&executor, target), step),
        is_factor(executor.cpu_per_replica@),
    ensures
        executor.workers@.len() < target ==> (step matches ContainerStep::Start(launch) && {
            &&& launch.name@ == "autoscaler-worker-"@ + crate::text::Text::decimal(
                executor.workers@.len(),
            )
            &&& is_begun(launch.worker_threads as nat, executor.cpu_per_replica@)
        }),
        executor.workers@.len() > target ==> (step matches ContainerStep::Stop(name) && name@
            == executor.workers@[executor.workers@.len() - 1].name@),
        executor.workers@.len() == target ==> step is Done,
{
    crate::http::sizes::law_container_threads(executor);
}

/// A port that is not told is asked for again, each time after three tenths of a second more than
/// the time before, eight times in all.
pub proof fn law_port_is_asked_for(attempt: u64, answer: Option<String>, next: PortProbe)
    requires
        call_ensures(PortProbe::after, (attempt, answer), next),
        attempt < 8,
        answer is None,
    ensures
        attempt < 7 ==> next == (PortProbe::Again { delay_ms: (300 * (attempt + 1)) as u64 }),
        attempt == 7 ==> next == (PortProbe::GiveUp { delay_ms: 2400 }),
{
}

/// There is always a thread for the work, and otherwise as many as are asked for.
pub proof fn law_pool_threads(config: ServiceConfig, threads: usize)
    requires
        call_ensures(ServiceConfig::pool_threads, (&config,), threads),
    ensures
        threads >= 1,
        config.worker_threads >= 1 ==> threads == config.worker_threads,
{
}

/// One worker is started where none runs, and none otherwise.
pub proof fn law_first_worker(workers: usize, count: Option<usize>)
    requires
        call_ensures(HttpController::workers_to_start, (workers,), count),
    ensures
        workers == 0 ==> count == Some(1usize),
        workers > 0 ==> count is None,
{
}

/// A client hears of a backend only where that was not reached.
pub proof fn law_backend_not_reached(reached: bool, refusal: Option<Refusal>)
    requires
        call_ensures(connected, (reached,), refusal),
    ensures
        reached ==> refusal is None,
        !reached ==> refusal == Some(Refusal::BadGateway),
{
}

/// What is served is answered with success, what cannot be read with the client's fault, and so
/// is a method that is not allowed, or a path that is not known.
pub proof fn law_status_of_route(route: Route, report: &str, response: Response)
    requires
        call_ensures(Response::to_route, (route, report), response),
    ensures
        route is Metrics || route is Health || route is CpuHeavy || route is MemHeavy
            || route is Mixed ==> response.status == 200,
        route is InvalidText || route is Malformed ==> response.status == 400,
        route is NotAllowed ==> response.status == 405,
        route is Unknown ==> response.status == 404,
        route is Metrics ==> response.body@ == report@,
{
}

} // verus!
