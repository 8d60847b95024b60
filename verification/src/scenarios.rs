use vstd::prelude::*;

use crate::controller::Controller;
use crate::double::{Double, Number};
use crate::shared::metrics::Metrics;
use crate::shared::workload::WorkloadPattern;
use crate::simulator::{can_step, step, SimulatorConfig};
use crate::text::Text;
use crate::types::{SimulatorState, SystemState, TargetState};

pub mod laws;

verus! {

/// Where the results of a scenario go.
#[derive(Clone, Debug)]
pub struct OutputConfig {
    pub console: bool,
    pub csv: bool,
    pub csv_dir: String,
}

impl Default for OutputConfig {
    fn default() -> (r: Self)
        ensures
            r.console,
            !r.csv,
            r.csv_dir@ == "data"@,
    {
        OutputConfig { console: true, csv: false, csv_dir: String::from_str("data") }
    }
}

/// The names that files of scenarios get.
pub struct FileName;

impl FileName {
    /// What stands for a character in a file name.
    pub open spec fn replacement(c: char) -> Seq<char> {
        if c == ' ' {
            seq!['_']
        } else if c == '(' || c == ')' {
            Seq::empty()
        } else if c == '→' {
            seq!['t', 'o']
        } else {
            seq![c]
        }
    }

    pub open spec fn is_kept(c: char) -> bool {
        Text::is_alphanumeric(c) || c == '_' || c == '-'
    }

    /// The text with its characters replaced, and only letters, digits, `_` and `-` kept.
    pub open spec fn cleaned(s: Seq<char>) -> Seq<char>
        decreases s.len(),
    {
        if s.len() == 0 {
            Seq::empty()
        } else {
            Self::cleaned(s.drop_last()) + Self::replacement(s.last()).filter(
                |c: char| Self::is_kept(c),
            )
        }
    }

    /// The path of a file in a directory.
    pub open spec fn path(dir: Seq<char>, name: Seq<char>) -> Seq<char> {
        dir + "/"@ + Self::cleaned(Text::lowercase(name)) + ".csv"@
    }
}

/// A text in lower case with only what a file name may hold.
pub fn clean_lowercase(lower: &str) -> (r: String)
    ensures
        r@ == FileName::cleaned(lower@),
{
    let chars: Vec<char> = Text::chars(lower);
    let mut r: String = String::new();
    let mut i: usize = 0;
    while i < chars.len()
        invariant
            i <= chars@.len(),
            r@ == FileName::cleaned(chars@.take(i as int)),
        decreases chars@.len() - i,
    {
        let c: char = chars[i];
        let ghost before = r@;
        let ghost kept = |k: char| FileName::is_kept(k);
        if c == ' ' {
            r.push('_');
        } else if c == '(' || c == ')' {
        } else if c == '→' {
            r.push('t');
            r.push('o');
        } else if c.is_alphanumeric() || c == '_' || c == '-' {
            r.push(c);
        }
        proof {
            reveal_with_fuel(Seq::filter, 3);
            let with = FileName::replacement(c);
            assert(with.len() > 0 ==> with.drop_last().len() == with.len() - 1);
            if c == '→' {
                assert(with.drop_last() =~= seq!['t']);
                assert(with.drop_last().drop_last() =~= Seq::<char>::empty());
                assert(with.filter(kept) =~= seq!['t', 'o']);
            } else if with.len() == 1 {
                assert(with.drop_last() =~= Seq::<char>::empty());
            }
            assert(r@ =~= before + with.filter(kept));
            assert(chars@.take(i + 1).drop_last() =~= chars@.take(i as int));
        }
        i = i + 1;
    }
    assert(chars@.take(i as int) =~= chars@);
    r
}

/// The name of a scenario as the name of a file.
pub fn sanitize_filename(name: &str) -> (r: String)
    ensures
        r@ == FileName::cleaned(Text::lowercase(name@)),
{
    let lower: String = name.to_lowercase();
    clean_lowercase(lower.as_str())
}

/// Where the data of a scenario is to be written, if it is.
pub fn csv_path(name: &str, output: &OutputConfig) -> (r: Option<String>)
    ensures
        match r {
            Some(path) => output.csv && path@ == FileName::path(output.csv_dir@, name@),
            None => !output.csv,
        },
{
    if output.csv {
        Some(
            output.csv_dir.clone().concat("/").concat(sanitize_filename(name).as_str()).concat(
                ".csv",
            ),
        )
    } else {
        None
    }
}

/// One second of a scenario.
#[derive(Clone, Copy, Debug)]
pub struct DataPoint {
    pub state: SystemState,
    pub latency_ms: Double,
    /// The new target, where the controller changed it noticeably.
    pub action: Option<TargetState>,
    /// Is this second shown on the console?
    pub printed: bool,
}

/// A scenario that has been run.
#[derive(Clone, Debug)]
pub struct ScenarioRun {
    pub name: String,
    /// Where the data points are to be written.
    pub csv_path: Option<String>,
    pub points: Vec<DataPoint>,
}

/// How a scenario went: the states and the targets before each second and after the last one.
pub struct History {
    pub states: Seq<SimulatorState>,
    pub targets: Seq<TargetState>,
}

/// The seconds between two decisions of the controller.
pub const CONTROL_INTERVAL: u32 = 10;

impl ScenarioRun {
    /// The seconds between two lines on the console.
    pub open spec fn print_interval(duration: u32) -> u32 {
        if duration > 3600 {
            300
        } else if duration > 600 {
            60
        } else {
            10
        }
    }

    pub open spec fn is_config(config: SimulatorConfig) -> bool {
        &&& config.requests_per_cpu_per_sec@ == Number::integer(100)
        &&& config.memory_per_request@ == Number::ratio(1, 100)
        &&& config.replica_warmup_time_s == 10
        &&& config.max_queue_size == 10000
    }

    pub open spec fn is_controller(controller: Controller) -> bool {
        &&& controller.latency_target_ms@ == Number::integer(50)
        &&& controller.cpu_util_target@ == Number::integer(70)
        &&& controller.mem_util_target@ == Number::integer(70)
        &&& controller.min_replicas == 1
        &&& controller.max_replicas == 20
        &&& controller.min_cpu@ == Number::ratio(5, 10)
        &&& controller.max_cpu@ == Number::integer(4)
        &&& controller.min_mem@ == Number::integer(1)
        &&& controller.max_mem@ == Number::integer(8)
    }

    pub open spec fn is_start(state: SimulatorState, target: TargetState) -> bool {
        &&& state.time == 0
        &&& state.queue == 0
        &&& state.active_replicas == 1
        &&& state.ready_times() == Seq::<u32>::empty()
        &&& target.num_replicas == 1
        &&& target.cpu_per_replica@ == Number::integer(1)
        &&& target.mem_per_replica@ == Number::integer(2)
    }

    /// Do two targets differ noticeably?
    pub open spec fn differ(a: TargetState, b: TargetState) -> bool {
        ||| a.num_replicas != b.num_replicas
        ||| TargetState::apart(a.cpu_per_replica, b.cpu_per_replica)
        ||| TargetState::apart(a.mem_per_replica, b.mem_per_replica)
    }

    /// Does a data point show the second `t`, which leads from `target` to `next_target`?
    pub open spec fn shows_second(
        controller: Controller,
        t: int,
        target: TargetState,
        next_target: TargetState,
        point: DataPoint,
        printed: bool,
    ) -> bool {
        let metrics = Metrics {
            avg_latency_ms: point.latency_ms,
            p99_latency_ms: point.latency_ms,
            queue_depth: point.state.waiting_requests,
        };
        &&& point.latency_ms@ == Metrics::modelled_latency(point.state)
        &&& if t % CONTROL_INTERVAL as int == 0 && t > 0 {
            &&& controller.answers(
                point.state,
                controller.diagnosis(point.state, metrics),
                next_target,
            )
            &&& point.action == (if Self::differ(next_target, target) {
                Some(next_target)
            } else {
                None
            })
        } else {
            next_target == target && point.action is None
        }
        &&& point.printed == printed
    }

    /// Did the scenario go that way, with the given rate in each second?
    pub open spec fn went(
        config: SimulatorConfig,
        controller: Controller,
        rate: spec_fn(u32) -> Number,
        duration: u32,
        console: bool,
        history: History,
        points: Seq<DataPoint>,
    ) -> bool {
        let count = points.len() as int;
        &&& history.states.len() == count + 1
        &&& history.targets.len() == count + 1
        &&& Self::is_start(history.states[0], history.targets[0])
        &&& forall|t: int|
            #![trigger points[t]]
            0 <= t < count ==> {
                &&& config.stepped(
                    history.states[t],
                    history.targets[t],
                    rate(t as u32),
                    history.states[t + 1],
                    points[t].state,
                )
                &&& Self::shows_second(
                    controller,
                    t,
                    history.targets[t],
                    history.targets[t + 1],
                    points[t],
                    console && t % Self::print_interval(duration) as int == 0,
                )
            }
    }

    /// Is this the run of the scenario, with the given rate in each second?
    pub open spec fn is_run(
        self,
        name: Seq<char>,
        rate: spec_fn(u32) -> Number,
        duration: u32,
        output: OutputConfig,
    ) -> bool {
        &&& self.name@ == name
        &&& match self.csv_path {
            Some(path) => output.csv && path@ == FileName::path(output.csv_dir@, name),
            None => !output.csv,
        }
        &&& self.points@.len() == duration
        &&& exists|config: SimulatorConfig, controller: Controller, history: History|
            Self::is_config(config) && Self::is_controller(controller) && #[trigger] Self::went(
                config,
                controller,
                rate,
                duration,
                output.console,
                history,
                self.points@,
            )
    }

    /// The rate of a workload, given the sines of its angles.
    pub open spec fn rate_of(workload: WorkloadPattern, sines: Seq<Double>) -> spec_fn(
        u32,
    ) -> Number {
        |t: u32|
            workload.rate(
                t,
                if t < sines.len() {
                    sines[t as int]@
                } else {
                    Number::zero(false)
                },
            )
    }

    /// Does the scenario get to a second whose counters do not fit into 32 bits?
    pub open spec fn overflows(
        rate: spec_fn(u32) -> Number,
        duration: u32,
        console: bool,
    ) -> bool {
        exists|
            config: SimulatorConfig,
            controller: Controller,
            history: History,
            points: Seq<DataPoint>,
        |
            Self::is_config(config) && Self::is_controller(controller) && #[trigger] Self::went(
                config,
                controller,
                rate,
                duration,
                console,
                history,
                points,
            ) && points.len() < duration && !config.step_fits(
                history.states.last(),
                history.targets.last(),
                rate(points.len() as u32),
            )
    }

    /// The requests of a second and those that may wait fit into 32 bits.
    pub open spec fn rate_fits(rate: spec_fn(u32) -> Number, duration: u32) -> bool {
        forall|t: u32|
            t < duration ==> #[trigger] rate(t).truncated(u32::MAX as nat) <= u32::MAX - 10000
    }

    /// What holds at the start of each second of a scenario.
    pub open spec fn in_bounds(t: int, state: SimulatorState, target: TargetState) -> bool {
        &&& state.time == t
        &&& state.queue <= 10000
        &&& SimulatorConfig::replicas(state).total() <= 20
        &&& 1 <= target.num_replicas <= 20
    }
}

/// Runs one second of a scenario.
fn run_second(
    config: &SimulatorConfig,
    controller: &Controller,
    t: u32,
    sim_state: SimulatorState,
    target: &TargetState,
    incoming_rps: Double,
    printed: bool,
) -> (r: (SimulatorState, TargetState, DataPoint))
    requires
        controller.limits_ordered(),
        config.step_fits(sim_state, *target, incoming_rps@),
    ensures
        config.stepped(sim_state, *target, incoming_rps@, r.0, r.2.state),
        ScenarioRun::shows_second(*controller, t as int, *target, r.1, r.2, printed),
{
    let (next_state, system_state): (SimulatorState, SystemState) = step(
        config,
        sim_state,
        target,
        incoming_rps,
    );
    let metrics: Metrics = Metrics::from_state(&system_state);
    let mut action: Option<TargetState> = None;
    let mut next_target: TargetState = *target;
    if t % CONTROL_INTERVAL == 0 && t > 0 {
        next_target = controller.decide(&system_state, &metrics);
        let changed: bool = next_target.num_replicas != target.num_replicas
            || TargetState::is_apart(next_target.cpu_per_replica, target.cpu_per_replica)
            || TargetState::is_apart(next_target.mem_per_replica, target.mem_per_replica);
        if changed {
            action = Some(next_target);
        }
    }
    let point: DataPoint = DataPoint {
        state: system_state,
        latency_ms: metrics.avg_latency_ms,
        action,
        printed,
    };
    (next_state, next_target, point)
}

/// A scenario goes on by one second.
proof fn lemma_went_on(
    config: SimulatorConfig,
    controller: Controller,
    rate: spec_fn(u32) -> Number,
    duration: u32,
    console: bool,
    history: History,
    points: Seq<DataPoint>,
    state: SimulatorState,
    target: TargetState,
    point: DataPoint,
)
    requires
        ScenarioRun::went(config, controller, rate, duration, console, history, points),
        config.stepped(
            history.states.last(),
            history.targets.last(),
            rate(points.len() as u32),
            state,
            point.state,
        ),
        ScenarioRun::shows_second(
            controller,
            points.len() as int,
            history.targets.last(),
            target,
            point,
            console && points.len() as int % ScenarioRun::print_interval(duration) as int == 0,
        ),
    ensures
        ScenarioRun::went(
            config,
            controller,
            rate,
            duration,
            console,
            History {
                states: history.states.push(state),
                targets: history.targets.push(target),
            },
            points.push(point),
        ),
{
    let longer = points.push(point);
    let states = history.states.push(state);
    let targets = history.targets.push(target);
    assert forall|t: int| 0 <= t < longer.len() implies {
        &&& config.stepped(
            states[t],
            targets[t],
            rate(t as u32),
            states[t + 1],
            (#[trigger] longer[t]).state,
        )
        &&& ScenarioRun::shows_second(
            controller,
            t,
            targets[t],
            targets[t + 1],
            longer[t],
            console && t % ScenarioRun::print_interval(duration) as int == 0,
        )
    } by {
        if t < points.len() {
            assert(longer[t] == points[t]);
        }
    }
}

/// Runs a scenario: the simulator under a workload, with the controller deciding every ten
/// seconds.
///
/// `sines` holds, for a wave, the sine of its angle in each second. There is no run if the
/// counters of some second do not fit into 32 bits.
pub fn run_scenario(
    name: &str,
    workload: WorkloadPattern,
    sines: &Vec<Double>,
    duration: u32,
    output: &OutputConfig,
) -> (r: Option<ScenarioRun>)
    ensures
        match r {
            Some(run) => run.is_run(
                name@,
                ScenarioRun::rate_of(workload, sines@),
                duration,
                *output,
            ),
            None => ScenarioRun::overflows(
                ScenarioRun::rate_of(workload, sines@),
                duration,
                output.console,
            ),
        },
{
    let ghost rate = ScenarioRun::rate_of(workload, sines@);
    let config: SimulatorConfig = SimulatorConfig::default();
    let controller: Controller = Controller::new();
    let mut sim_state: SimulatorState = SimulatorState::default();
    let mut target: TargetState = TargetState::default();
    let print_interval: u32 = if duration > 3600 {
        300
    } else if duration > 600 {
        60
    } else {
        10
    };
    let mut points: Vec<DataPoint> = Vec::new();
    let ghost mut history: History = History { states: seq![sim_state], targets: seq![target] };
    let mut t: u32 = 0;
    while t < duration
        invariant
            t <= duration,
            rate == ScenarioRun::rate_of(workload, sines@),
            ScenarioRun::is_config(config),
            ScenarioRun::is_controller(controller),
            controller.limits_ordered(),
            print_interval == ScenarioRun::print_interval(duration),
            points@.len() == t,
            ScenarioRun::went(
                config,
                controller,
                rate,
                duration,
                output.console,
                history,
                points@,
            ),
            history.states.last() == sim_state,
            history.targets.last() == target,
        decreases duration - t,
    {
        let sine: Double = if (t as usize) < sines.len() {
            sines[t as usize]
        } else {
            Double::from_bits(0)
        };
        let incoming_rps: Double = workload.rps_at(t, sine);
        assert(incoming_rps@ == rate(t));
        if !can_step(&config, &sim_state, &target, incoming_rps) {
            return None;
        }
        let printed: bool = output.console && t % print_interval == 0;
        let (next_state, next_target, point): (SimulatorState, TargetState, DataPoint) =
            run_second(&config, &controller, t, sim_state, &target, incoming_rps, printed);
        proof {
            lemma_went_on(
                config,
                controller,
                rate,
                duration,
                output.console,
                history,
                points@,
                next_state,
                next_target,
                point,
            );
            history = History {
                states: history.states.push(next_state),
                targets: history.targets.push(next_target),
            };
        }
        points.push(point);
        sim_state = next_state;
        target = next_target;
        t = t + 1;
    }
    let r: ScenarioRun = ScenarioRun {
        name: String::from_str(name),
        csv_path: csv_path(name, output),
        points,
    };
    assert(ScenarioRun::went(
        config,
        controller,
        rate,
        duration,
        output.console,
        history,
        r.points@,
    ));
    Some(r)
}

/// Replicas on their way to a target are no more than they were, or than the target.
proof fn lemma_replicas_bounded(
    replicas: crate::simulator::Replicas,
    time: nat,
    target: nat,
    ready: u32,
    bound: nat,
)
    requires
        replicas.total() <= bound,
        target <= bound,
    ensures
        replicas.at(time).toward(target, ready).total() <= bound,
{
    let waiting = |r: u32| time < r;
    replicas.ready_times.lemma_filter_len(waiting);
    assert(replicas.at(time).total() == replicas.total());
}

/// In every second of every scenario, at most ten thousand requests wait, at most twenty replicas
/// are there or on their way, and from one to twenty are asked for.
pub proof fn law_scenario_in_bounds(
    config: SimulatorConfig,
    controller: Controller,
    rate: spec_fn(u32) -> Number,
    duration: u32,
    console: bool,
    history: History,
    points: Seq<DataPoint>,
    t: int,
)
    requires
        ScenarioRun::is_config(config),
        ScenarioRun::is_controller(controller),
        ScenarioRun::went(config, controller, rate, duration, console, history, points),
        0 <= t <= points.len(),
    ensures
        ScenarioRun::in_bounds(t, history.states[t], history.targets[t]),
    decreases t,
{
    if t > 0 {
        law_scenario_in_bounds(
            config,
            controller,
            rate,
            duration,
            console,
            history,
            points,
            t - 1,
        );
        let state = history.states[t - 1];
        let target = history.targets[t - 1];
        let point = points[t - 1];
        assert(config.stepped(state, target, rate((t - 1) as u32), history.states[t], point.state));
        lemma_replicas_bounded(
            SimulatorConfig::replicas(state),
            (state.time + 1) as nat,
            target.num_replicas as nat,
            (state.time + 1 + config.replica_warmup_time_s) as u32,
            20,
        );
    }
}

/// The requests that came in some seconds.
pub open spec fn total_incoming(points: Seq<DataPoint>) -> nat
    decreases points.len(),
{
    if points.len() == 0 {
        0
    } else {
        total_incoming(points.drop_last()) + points.last().state.incoming_requests as nat
    }
}

/// The requests that were dropped in some seconds.
pub open spec fn total_dropped(points: Seq<DataPoint>) -> nat
    decreases points.len(),
{
    if points.len() == 0 {
        0
    } else {
        total_dropped(points.drop_last()) + points.last().state.dropped_requests as nat
    }
}

/// Over a whole scenario no request appears out of nothing: those that were dropped, and those
/// that wait in the end, are among those that came.
pub proof fn law_scenario_conserves_requests(
    config: SimulatorConfig,
    controller: Controller,
    rate: spec_fn(u32) -> Number,
    duration: u32,
    console: bool,
    history: History,
    points: Seq<DataPoint>,
    t: int,
)
    requires
        ScenarioRun::went(config, controller, rate, duration, console, history, points),
        0 <= t <= points.len(),
    ensures
        history.states[t].queue + total_dropped(points.take(t)) <= total_incoming(points.take(t)),
    decreases t,
{
    if t > 0 {
        law_scenario_conserves_requests(
            config,
            controller,
            rate,
            duration,
            console,
            history,
            points,
            t - 1,
        );
        assert(points.take(t).drop_last() =~= points.take(t - 1));
        assert(points.take(t).last() == points[t - 1]);
        crate::simulator::law_requests_are_conserved(
            config,
            history.states[t - 1],
            history.targets[t - 1],
            rate((t - 1) as u32),
            history.states[t],
            points[t - 1].state,
        );
    }
}

/// A scenario whose rates are not too high does not overflow.
proof fn lemma_does_not_overflow(rate: spec_fn(u32) -> Number, duration: u32, console: bool)
    requires
        duration <= u32::MAX - 10,
        ScenarioRun::rate_fits(rate, duration),
    ensures
        !ScenarioRun::overflows(rate, duration, console),
{
    assert forall|
        config: SimulatorConfig,
        controller: Controller,
        history: History,
        points: Seq<DataPoint>,
    |
        ScenarioRun::is_config(config) && ScenarioRun::is_controller(controller)
            && #[trigger] ScenarioRun::went(
            config,
            controller,
            rate,
            duration,
            console,
            history,
            points,
        ) && points.len() < duration implies config.step_fits(
        history.states.last(),
        history.targets.last(),
        rate(points.len() as u32),
    ) by {
        law_scenario_in_bounds(
            config,
            controller,
            rate,
            duration,
            console,
            history,
            points,
            points.len() as int,
        );
        assert(rate(points.len() as u32).truncated(u32::MAX as nat) <= u32::MAX - 10000);
        assert(history.states.last().pending_replicas@.len()
            == history.states.last().ready_times().len());
    }
}

/// A scenario whose rates are not too high.
fn run_moderate(
    name: &str,
    workload: WorkloadPattern,
    duration: u32,
    output: &OutputConfig,
) -> (r: ScenarioRun)
    requires
        duration <= u32::MAX - 10,
        ScenarioRun::rate_fits(ScenarioRun::rate_of(workload, Seq::empty()), duration),
    ensures
        r.is_run(name@, ScenarioRun::rate_of(workload, Seq::empty()), duration, *output),
{
    let sines: Vec<Double> = Vec::new();
    assert(sines@ =~= Seq::<Double>::empty());
    proof {
        lemma_does_not_overflow(
            ScenarioRun::rate_of(workload, sines@),
            duration,
            output.console,
        );
    }
    match run_scenario(name, workload, &sines, duration, output) {
        Some(run) => run,
        None => vstd::pervasive::unreached(),
    }
}

/// A steady load.
pub fn scenario_steady_load(output: &OutputConfig) -> (r: ScenarioRun)
    ensures
        r.is_run(
            "Steady Load (200 RPS)"@,
            |t: u32| Number::integer(200),
            120,
            *output,
        ),
{
    let workload: WorkloadPattern = WorkloadPattern::Steady { rps: Double::from_u32(200) };
    proof {
        crate::double::laws::law_integers_truncate(200, u32::MAX as nat);
        assert(ScenarioRun::rate_of(workload, Seq::empty()) =~= (|t: u32| Number::integer(200)));
    }
    run_moderate("Steady Load (200 RPS)", workload, 120, output)
}

/// A load that steps up after a minute.
pub fn scenario_step_increase(output: &OutputConfig) -> (r: ScenarioRun)
    ensures
        r.is_run(
            "Step Increase (50 → 500 RPS at t=60)"@,
            |t: u32|
                if t < 60 {
                    Number::integer(50)
                } else {
                    Number::integer(500)
                },
            180,
            *output,
        ),
{
    let workload: WorkloadPattern = WorkloadPattern::Step {
        base: Double::from_u32(50),
        step_to: Double::from_u32(500),
        step_at: 60,
    };
    proof {
        crate::double::laws::law_integers_truncate(50, u32::MAX as nat);
        crate::double::laws::law_integers_truncate(500, u32::MAX as nat);
        assert(ScenarioRun::rate_of(workload, Seq::empty()) =~= (|t: u32|
            if t < 60 {
                Number::integer(50)
            } else {
                Number::integer(500)
            }));
    }
    run_moderate("Step Increase (50 → 500 RPS at t=60)", workload, 180, output)
}

/// A burst of a minute.
pub fn scenario_burst(output: &OutputConfig) -> (r: ScenarioRun)
    ensures
        r.is_run(
            "Traffic Burst (100 RPS → 800 RPS burst from t=30-90)"@,
            |t: u32|
                if 30 <= t < 90 {
                    Number::integer(800)
                } else {
                    Number::integer(100)
                },
            150,
            *output,
        ),
{
    let workload: WorkloadPattern = WorkloadPattern::Burst {
        base: Double::from_u32(100),
        peak: Double::from_u32(800),
        burst_start: 30,
        burst_end: 90,
    };
    proof {
        crate::double::laws::law_integers_truncate(100, u32::MAX as nat);
        crate::double::laws::law_integers_truncate(800, u32::MAX as nat);
        assert(ScenarioRun::rate_of(workload, Seq::empty()) =~= (|t: u32|
            if 30 <= t < 90 {
                Number::integer(800)
            } else {
                Number::integer(100)
            }));
    }
    run_moderate(
        "Traffic Burst (100 RPS → 800 RPS burst from t=30-90)",
        workload,
        150,
        output,
    )
}

/// An hour, with a step up after half of it.
pub fn scenario_gradual_growth(output: &OutputConfig) -> (r: ScenarioRun)
    ensures
        r.is_run(
            "Gradual Traffic Growth (1 hour, 50 → 1000 RPS)"@,
            |t: u32|
                if t < 1800 {
                    Number::integer(50)
                } else {
                    Number::integer(1000)
                },
            3600,
            *output,
        ),
{
    let workload: WorkloadPattern = WorkloadPattern::Step {
        base: Double::from_u32(50),
        step_to: Double::from_u32(1000),
        step_at: 1800,
    };
    proof {
        crate::double::laws::law_integers_truncate(50, u32::MAX as nat);
        crate::double::laws::law_integers_truncate(1000, u32::MAX as nat);
        assert(ScenarioRun::rate_of(workload, Seq::empty()) =~= (|t: u32|
            if t < 1800 {
                Number::integer(50)
            } else {
                Number::integer(1000)
            }));
    }
    run_moderate("Gradual Traffic Growth (1 hour, 50 → 1000 RPS)", workload, 3600, output)
}

/// Eight hours, with six busy ones after the first.
pub fn scenario_workday(output: &OutputConfig) -> (r: ScenarioRun)
    ensures
        r.is_run(
            "Workday Traffic Pattern (8 hours)"@,
            |t: u32|
                if 3600 <= t < 25200 {
                    Number::integer(500)
                } else {
                    Number::integer(100)
                },
            28800,
            *output,
        ),
{
    let workload: WorkloadPattern = WorkloadPattern::Burst {
        base: Double::from_u32(100),
        peak: Double::from_u32(500),
        burst_start: 3600,
        burst_end: 25200,
    };
    proof {
        crate::double::laws::law_integers_truncate(100, u32::MAX as nat);
        crate::double::laws::law_integers_truncate(500, u32::MAX as nat);
        assert(ScenarioRun::rate_of(workload, Seq::empty()) =~= (|t: u32|
            if 3600 <= t < 25200 {
                Number::integer(500)
            } else {
                Number::integer(100)
            }));
    }
    run_moderate("Workday Traffic Pattern (8 hours)", workload, 28800, output)
}

/// Half an hour, with a sale of ten minutes after the first five.
pub fn scenario_flash_sale(output: &OutputConfig) -> (r: ScenarioRun)
    ensures
        r.is_run(
            "Flash Sale Event (30 minutes)"@,
            |t: u32|
                if 300 <= t < 900 {
                    Number::integer(2000)
                } else {
                    Number::integer(200)
                },
            1800,
            *output,
        ),
{
    let workload: WorkloadPattern = WorkloadPattern::Burst {
        base: Double::from_u32(200),
        peak: Double::from_u32(2000),
        burst_start: 300,
        burst_end: 900,
    };
    proof {
        crate::double::laws::law_integers_truncate(200, u32::MAX as nat);
        crate::double::laws::law_integers_truncate(2000, u32::MAX as nat);
        assert(ScenarioRun::rate_of(workload, Seq::empty()) =~= (|t: u32|
            if 300 <= t < 900 {
                Number::integer(2000)
            } else {
                Number::integer(200)
            }));
    }
    run_moderate("Flash Sale Event (30 minutes)", workload, 1800, output)
}

/// The scenarios that there are.
#[derive(Clone, Copy, Debug, PartialEq, Eq, Structural)]
pub enum Scenario {
    SteadyLoad,
    StepIncrease,
    Burst,
    GradualGrowth,
    Workday,
    FlashSale,
}

impl Scenario {
    pub open spec fn named(name: Seq<char>) -> Option<Scenario> {
        if name == "steady"@ {
            Some(Scenario::SteadyLoad)
        } else if name == "step"@ {
            Some(Scenario::StepIncrease)
        } else if name == "burst"@ {
            Some(Scenario::Burst)
        } else if name == "growth"@ {
            Some(Scenario::GradualGrowth)
        } else if name == "workday"@ {
            Some(Scenario::Workday)
        } else if name == "flash-sale"@ {
            Some(Scenario::FlashSale)
        } else {
            None
        }
    }

    pub open spec fn title(self) -> Seq<char> {
        match self {
            Scenario::SteadyLoad => "Steady Load (200 RPS)"@,
            Scenario::StepIncrease => "Step Increase (50 → 500 RPS at t=60)"@,
            Scenario::Burst => "Traffic Burst (100 RPS → 800 RPS burst from t=30-90)"@,
            Scenario::GradualGrowth => "Gradual Traffic Growth (1 hour, 50 → 1000 RPS)"@,
            Scenario::Workday => "Workday Traffic Pattern (8 hours)"@,
            Scenario::FlashSale => "Flash Sale Event (30 minutes)"@,
        }
    }

    pub open spec fn duration(self) -> u32 {
        match self {
            Scenario::SteadyLoad => 120,
            Scenario::StepIncrease => 180,
            Scenario::Burst => 150,
            Scenario::GradualGrowth => 3600,
            Scenario::Workday => 28800,
            Scenario::FlashSale => 1800,
        }
    }

    /// The rate in each second.
    pub open spec fn rate(self) -> spec_fn(u32) -> Number {
        match self {
            Scenario::SteadyLoad => |t: u32| Number::integer(200),
            Scenario::StepIncrease => |t: u32|
                if t < 60 {
                    Number::integer(50)
                } else {
                    Number::integer(500)
                },
            Scenario::Burst => |t: u32|
                if 30 <= t < 90 {
                    Number::integer(800)
                } else {
                    Number::integer(100)
                },
            Scenario::GradualGrowth => |t: u32|
                if t < 1800 {
                    Number::integer(50)
                } else {
                    Number::integer(1000)
                },
            Scenario::Workday => |t: u32|
                if 3600 <= t < 25200 {
                    Number::integer(500)
                } else {
                    Number::integer(100)
                },
            Scenario::FlashSale => |t: u32|
                if 300 <= t < 900 {
                    Number::integer(2000)
                } else {
                    Number::integer(200)
                },
        }
    }

    /// The scenario of a name.
    pub fn of_name(name: &str) -> (r: Option<Scenario>)
        ensures
            r == Self::named(name@),
    {
        let chars: Vec<char> = Text::chars(name);
        let n: &[char] = chars.as_slice();
        if Text::same(n, "steady") {
            Some(Scenario::SteadyLoad)
        } else if Text::same(n, "step") {
            Some(Scenario::StepIncrease)
        } else if Text::same(n, "burst") {
            Some(Scenario::Burst)
        } else if Text::same(n, "growth") {
            Some(Scenario::GradualGrowth)
        } else if Text::same(n, "workday") {
            Some(Scenario::Workday)
        } else if Text::same(n, "flash-sale") {
            Some(Scenario::FlashSale)
        } else {
            None
        }
    }

    pub fn name(self) -> (r: String)
        ensures
            r@ == self.title(),
    {
        match self {
            Scenario::SteadyLoad => String::from_str("Steady Load (200 RPS)"),
            Scenario::StepIncrease => String::from_str("Step Increase (50 → 500 RPS at t=60)"),
            Scenario::Burst => String::from_str(
                "Traffic Burst (100 RPS → 800 RPS burst from t=30-90)",
            ),
            Scenario::GradualGrowth => String::from_str(
                "Gradual Traffic Growth (1 hour, 50 → 1000 RPS)",
            ),
            Scenario::Workday => String::from_str("Workday Traffic Pattern (8 hours)"),
            Scenario::FlashSale => String::from_str("Flash Sale Event (30 minutes)"),
        }
    }

    /// Runs the scenario.
    pub fn run(self, output: &OutputConfig) -> (r: ScenarioRun)
        ensures
            r.is_run(self.title(), self.rate(), self.duration(), *output),
    {
        match self {
            Scenario::SteadyLoad => scenario_steady_load(output),
            Scenario::StepIncrease => scenario_step_increase(output),
            Scenario::Burst => scenario_burst(output),
            Scenario::GradualGrowth => scenario_gradual_growth(output),
            Scenario::Workday => scenario_workday(output),
            Scenario::FlashSale => scenario_flash_sale(output),
        }
    }
}

/// The figures of a second that are written as text.
#[derive(Clone, Debug)]
pub struct PointTexts {
    pub rps: String,
    pub cpu_per_replica: String,
    pub mem_per_replica: String,
    pub cpu_util: String,
    pub mem_util: String,
    pub latency_ms: String,
}

impl DataPoint {
    /// What the controller did, in words. The new CPU and memory come as text.
    pub open spec fn action_words(self, cpu: Seq<char>, mem: Seq<char>) -> Seq<char> {
        match self.action {
            Some(target) => "Scale → R:"@ + Text::decimal(target.num_replicas as nat) + " CPU:"@
                + cpu + " Mem:"@ + mem,
            None => "-"@,
        }
    }

    /// What the controller did, in words. The new CPU and memory come as text.
    pub fn action_text(&self, cpu: &str, mem: &str) -> (r: String)
        ensures
            r@ == self.action_words(cpu@, mem@),
    {
        match &self.action {
            Some(target) => String::from_str("Scale → R:").concat(
                Text::to_decimal(target.num_replicas as u64).as_str(),
            ).concat(" CPU:").concat(cpu).concat(" Mem:").concat(mem),
            None => String::from_str("-"),
        }
    }

    /// The fields of a row of the table. A comma in the action would end its field.
    pub open spec fn csv_fields(self, texts: PointTexts, action: Seq<char>) -> Seq<Seq<char>> {
        seq![
            Text::decimal(self.state.time_s as nat),
            texts.rps@,
            Text::decimal(self.state.waiting_requests as nat),
            Text::decimal(self.state.num_replicas as nat),
            texts.cpu_per_replica@,
            texts.mem_per_replica@,
            texts.cpu_util@,
            texts.mem_util@,
            texts.latency_ms@,
            Text::replaced(action, ',', ';'),
        ]
    }

    /// A row of the table.
    pub fn csv_row(&self, texts: &PointTexts, action: &str) -> (r: String)
        ensures
            r@ == Text::separated(self.csv_fields(*texts, action@), ","@),
    {
        let time: String = Text::to_decimal(self.state.time_s as u64);
        let queue: String = Text::to_decimal(self.state.waiting_requests as u64);
        let replicas: String = Text::to_decimal(self.state.num_replicas as u64);
        let what: String = Text::replace(action, ',', ';');
        let fields: Vec<&str> = vec![
            time.as_str(),
            texts.rps.as_str(),
            queue.as_str(),
            replicas.as_str(),
            texts.cpu_per_replica.as_str(),
            texts.mem_per_replica.as_str(),
            texts.cpu_util.as_str(),
            texts.mem_util.as_str(),
            texts.latency_ms.as_str(),
            what.as_str(),
        ];
        assert(fields@.map_values(|text: &str| text@) =~= self.csv_fields(*texts, action@));
        Text::separate(&fields, ",")
    }

    pub fn csv_header() -> (r: String)
        ensures
            r@
                == "time_s,rps,queue,replicas,cpu_per_replica,mem_per_replica,cpu_util,mem_util,latency_ms,action"@,
    {
        String::from_str(
            "time_s,rps,queue,replicas,cpu_per_replica,mem_per_replica,cpu_util,mem_util,latency_ms,action",
        )
    }
}

/// The fields of a row are found again by its commas, whatever the controller did, as long as no
/// number is written with one.
pub proof fn law_row_read_back(point: DataPoint, texts: PointTexts, action: Seq<char>)
    requires
        !texts.rps@.contains(','),
        !texts.cpu_per_replica@.contains(','),
        !texts.mem_per_replica@.contains(','),
        !texts.cpu_util@.contains(','),
        !texts.mem_util@.contains(','),
        !texts.latency_ms@.contains(','),
    ensures
        Text::pieces(Text::separated(point.csv_fields(texts, action), ","@), ',')
            == point.csv_fields(texts, action),
{
    let fields = point.csv_fields(texts, action);
    assert forall|i: int, j: int|
        0 <= i < fields.len() && 0 <= j < fields[i].len() implies fields[i][j] != ',' by {
        if fields[i][j] == ',' {
            assert(fields[i].contains(','));
            crate::text::lemma_decimal(point.state.time_s as nat);
            crate::text::lemma_decimal(point.state.waiting_requests as nat);
            crate::text::lemma_decimal(point.state.num_replicas as nat);
            assert(i == 0 || i == 2 || i == 3 || i == 9);
            if i < 9 {
                assert(Text::is_digit(fields[i][j]));
            }
        }
    }
    reveal_strlit(",");
    assert(","@ =~= seq![',']);
    crate::text::law_fields_read_back(fields, ',');
}

/// A file name holds nothing but letters, digits, `_` and `-`.
pub proof fn law_file_name_is_clean(s: Seq<char>, i: int)
    requires
        0 <= i < FileName::cleaned(s).len(),
    ensures
        FileName::is_kept(FileName::cleaned(s)[i]),
    decreases s.len(),
{
    if s.len() > 0 {
        let start = FileName::cleaned(s.drop_last());
        let kept = |c: char| FileName::is_kept(c);
        let end = FileName::replacement(s.last());
        if i < start.len() {
            law_file_name_is_clean(s.drop_last(), i);
        } else {
            end.lemma_filter_pred(kept, i - start.len());
        }
    }
}

} // verus!
