use autoscaler::controller::Controller;
use autoscaler::double::Double;
use autoscaler::scenarios::{
    clean_lowercase, csv_path, run_scenario, sanitize_filename, scenario_burst, scenario_flash_sale,
    scenario_gradual_growth, scenario_steady_load, scenario_step_increase, scenario_workday,
    DataPoint, OutputConfig, PointTexts, Scenario, ScenarioRun,
};
use autoscaler::shared::metrics::Metrics;
use autoscaler::shared::workload::WorkloadPattern;
use autoscaler::simulator::{can_step, step, SimulatorConfig};
use autoscaler::types::{
    Bottleneck, PendingReplica, SimulatorState, SystemState, TargetState,
};

fn double(x: f64) -> Double {
    Double::from_bits(x.to_bits())
}

fn native(x: Double) -> f64 {
    f64::from_bits(x.to_bits())
}

fn quiet() -> OutputConfig {
    OutputConfig { console: false, csv: false, csv_dir: String::from("data") }
}

/// One second as a floating-point model sees it.
#[derive(Clone, Debug, PartialEq)]
struct Second {
    time: u32,
    queue: u32,
    incoming: u32,
    rps: f64,
    dropped: u32,
    replicas: u32,
    cpu: f64,
    mem: f64,
    cpu_util: f64,
    mem_util: f64,
    latency: f64,
    scaled: Option<(u32, f64, f64)>,
}

/// The closed loop in floating point.
fn model(rate: &dyn Fn(u32) -> f64, duration: u32) -> Vec<Second> {
    let mut seconds = Vec::new();
    let (mut queue, mut active, mut pending) = (0u32, 1u32, Vec::<u32>::new());
    let mut target = (1u32, 1.0f64, 2.0f64);
    for t in 0..duration {
        let rps = rate(t);
        let time = t + 1;
        let ready = pending.iter().filter(|r| time >= **r).count() as u32;
        active += ready;
        pending.retain(|r| time < *r);
        let total = active + pending.len() as u32;
        if total < target.0 {
            for _ in 0..target.0 - total {
                pending.push(time + 10);
            }
        } else if total > target.0 {
            if active > target.0 {
                active -= 1;
                pending.clear();
            } else {
                pending.truncate((target.0 - active) as usize);
            }
        }
        let each = target.1 * 100.0;
        let capacity = (active as f64 * each) as u32;
        let incoming = rps as u32;
        queue += incoming;
        queue -= queue.min(capacity);
        let dropped = queue.saturating_sub(10000);
        queue -= dropped;
        let cpu_util = if active > 0 && each > 0.0 {
            (rps / (active as f64 * each)).min(1.0) * 100.0
        } else {
            0.0
        };
        let memory = active as f64 * target.2;
        let mem_util = if memory > 0.0 { (rps * 0.01 / memory).min(1.0) * 100.0 } else { 0.0 };
        let power = active as f64 * target.1 * 100.0;
        let wait = if power > 0.0 { queue as f64 / power } else { 0.0 };
        let latency = 10.0 + wait * 1000.0;
        let mut second = Second {
            time,
            queue,
            incoming,
            rps,
            dropped,
            replicas: active,
            cpu: target.1,
            mem: target.2,
            cpu_util,
            mem_util,
            latency,
            scaled: None,
        };
        if t % 10 == 0 && t > 0 {
            let (high_cpu, high_mem) = (cpu_util > 70.0, mem_util > 70.0);
            let (mut r, mut c, mut m) = (active, target.1, target.2);
            if latency > 50.0 || queue > 100 {
                if high_cpu && high_mem {
                    c = (c * 1.2).min(4.0);
                    m = (m * 1.2).min(8.0);
                    r = (r as f64 * 1.3).ceil() as u32;
                } else if high_cpu {
                    c = (c * 1.3).min(4.0);
                    if c >= 4.0 {
                        r = (r as f64 * 1.2).ceil() as u32;
                    }
                } else if high_mem {
                    m = (m * 1.3).min(8.0);
                    if m >= 8.0 {
                        r = (r as f64 * 1.2).ceil() as u32;
                    }
                } else {
                    r = (r as f64 * 1.5).ceil() as u32;
                }
            } else if cpu_util < 70.0 * 0.3 && mem_util < 70.0 * 0.3 && queue == 0 && r > 1 {
                r = if r <= 5 { r - 1 } else { ((r as f64 * 0.8) as u32).max(1) };
                if c > 0.5 && cpu_util < 20.0 {
                    c = (c * 0.9).max(0.5);
                }
                if m > 1.0 && mem_util < 20.0 {
                    m = (m * 0.9).max(1.0);
                }
            }
            let new = (r.clamp(1, 20), c.clamp(0.5, 4.0), m.clamp(1.0, 8.0));
            if new.0 != target.0
                || (new.1 - target.1).abs() > 0.01
                || (new.2 - target.2).abs() > 0.01
            {
                second.scaled = Some(new);
            }
            target = new;
        }
        seconds.push(second);
    }
    seconds
}

fn seen(point: &DataPoint) -> Second {
    let s = point.state;
    Second {
        time: s.time_s,
        queue: s.waiting_requests,
        incoming: s.incoming_requests,
        rps: native(s.incoming_rps),
        dropped: s.dropped_requests,
        replicas: s.num_replicas,
        cpu: native(s.cpu_per_replica),
        mem: native(s.mem_per_replica),
        cpu_util: native(s.cpu_util),
        mem_util: native(s.mem_util),
        latency: native(point.latency_ms),
        scaled: point
            .action
            .map(|a| (a.num_replicas, native(a.cpu_per_replica), native(a.mem_per_replica))),
    }
}

fn compare(run: &ScenarioRun, rate: &dyn Fn(u32) -> f64, duration: u32) {
    let expected = model(rate, duration);
    assert_eq!(run.points.len(), duration as usize);
    for (point, second) in run.points.iter().zip(expected.iter()) {
        assert_eq!(&seen(point), second);
    }
}

#[test]
fn steady_load_runs_as_modelled() {
    let run = scenario_steady_load(&quiet());
    assert_eq!(run.name, "Steady Load (200 RPS)");
    compare(&run, &|_| 200.0, 120);
}

#[test]
fn step_increase_runs_as_modelled() {
    let run = scenario_step_increase(&quiet());
    assert_eq!(run.name, "Step Increase (50 → 500 RPS at t=60)");
    compare(&run, &|t| if t < 60 { 50.0 } else { 500.0 }, 180);
}

#[test]
fn burst_runs_as_modelled() {
    let run = scenario_burst(&quiet());
    assert_eq!(run.name, "Traffic Burst (100 RPS → 800 RPS burst from t=30-90)");
    compare(&run, &|t| if (30..90).contains(&t) { 800.0 } else { 100.0 }, 150);
}

#[test]
fn gradual_growth_runs_as_modelled() {
    let run = scenario_gradual_growth(&quiet());
    assert_eq!(run.name, "Gradual Traffic Growth (1 hour, 50 → 1000 RPS)");
    compare(&run, &|t| if t < 1800 { 50.0 } else { 1000.0 }, 3600);
}

#[test]
fn workday_runs_as_modelled() {
    let run = scenario_workday(&quiet());
    assert_eq!(run.name, "Workday Traffic Pattern (8 hours)");
    compare(&run, &|t| if (3600..25200).contains(&t) { 500.0 } else { 100.0 }, 28800);
}

#[test]
fn flash_sale_runs_as_modelled() {
    let run = scenario_flash_sale(&quiet());
    assert_eq!(run.name, "Flash Sale Event (30 minutes)");
    compare(&run, &|t| if (300..900).contains(&t) { 2000.0 } else { 200.0 }, 1800);
}

#[test]
fn waves_run_as_modelled() {
    let wave = WorkloadPattern::Wave {
        center: double(300.0),
        amplitude: double(450.0),
        period_s: 77,
    };
    let sine = |t: u32| (2.0 * std::f64::consts::PI * t as f64 / 77.0).sin();
    let sines: Vec<Double> = (0..900).map(|t| double(sine(t))).collect();
    let run = run_scenario("Wave", wave, &sines, 900, &quiet()).unwrap();
    compare(&run, &|t| (300.0 + 450.0 * sine(t)).max(0.0), 900);
}

#[test]
fn very_high_loads_drop_requests() {
    let steady = WorkloadPattern::Steady { rps: double(60000.5) };
    let run = run_scenario("Too much", steady, &Vec::new(), 400, &quiet()).unwrap();
    compare(&run, &|_| 60000.5, 400);
    assert!(run.points.iter().all(|p| p.state.waiting_requests <= 10000));
    assert!(run.points.iter().any(|p| p.state.dropped_requests > 0));
    assert!(run.points.iter().all(|p| p.state.num_replicas <= 20));
    let came: u64 = run.points.iter().map(|p| p.state.incoming_requests as u64).sum();
    let dropped: u64 = run.points.iter().map(|p| p.state.dropped_requests as u64).sum();
    assert!(run.points[399].state.waiting_requests as u64 + dropped <= came);
}

#[test]
fn a_run_ends_where_counters_overflow() {
    let huge = WorkloadPattern::Step { base: double(1.0), step_to: double(1e10), step_at: 3 };
    // The first second of it fills the queue, and the next one overflows it.
    assert!(run_scenario("Huge", huge, &Vec::new(), 4, &quiet()).is_some());
    assert!(run_scenario("Huge", huge, &Vec::new(), 5, &quiet()).is_none());
}

#[test]
fn lines_for_the_console_are_chosen() {
    let output = OutputConfig::default();
    assert!(output.console && !output.csv);
    assert_eq!(output.csv_dir, "data");
    let shown = |run: ScenarioRun| {
        run.points.iter().enumerate().filter(|(_, p)| p.printed).map(|(t, _)| t).collect::<Vec<_>>()
    };
    assert_eq!(shown(scenario_steady_load(&output)), (0..12).map(|i| i * 10).collect::<Vec<_>>());
    assert_eq!(shown(scenario_flash_sale(&output)), (0..30).map(|i| i * 60).collect::<Vec<_>>());
    assert_eq!(shown(scenario_workday(&output)), (0..96).map(|i| i * 300).collect::<Vec<_>>());
    assert!(shown(scenario_steady_load(&quiet())).is_empty());
}

#[test]
fn files_are_named_after_scenarios() {
    let output = OutputConfig { console: false, csv: true, csv_dir: String::from("out") };
    assert_eq!(
        scenario_step_increase(&output).csv_path,
        Some(String::from("out/step_increase_50_to_500_rps_at_t60.csv"))
    );
    assert_eq!(
        scenario_steady_load(&output).csv_path,
        Some(String::from("out/steady_load_200_rps.csv"))
    );
    assert_eq!(scenario_steady_load(&quiet()).csv_path, None);
    assert_eq!(csv_path("A B", &output), Some(String::from("out/a_b.csv")));
    assert_eq!(csv_path("A B", &quiet()), None);
    assert_eq!(sanitize_filename("ABC (x) → Ärger-1!"), "abc_x_to_ärger-1");
    assert_eq!(clean_lowercase("a b→c(d)é*"), "a_btocdé");
}

#[test]
fn scenarios_have_names() {
    let names = ["steady", "step", "burst", "growth", "workday", "flash-sale"];
    let all = [
        Scenario::SteadyLoad,
        Scenario::StepIncrease,
        Scenario::Burst,
        Scenario::GradualGrowth,
        Scenario::Workday,
        Scenario::FlashSale,
    ];
    for (name, scenario) in names.iter().zip(all) {
        assert_eq!(Scenario::of_name(name), Some(scenario));
    }
    assert_eq!(Scenario::of_name("Steady"), None);
    assert_eq!(Scenario::of_name(""), None);
    for scenario in [Scenario::SteadyLoad, Scenario::StepIncrease, Scenario::Burst, Scenario::GradualGrowth, Scenario::FlashSale] {
        assert_eq!(scenario.name(), scenario.run(&quiet()).name);
    }
    assert_eq!(Scenario::Workday.name(), "Workday Traffic Pattern (8 hours)");
    let run = Scenario::Burst.run(&quiet());
    assert_eq!(run.name, "Traffic Burst (100 RPS → 800 RPS burst from t=30-90)");
    assert_eq!(run.points.len(), 150);
}

#[test]
fn rows_hold_all_fields() {
    let run = scenario_step_increase(&quiet());
    let scaled = run.points.iter().find(|p| p.action.is_some()).unwrap();
    let action = scaled.action_text("1.3", "2.0");
    let target = scaled.action.unwrap();
    assert_eq!(action, format!("Scale → R:{} CPU:1.3 Mem:2.0", target.num_replicas));
    let texts = PointTexts {
        rps: String::from("500"),
        cpu_per_replica: String::from("1"),
        mem_per_replica: String::from("2"),
        cpu_util: String::from("100"),
        mem_util: String::from("50"),
        latency_ms: String::from("10"),
    };
    let s = scaled.state;
    assert_eq!(
        scaled.csv_row(&texts, "a,b"),
        format!("{},500,{},{},1,2,100,50,10,a;b", s.time_s, s.waiting_requests, s.num_replicas)
    );
    assert_eq!(run.points[0].action_text("x", "y"), "-");
    let header = DataPoint::csv_header();
    assert_eq!(
        header,
        "time_s,rps,queue,replicas,cpu_per_replica,mem_per_replica,cpu_util,mem_util,latency_ms,action"
    );
    assert_eq!(header.split(',').count(), scaled.csv_row(&texts, "a,b").split(',').count());
}

fn state(active: u32, ready: &[u32]) -> SimulatorState {
    SimulatorState {
        time: 100,
        queue: 0,
        active_replicas: active,
        pending_replicas: ready.iter().map(|r| PendingReplica { ready_at_s: *r }).collect(),
        cpu_per_replica: double(1.0),
        mem_per_replica: double(2.0),
    }
}

fn asked(replicas: u32) -> TargetState {
    TargetState {
        num_replicas: replicas,
        cpu_per_replica: double(1.0),
        mem_per_replica: double(2.0),
    }
}

#[test]
fn replicas_warm_up_before_they_serve() {
    let config = SimulatorConfig::default();
    let mut sim = state(1, &[]);
    let target = asked(3);
    for second in 1..=11 {
        let (next, seen) = step(&config, sim, &target, double(0.0));
        assert_eq!(seen.num_replicas, if second <= 10 { 1 } else { 3 });
        assert_eq!(next.pending_replicas.len(), if second <= 10 { 2 } else { 0 });
        sim = next;
    }
}

#[test]
fn one_replica_is_stopped_each_second() {
    let config = SimulatorConfig::default();
    let mut sim = state(5, &[105, 109]);
    for expected in [4, 3, 2, 2] {
        let (next, _) = step(&config, sim, &asked(2), double(0.0));
        assert_eq!(next.active_replicas, expected);
        assert!(next.pending_replicas.is_empty());
        sim = next;
    }
}

#[test]
fn the_last_pending_replicas_are_given_up_first() {
    let config = SimulatorConfig::default();
    let (next, _) = step(&config, state(2, &[105, 107, 109]), &asked(3), double(0.0));
    let ready: Vec<u32> = next.pending_replicas.iter().map(|p| p.ready_at_s).collect();
    assert_eq!(ready, vec![105]);
    assert_eq!(next.active_replicas, 2);
}

#[test]
fn a_ready_replica_becomes_active() {
    let config = SimulatorConfig::default();
    let (next, seen) = step(&config, state(1, &[101, 102]), &asked(3), double(150.0));
    assert_eq!(next.active_replicas, 2);
    assert_eq!(next.pending_replicas.len(), 1);
    assert_eq!(native(seen.cpu_util), 75.0);
    assert_eq!(native(seen.mem_util), 37.5);
}

#[test]
fn requests_are_served_queued_or_dropped() {
    let config = SimulatorConfig {
        requests_per_cpu_per_sec: double(10.0),
        memory_per_request: double(0.01),
        replica_warmup_time_s: 10,
        max_queue_size: 50,
    };
    let mut sim = state(1, &[]);
    sim.queue = 20;
    let (next, seen) = step(&config, sim, &asked(1), double(65.9));
    assert_eq!(seen.incoming_requests, 65);
    assert_eq!(next.queue, 50);
    assert_eq!(seen.dropped_requests, 25);
    assert_eq!(native(seen.cpu_util), 100.0);
}

#[test]
fn a_second_that_does_not_fit_is_known_before() {
    let config = SimulatorConfig::default();
    let mut sim = state(1, &[]);
    assert!(can_step(&config, &sim, &asked(2), double(4e9)));
    sim.queue = 1_000_000_000;
    assert!(!can_step(&config, &sim, &asked(2), double(4e9)));
    sim.queue = 0;
    sim.time = u32::MAX - 10;
    assert!(can_step(&config, &sim, &asked(1), double(0.0)));
    assert!(!can_step(&config, &sim, &asked(2), double(0.0)));
    sim.time = u32::MAX;
    assert!(!can_step(&config, &sim, &asked(1), double(0.0)));
}

fn observed(replicas: u32, queue: u32, cpu_util: f64, mem_util: f64) -> SystemState {
    let mut s = SystemState::default();
    s.num_replicas = replicas;
    s.waiting_requests = queue;
    s.cpu_per_replica = double(1.0);
    s.mem_per_replica = double(2.0);
    s.cpu_util = double(cpu_util);
    s.mem_util = double(mem_util);
    s
}

fn latency(ms: f64) -> Metrics {
    Metrics { avg_latency_ms: double(ms), p99_latency_ms: double(ms), queue_depth: 0 }
}

#[test]
fn the_simulated_controller_diagnoses() {
    let c = Controller::new();
    let cases = [
        (observed(2, 101, 80.0, 80.0), 10.0, Bottleneck::Mixed),
        (observed(2, 101, 80.0, 10.0), 10.0, Bottleneck::Cpu),
        (observed(2, 101, 10.0, 80.0), 10.0, Bottleneck::Memory),
        (observed(2, 0, 10.0, 10.0), 50.1, Bottleneck::Load),
        (observed(2, 100, 80.0, 10.0), 50.0, Bottleneck::Unknown),
        (observed(2, 0, 10.0, 10.0), 10.0, Bottleneck::Overprovisioned),
        (observed(1, 0, 10.0, 10.0), 10.0, Bottleneck::Stable),
        (observed(2, 1, 10.0, 10.0), 10.0, Bottleneck::Stable),
        (observed(2, 0, 70.0, 70.0), 10.0, Bottleneck::Stable),
        (observed(2, 0, 21.0, 5.0), 10.0, Bottleneck::Stable),
    ];
    for (s, ms, expected) in cases {
        assert_eq!(c.diagnose(&s, &latency(ms)), expected);
    }
}

#[test]
fn the_simulated_controller_scales() {
    let c = Controller::new();
    let scale = |replicas: u32, cpu: f64, mem: f64, bottleneck: Bottleneck| {
        let mut s = observed(replicas, 0, 10.0, 10.0);
        s.cpu_per_replica = double(cpu);
        s.mem_per_replica = double(mem);
        let t = c.scale(&s, &bottleneck);
        (t.num_replicas, native(t.cpu_per_replica), native(t.mem_per_replica))
    };
    assert_eq!(scale(5, 1.0, 2.0, Bottleneck::Load), (8, 1.0, 2.0));
    assert_eq!(scale(15, 1.0, 2.0, Bottleneck::Load), (20, 1.0, 2.0));
    assert_eq!(scale(5, 1.0, 2.0, Bottleneck::Cpu), (5, 1.3, 2.0));
    assert_eq!(scale(5, 3.5, 2.0, Bottleneck::Cpu), (6, 4.0, 2.0));
    assert_eq!(scale(5, 1.0, 2.0, Bottleneck::Memory), (5, 1.0, 2.6));
    assert_eq!(scale(6, 1.0, 7.0, Bottleneck::Memory), (8, 1.0, 8.0));
    assert_eq!(scale(5, 1.0, 2.0, Bottleneck::Mixed), (7, 1.2, 2.4));
    assert_eq!(scale(5, 1.0, 2.0, Bottleneck::Overprovisioned), (4, 0.9, 1.8));
    assert_eq!(scale(11, 0.5, 1.0, Bottleneck::Overprovisioned), (8, 0.5, 1.0));
    assert_eq!(scale(1, 0.52, 1.05, Bottleneck::Overprovisioned), (1, 0.5, 1.0));
    assert_eq!(scale(5, 1.0, 2.0, Bottleneck::Stable), (5, 1.0, 2.0));
    assert_eq!(scale(30, 9.0, 0.5, Bottleneck::Unknown), (20, 4.0, 1.0));
}

#[test]
fn latency_grows_with_the_queue() {
    let m = Metrics::from_state(&observed(2, 0, 10.0, 10.0));
    assert_eq!(native(m.avg_latency_ms), 10.0);
    assert_eq!(native(m.p99_latency_ms), 10.0);
    let m = Metrics::from_state(&observed(2, 50, 10.0, 10.0));
    assert_eq!(native(m.avg_latency_ms), 10.0 + 50.0 / 200.0 * 1000.0);
    assert_eq!(native(m.p99_latency_ms), 2.0 * (10.0 + 50.0 / 200.0 * 1000.0));
    assert_eq!(m.queue_depth, 50);
    let m = Metrics::from_state(&observed(0, 50, 10.0, 10.0));
    assert_eq!(native(m.avg_latency_ms), 10.0);
}
