use autoscaler::double::Double;
use autoscaler::shared::controller::Controller;
use autoscaler::shared::metrics::Metrics;
use autoscaler::shared::types::{Bottleneck, SystemState, TargetState};
use autoscaler::shared::workload::WorkloadPattern;

fn double(x: f64) -> Double {
    Double::from_bits(x.to_bits())
}

fn native(x: Double) -> f64 {
    f64::from_bits(x.to_bits())
}

fn observed(replicas: u32, queue: u32, cpu_util: f64, mem_util: f64) -> SystemState {
    let mut s = SystemState::default();
    s.num_replicas = replicas;
    s.waiting_requests = queue;
    s.cpu_per_replica = double(1.0);
    s.mem_per_replica = double(2.0);
    s.cpu_util = double(cpu_util);
    s.mem_util = double(mem_util);
    s
}

fn latency(ms: f64) -> Metrics {
    Metrics { avg_latency_ms: double(ms), p99_latency_ms: double(ms), queue_depth: 0 }
}

fn rates(pattern: WorkloadPattern, times: &[u32]) -> Vec<f64> {
    times
        .iter()
        .map(|t| {
            let sine = match pattern.angle_at(*t) {
                Some(angle) => native(angle).sin(),
                None => 0.0,
            };
            native(pattern.rps_at(*t, double(sine)))
        })
        .collect()
}

#[test]
fn patterns_have_their_rates() {
    let (base, peak) = (double(10.0), double(100.0));
    let steady = WorkloadPattern::Steady { rps: base };
    assert_eq!(rates(steady, &[0, 1000]), vec![10.0, 10.0]);
    let step = WorkloadPattern::Step { base, step_to: peak, step_at: 5 };
    assert_eq!(rates(step, &[4, 5]), vec![10.0, 100.0]);
    let burst = WorkloadPattern::Burst { base, peak, burst_start: 3, burst_end: 6 };
    assert_eq!(rates(burst, &[2, 3, 5, 6]), vec![10.0, 100.0, 100.0, 10.0]);
    let ramp = WorkloadPattern::Ramp { base, peak, ramp_duration: 7 };
    assert_eq!(rates(ramp, &[0, 3, 7, 99]), vec![10.0, 10.0 + 90.0 * (3.0 / 7.0), 100.0, 100.0]);
    let at_once = WorkloadPattern::Ramp { base, peak, ramp_duration: 0 };
    assert_eq!(rates(at_once, &[0]), vec![100.0]);
    let double_burst = WorkloadPattern::DoubleBurst {
        base,
        peak,
        burst1_start: 1,
        burst1_end: 2,
        burst2_start: 4,
        burst2_end: 5,
    };
    assert_eq!(rates(double_burst, &[0, 1, 2, 4, 5]), vec![10.0, 100.0, 10.0, 100.0, 10.0]);
}

#[test]
fn a_sawtooth_repeats() {
    let saw = WorkloadPattern::Sawtooth { base: double(5.0), peak: double(50.0), period: 9 };
    assert_eq!(rates(saw, &[0, 4]), vec![5.0, 5.0 + 45.0 * (4.0 / 9.0)]);
    for t in 0..50 {
        assert_eq!(rates(saw, &[t]), rates(saw, &[t + 9]));
    }
    let flat = WorkloadPattern::Sawtooth { base: double(5.0), peak: double(50.0), period: 0 };
    assert_eq!(rates(flat, &[3]), vec![5.0]);
    assert!(saw.angle_at(3).is_none());
}

#[test]
fn slopes_do_not_fall() {
    for (base, peak, span) in [(5.0, 50.0, 9u32), (-0.1, 0.3, 1000), (1e300, 1.1e300, 7), (2.0, 2.0, 3)] {
        let saw = WorkloadPattern::Sawtooth { base: double(base), peak: double(peak), period: span };
        let ramp =
            WorkloadPattern::Ramp { base: double(base), peak: double(peak), ramp_duration: span };
        assert_eq!(rates(ramp, &[0]), vec![base]);
        for t in 0..3 * span {
            if t % span == 0 {
                assert_eq!(rates(saw, &[t]), vec![base]);
            }
            if t % span + 1 < span {
                assert!(rates(saw, &[t]) <= rates(saw, &[t + 1]));
            }
            if t + 1 < span {
                assert!(rates(ramp, &[t]) <= rates(ramp, &[t + 1]));
            }
        }
    }
}

#[test]
fn a_wave_follows_the_sine_and_is_cut_off() {
    let wave =
        WorkloadPattern::Wave { center: double(40.0), amplitude: double(100.0), period_s: 40 };
    for t in 0..200u32 {
        let theta = 2.0 * std::f64::consts::PI * t as f64 / 40.0;
        assert_eq!(native(wave.angle_at(t).unwrap()), theta);
        assert_eq!(rates(wave, &[t]), vec![(40.0 + 100.0 * theta.sin()).max(0.0)]);
    }
    assert_eq!(rates(wave, &[30]), vec![0.0]);
    let still =
        WorkloadPattern::Wave { center: double(-3.0), amplitude: double(1.0), period_s: 0 };
    assert_eq!(rates(still, &[7]), vec![0.0]);
    let flat = WorkloadPattern::Wave { center: double(3.5), amplitude: double(1.0), period_s: 0 };
    assert_eq!(rates(flat, &[7]), vec![3.5]);
    assert!(still.angle_at(7).is_none());
}

#[test]
fn targets_start_small() {
    let t = TargetState::default();
    assert_eq!((t.num_replicas, native(t.cpu_per_replica), native(t.mem_per_replica)), (1, 1.0, 2.0));
    let s = SystemState::default();
    assert_eq!((s.time_s, s.num_replicas, native(s.cpu_util)), (0, 0, 0.0));
}

#[test]
fn targets_differ_by_more_than_a_hundredth() {
    let a = TargetState::default();
    let mut b = a;
    assert!(!a.is_different(&b));
    b.cpu_per_replica = double(1.01);
    // The difference is a little over a hundredth in binary.
    assert_eq!(a.is_different(&b), (1.01f64 - 1.0).abs() > 0.01);
    b.cpu_per_replica = double(1.005);
    assert!(!a.is_different(&b));
    b.cpu_per_replica = double(0.9);
    assert!(a.is_different(&b));
    let mut c = a;
    c.num_replicas = 2;
    assert!(a.is_different(&c));
    assert!(!TargetState::is_apart(double(f64::NAN), double(1.0)));
}

#[test]
fn the_controller_diagnoses_by_the_queue() {
    let c = Controller::new();
    let cases = [
        (observed(2, 1, 80.0, 80.0), 10.0, Bottleneck::Mixed),
        (observed(2, 1, 80.0, 10.0), 10.0, Bottleneck::Cpu),
        (observed(2, 1, 10.0, 80.0), 10.0, Bottleneck::Memory),
        (observed(2, 1, 5.0, 5.0), 10.0, Bottleneck::Load),
        (observed(2, 0, 10.5, 5.0), 401.0, Bottleneck::Load),
        (observed(2, 0, 10.0, 5.0), 401.0, Bottleneck::Overprovisioned),
        (observed(2, 0, 75.0, 5.0), 400.0, Bottleneck::Unknown),
        (observed(2, 0, 75.0, 5.0), 400.5, Bottleneck::Cpu),
        (observed(2, 0, 5.0, 5.0), 10.0, Bottleneck::Overprovisioned),
        (observed(1, 0, 5.0, 5.0), 10.0, Bottleneck::Stable),
        (observed(2, 0, 50.0, 5.0), 10.0, Bottleneck::Stable),
    ];
    for (s, ms, expected) in cases {
        assert_eq!(c.diagnose(&s, &latency(ms)), expected, "{:?}", s);
    }
}

#[test]
fn replicas_are_sized_by_demand() {
    let c = Controller::new();
    let demand = |replicas, queue, cpu_util| c.replicas_for_demand(&observed(replicas, queue, cpu_util, 0.0));
    // Two replicas have 64 slots: half of them are in use.
    assert_eq!(demand(2, 0, 50.0), 2);
    assert_eq!(demand(2, 33, 50.0), 3);
    assert_eq!(demand(2, 64, 50.0), 3);
    assert_eq!(demand(2, 65, 50.0), 4);
    assert_eq!(demand(2, 1000, 50.0), 6);
    assert_eq!(demand(0, 0, 0.0), 0);
    assert_eq!(demand(0, 10, 0.0), 1);
    assert_eq!(demand(3, 0, 0.0), 3);
}

#[test]
fn the_controller_scales_by_demand() {
    let c = Controller::new();
    let decide = |s: SystemState, ms: f64| {
        assert!(c.can_decide(&s, &latency(ms)));
        let t = c.decide(&s, &latency(ms));
        (t.num_replicas, native(t.cpu_per_replica), native(t.mem_per_replica))
    };
    assert_eq!(decide(observed(2, 200, 50.0, 10.0), 10.0), (6, 1.0, 2.0));
    assert_eq!(decide(observed(2, 10, 80.0, 10.0), 10.0), (2, 1.3, 2.0));
    assert_eq!(decide(observed(2, 100, 80.0, 10.0), 10.0), (5, 1.3, 2.0));
    assert_eq!(decide(observed(2, 100, 10.0, 80.0), 10.0), (4, 1.0, 2.6));
    assert_eq!(decide(observed(2, 100, 80.0, 80.0), 10.0), (5, 1.2, 2.4));
    assert_eq!(decide(observed(10, 5000, 100.0, 80.0), 10.0), (20, 1.2, 2.4));
    assert_eq!(decide(observed(10, 0, 5.0, 5.0), 10.0), (8, 0.9, 1.8));
    assert_eq!(decide(observed(3, 0, 50.0, 50.0), 10.0), (3, 1.0, 2.0));
}

#[test]
fn emergencies_are_long_queues() {
    let c = Controller::new();
    assert!(!c.is_emergency(&observed(1, 20, 0.0, 0.0)));
    assert!(c.is_emergency(&observed(1, 21, 0.0, 0.0)));
}

#[test]
fn decisions_that_do_not_fit_are_known_before() {
    let c = Controller::new();
    assert!(!c.can_decide(&observed(200_000_000, 1, 10.0, 0.0), &latency(1.0)));
    assert!(!c.can_decide(&observed(100, u32::MAX, 100.0, 0.0), &latency(1.0)));
    assert!(c.can_decide(&observed(200_000_000, 0, 5.0, 5.0), &latency(1.0)));
}
