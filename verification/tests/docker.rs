use autoscaler::docker::controller::{
    CpuTicks, CsvOutput, DockerController, Policy, SummaryTexts, WorkerReport,
};
use autoscaler::docker::executor::{
    ContainerLaunch, ContainerStep, Docker, DockerExecutor, DockerWorkerInfo, PortProbe,
    PORT_ATTEMPTS,
};
use autoscaler::double::Double;
use autoscaler::http::controller::Decision;
use autoscaler::http::instance::InstanceMetrics;
use autoscaler::http::proxy::BackendPool;
use autoscaler::shared::types::TargetState;

fn double(x: f64) -> Double {
    Double::from_bits(x.to_bits())
}

fn native(x: Double) -> f64 {
    f64::from_bits(x.to_bits())
}

fn strings(list: &[&str]) -> Vec<String> {
    list.iter().map(|s| String::from(*s)).collect()
}

// Containers

#[test]
fn containers_are_ensured() {
    let mut e = DockerExecutor::new("image", double(1.0), double(2.0), double(1.0));
    let mut pool = BackendPool::new();
    let mut done = Vec::new();
    for target in [2usize, 0, 1] {
        loop {
            match e.ensure_workers(target) {
                ContainerStep::Done => break,
                ContainerStep::Start(launch) => {
                    assert_eq!(launch.worker_threads, 1);
                    done.push(format!("+{}", launch.name));
                    e.container_started(format!("http://h:{}", done.len()), &mut pool);
                }
                ContainerStep::Stop(name) => {
                    done.push(format!("-{}", name));
                    e.container_stopped(&mut pool);
                }
            }
            let urls: Vec<String> = pool.entries.iter().map(|b| b.url.clone()).collect();
            let own: Vec<String> = e.worker_states().iter().map(|w| w.url.clone()).collect();
            assert_eq!(urls, own);
        }
    }
    assert_eq!(
        done,
        strings(&[
            "+autoscaler-worker-0",
            "+autoscaler-worker-1",
            "-autoscaler-worker-1",
            "-autoscaler-worker-0",
            "+autoscaler-worker-0",
        ])
    );
    let states = e.worker_states();
    assert_eq!((states[0].name.as_str(), native(states[0].cpu_quota)), ("autoscaler-worker-0", 1.0));
    assert_eq!(states[0].url, "http://h:5");
}

#[test]
fn quotas_are_updated_in_place() {
    let mut e = DockerExecutor::new("image", double(1.0), double(2.0), double(1.0));
    let mut pool = BackendPool::new();
    e.container_started(String::from("a"), &mut pool);
    e.container_started(String::from("b"), &mut pool);
    assert_eq!(e.apply_target(3, double(1.005), double(2.0)), (vec![], 3));
    let (names, count) = e.apply_target(4, double(2.5), double(2.0));
    assert_eq!(names, strings(&["autoscaler-worker-0", "autoscaler-worker-1"]));
    assert_eq!(count, 4);
    match e.ensure_workers(3) {
        ContainerStep::Start(launch) => assert_eq!(launch.worker_threads, 3),
        _ => panic!("a start is due"),
    }
    assert_eq!(e.shut_down(), strings(&["autoscaler-worker-1", "autoscaler-worker-0"]));
    assert!(e.worker_states().is_empty());
}

#[test]
fn a_worker_has_a_url() {
    let worker =
        DockerWorkerInfo { name: String::from("n"), url: String::from("http://127.0.0.1:49234") };
    assert_eq!(worker.url(), "http://127.0.0.1:49234");
}

#[test]
fn commands_are_written() {
    assert_eq!(Docker::inspect_network(), strings(&["network", "inspect", "autoscaler-net"]));
    assert_eq!(
        Docker::create_network(),
        strings(&["network", "create", "--driver", "bridge", "autoscaler-net"])
    );
    assert_eq!(
        Docker::list_stale(),
        strings(&["ps", "-a", "-q", "--filter", "name=autoscaler-worker"])
    );
    assert_eq!(Docker::remove_stale(" \n"), None);
    assert_eq!(Docker::remove_stale("ab\ncd\n"), Some(strings(&["rm", "-f", "ab", "cd"])));
    assert_eq!(Docker::remove_listed(b"ab\ncd\n"), Some(strings(&["rm", "-f", "ab", "cd"])));
    assert_eq!(Docker::remove_listed(b"\xff"), Some(strings(&["rm", "-f", "\u{fffd}"])));
    assert_eq!(Docker::remove_listed(b""), None);
    assert_eq!(Docker::failure("docker run failed", b"no \xffimage\n"), "docker run failed: no \u{fffd}image\n");
    assert_eq!(Docker::remove_old("n"), strings(&["rm", "-f", "n"]));
    assert_eq!(Docker::update_cpus("n", "1.300"), strings(&["update", "--cpus", "1.300", "n"]));
    assert_eq!(Docker::stop("n"), strings(&["stop", "--time", "5", "n"]));
    assert_eq!(Docker::remove("n"), strings(&["rm", "n"]));
    assert_eq!(
        Docker::inspect_port("n"),
        strings(&[
            "inspect",
            "--format",
            "{{(index (index .NetworkSettings.Ports \"8080/tcp\") 0).HostPort}}",
            "n",
        ])
    );
}

#[test]
fn a_container_is_started() {
    let launch = ContainerLaunch { name: String::from("n"), worker_threads: 3 };
    assert_eq!(
        Docker::run(&launch, "img", double(0.5), "1.300", "1.000", "0.500"),
        strings(&[
            "run", "-d", "--name", "n", "--network", "autoscaler-net", "--publish", "0:8080",
            "--cpus", "1.300", "--memory", "256m", "--memory-swap", "256m", "--restart", "no",
            "img", "service", "--port", "8080", "--bind-addr", "0.0.0.0", "--cpu-factor",
            "1.000", "--mem-factor", "0.500", "--max-concurrency", "32", "--worker-threads", "3",
        ])
    );
    assert_eq!(Docker::memory(double(0.1)), "128m");
    assert_eq!(Docker::memory(double(2.0)), "1024m");
    assert_eq!(Docker::memory(double(f64::NAN)), "128m");
}

#[test]
fn ports_are_probed() {
    assert_eq!(Docker::host_url(" 49234\n"), Some(String::from("http://127.0.0.1:49234")));
    for answer in ["", " \n", "<no value>", "65536", "-1", "80a"] {
        assert_eq!(Docker::host_url(answer), None);
    }
    match PortProbe::after(0, Some(String::from("80"))) {
        PortProbe::Found(url) => assert_eq!(url, "http://127.0.0.1:80"),
        _ => panic!("the port is there"),
    }
    for attempt in 0..PORT_ATTEMPTS {
        let delay = 300 * (attempt + 1);
        match PortProbe::after(attempt, Some(String::from("<no value>"))) {
            PortProbe::Again { delay_ms } => {
                assert!(attempt < 7);
                assert_eq!(delay_ms, delay);
            }
            PortProbe::GiveUp { delay_ms } => {
                assert_eq!(attempt, 7);
                assert_eq!(delay_ms, delay);
            }
            PortProbe::Found(_) => panic!("there is no port"),
        }
    }
    assert!(matches!(PortProbe::after_output(2, true, b"81\n"), PortProbe::Found(url) if url == "http://127.0.0.1:81"));
    assert!(matches!(PortProbe::after_output(2, false, b"81\n"), PortProbe::Again { delay_ms: 900 }));
    assert!(matches!(PortProbe::after_output(7, true, b"8\xff"), PortProbe::GiveUp { delay_ms: 2400 }));
    assert!(matches!(PortProbe::after(7, None), PortProbe::GiveUp { delay_ms: 2400 }));
}

// Control

fn report(name: &str, total: u64, queue: usize, ticks: u64, rss_kb: u64) -> WorkerReport {
    WorkerReport {
        name: String::from(name),
        cpu_quota: double(1.0),
        metrics: InstanceMetrics {
            total_requests: total,
            errors: 2,
            avg_latency_ms: double(10.0),
            max_concurrency: 32,
            active_count: 16,
            queue_depth: queue,
            os_cpu_ticks: ticks,
            rss_kb,
        },
    }
}

#[test]
fn ticks_are_kept_for_each_worker() {
    let mut ticks = CpuTicks::new();
    assert_eq!(ticks.get("a"), None);
    assert_eq!(ticks.since("a", 5, 5), 0);
    assert_eq!(ticks.since("a", 5, 0), 5);
    ticks.insert("a", 5);
    ticks.insert("b", 6);
    ticks.insert("a", 9);
    assert_eq!((ticks.get("a"), ticks.get("b"), ticks.get("c")), (Some(9), Some(6), None));
    assert_eq!(ticks.since("a", 12, 0), 3);
    assert_eq!(ticks.since("a", 2, 0), 0);
}

#[test]
fn seconds_are_observed() {
    let mut c = DockerController::new(Policy::Unified, 1);
    let first = c.observe(0, 2, &vec![report("a", 10, 0, 500, 1024), report("b", 5, 1, 7, 512)]);
    let seen = first.unwrap();
    assert_eq!((seen.delta, seen.total.total_requests, seen.total.errors), (15, 15, 4));
    assert_eq!((seen.total.os_cpu_ticks, seen.total.rss_kb), (0, 1536));
    assert_eq!(seen.state.num_replicas, 2);
    assert_eq!(native(seen.state.cpu_util), 50.0);
    assert_eq!(native(CsvOutput::megabytes(seen.total.rss_kb)), 1.5);
    let next = c.observe(1, 2, &vec![report("a", 30, 0, 540, 1024), report("b", 9, 1, 3, 512)]);
    let seen = next.unwrap();
    assert_eq!((seen.delta, seen.total.os_cpu_ticks), (24, 40));
    // What was reported is current.
    assert_eq!(c.ticks.since("a", 540, 0), 0);
    assert_eq!(c.ticks.since("b", 3, 0), 0);
    let fewer = c.observe(2, 1, &vec![report("a", 20, 0, 540, 1024)]).unwrap();
    assert_eq!(fewer.delta, 0);
    let over = vec![report("a", u64::MAX, 0, 0, 0), report("b", 1, 0, 0, 0)];
    assert!(c.observe(3, 2, &over).is_none());
    let over = vec![report("a", 0, 0, 0, u64::MAX), report("b", 0, 0, 0, 1)];
    assert!(c.observe(3, 2, &over).is_none());
}

#[test]
fn decisions_come_at_intervals_and_in_emergencies() {
    let mut c = DockerController::new(Policy::Unified, 1);
    let mut decide = |t: u32, queue: usize| {
        let seen = c.observe(t, 1, &vec![report("a", 0, queue, 0, 0)]).unwrap();
        assert!(c.controller.can_decide(&seen.state, &seen.metrics));
        (c.is_emergency(t, &seen.state), c.decide(t, 10, &seen.state, &seen.metrics))
    };
    assert!(decide(0, 0).1.is_none());
    assert!(decide(2, 50).1.is_none());
    let (emergency, decision) = decide(3, 50);
    assert!(emergency);
    let decision = decision.unwrap();
    assert!(decision.apply);
    assert_eq!((decision.previous.num_replicas, decision.target.num_replicas), (1, 3));
    assert!(decide(5, 50).1.is_none());
    assert!(decide(6, 50).1.is_some());
    assert!(decide(9, 20).1.is_none());
    let (emergency, decision) = decide(10, 0);
    assert!(!emergency);
    assert!(decision.is_some());
}

#[test]
fn policies_lock_an_axis() {
    assert_eq!(Policy::of_name("hpa-only"), Policy::HpaOnly);
    assert_eq!(Policy::of_name("vpa-only"), Policy::VpaOnly);
    assert_eq!(Policy::of_name("unified"), Policy::Unified);
    assert_eq!(Policy::of_name("anything"), Policy::Unified);
    let decide = |policy| {
        let mut c = DockerController::new(policy, 1);
        let mut busy = report("a", 0, 5, 0, 0);
        busy.metrics.active_count = 32;
        busy.metrics.queue_depth = 40;
        busy.metrics.max_concurrency = 40;
        let seen = c.observe(10, 1, &vec![busy]).unwrap();
        let t = c.decide(10, 10, &seen.state, &seen.metrics).unwrap().target;
        (t.num_replicas, native(t.cpu_per_replica), native(t.mem_per_replica))
    };
    assert_eq!(decide(Policy::Unified), (3, 1.2, 2.4));
    assert_eq!(decide(Policy::HpaOnly), (3, 1.0, 2.4));
    assert_eq!(decide(Policy::VpaOnly), (1, 1.2, 2.4));
}

#[test]
fn vertical_scaling_keeps_three_workers() {
    let mut c = DockerController::new(Policy::VpaOnly, 3);
    assert_eq!(c.target.num_replicas, 3);
    assert_eq!(DockerController::new(Policy::VpaOnly, 0).target.num_replicas, 1);
    assert_eq!(DockerController::new(Policy::Unified, 3).target.num_replicas, 1);
    assert_eq!(DockerController::new(Policy::HpaOnly, 3).target.num_replicas, 1);
    let mut e = DockerExecutor::new("image", double(1.0), double(1.0), double(1.0));
    let mut pool = BackendPool::new();
    for url in ["a", "b", "c"] {
        e.container_started(String::from(url), &mut pool);
    }
    let mut applied = 0;
    for t in 0..200 {
        let mut reports = vec![
            report("autoscaler-worker-0", 0, 40, 0, 0),
            report("autoscaler-worker-1", 0, 40, 0, 0),
            report("autoscaler-worker-2", 0, 40, 0, 0),
        ];
        for r in reports.iter_mut() {
            // A rush, then nothing at all.
            r.metrics.active_count = if t < 100 { 32 } else { 0 };
            r.metrics.queue_depth = if t < 100 { 40 } else { 0 };
        }
        let seen = c.observe(t, 3, &reports).unwrap();
        if let Some(d) = c.decide(t, 10, &seen.state, &seen.metrics) {
            assert_eq!((d.previous.num_replicas, d.target.num_replicas), (3, 3));
            if d.apply {
                applied += 1;
                let (_, count) = e.apply_target(
                    d.target.num_replicas,
                    d.target.cpu_per_replica,
                    d.target.mem_per_replica,
                );
                assert!(matches!(e.ensure_workers(count), ContainerStep::Done));
            }
        }
    }
    assert!(applied > 2);
}

fn target(replicas: u32, cpu: f64) -> TargetState {
    TargetState {
        num_replicas: replicas,
        cpu_per_replica: double(cpu),
        mem_per_replica: double(2.0),
    }
}

#[test]
fn events_are_written() {
    let event = |from: TargetState, to: TargetState| {
        let decision =
            Decision { previous: from, target: to, apply: from.is_different(&to) };
        DockerController::scale_event(&Some(decision), "X", "Y")
    };
    assert_eq!(DockerController::scale_event(&None, "X", "Y"), "none");
    assert_eq!(event(target(1, 1.0), target(1, 1.0)), "none");
    assert_eq!(event(target(1, 1.0), target(3, 1.0)), "scale_out:1→3");
    assert_eq!(event(target(3, 1.0), target(2, 1.0)), "scale_in:3→2");
    assert_eq!(event(target(1, 1.0), target(1, 1.3)), "cpu_up:X→Y");
    assert_eq!(event(target(1, 1.0), target(1, 0.9)), "cpu_down:X→Y");
    assert_eq!(event(target(1, 1.0), target(2, 1.3)), "scale_out:1→2|cpu_up:X→Y");
}

#[test]
fn tables_are_written() {
    assert_eq!(CsvOutput::summary_path("data", 17), "data/docker_ctl_17_summary.csv");
    assert_eq!(CsvOutput::workers_path("data/", 17), "data/docker_ctl_17_workers.csv");
    let texts = SummaryTexts {
        rps: String::from("1.00"),
        latency_ms: String::from("2.00"),
        cpu_util_pct: String::from("3.0"),
        cpu_per_worker: String::from("4.000"),
        os_cpu_pct_total: String::from("5.0"),
        rss_mb_total: String::from("6.0"),
    };
    let one = report("a", 10, 7, 500, 1024);
    let row = CsvOutput::summary_row(9, 2, &one.metrics, &texts, "none");
    assert_eq!(row, "9,2,1.00,16,32,7,2.00,3.0,4.000,2,5.0,6.0,none");
    let header = CsvOutput::summary_header();
    assert_eq!(
        header,
        "t_s,num_workers,rps,active_total,capacity_total,queued_total,avg_latency_ms,cpu_util_pct,cpu_per_worker,errors_total,os_cpu_pct_total,rss_mb_total,scale_event"
    );
    assert_eq!(row.split(',').count(), header.split(',').count());
    let row = CsvOutput::worker_row(9, &one, "1.000", "0.0", "1.0");
    assert_eq!(row, "9,a,1.000,16,32,7,0.0,1.0");
    let header = CsvOutput::workers_header();
    assert_eq!(header, "t_s,container,cpu_per_replica,active,capacity,queued,os_cpu_pct,rss_mb");
    assert_eq!(row.split(',').count(), header.split(',').count());
}
