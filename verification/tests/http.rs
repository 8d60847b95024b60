use autoscaler::double::Double;
use autoscaler::http::controller::HttpController;
use autoscaler::http::executor::{Adjustment, CgroupManager, Executor, Launch, Step, Worker};
use autoscaler::http::instance::{metrics_url, InstanceMetrics, Reading};
use autoscaler::http::loadgen::{
    burst, double_burst, error_message, ramp, sawtooth, steady, step, wave, with_pattern, Loadgen,
    LoadgenError, PatternSettings,
};
use autoscaler::http::process::{cpu_ticks, do_cpu_work, hold_memory, parse_cpu_times, parse_rss_kb};
use autoscaler::http::proxy::{
    address, connected, forward, let_in, BackendPool, Forwarding, Refusal, Semaphore,
    MAX_PROXY_CONCURRENCY,
};
use autoscaler::http::request::{classify, parse_request_line, route, Response, Route};
use autoscaler::http::service::{
    ProcessFigures, Reception, Semaphore as Slots, ServiceConfig, ServiceMetrics, Work,
    LATENCY_WINDOW,
};
use autoscaler::shared::workload::WorkloadPattern;

fn double(x: f64) -> Double {
    Double::from_bits(x.to_bits())
}

fn native(x: Double) -> f64 {
    f64::from_bits(x.to_bits())
}

fn strings(list: &[&str]) -> Vec<String> {
    list.iter().map(|s| String::from(*s)).collect()
}

// Requests and responses

#[test]
fn requests_are_routed() {
    let cases: Vec<(&[u8], Route)> = vec![
        (b"GET /metrics HTTP/1.1\r\nHost: x\r\n\r\n", Route::Metrics),
        (b"GET /healthz", Route::Health),
        (b"GET /cpu-heavy?x=1 HTTP/1.1", Route::CpuHeavy),
        (b"  GET\t/mem-heavy", Route::MemHeavy),
        (b"GET /mixed/more", Route::Mixed),
        (b"GET /other", Route::Unknown),
        (b"GET /", Route::Unknown),
        (b"POST /metrics", Route::NotAllowed),
        (b"get /metrics", Route::NotAllowed),
        (b"GET", Route::Malformed),
        (b"\r\nGET /metrics", Route::Malformed),
        (b" \n", Route::Malformed),
        (b"GET /m\xff", Route::InvalidText),
        (b"GET /\xc3\xa4", Route::Unknown),
    ];
    for (bytes, expected) in cases {
        assert_eq!(classify(bytes), expected, "{:?}", bytes);
    }
    assert_eq!(route("GET", "/mixed"), Route::Mixed);
    let line = parse_request_line("GET /x y\nz").unwrap();
    assert_eq!((line.method.as_str(), line.path.as_str()), ("GET", "/x"));
    assert!(parse_request_line("").is_none());
}

#[test]
fn responses_are_written() {
    let r = Response::to_route(Route::CpuHeavy, "unused");
    assert_eq!(
        r.to_text(),
        "HTTP/1.1 200 OK\r\nContent-Length: 14\r\nContent-Type: text/plain\r\nConnection: close\r\n\r\ncpu-heavy done"
    );
    let bodies = [
        (Route::InvalidText, 400, "Bad Request", "Invalid UTF-8"),
        (Route::Malformed, 400, "Bad Request", "Malformed request line"),
        (Route::Metrics, 200, "OK", "größe=1\n"),
        (Route::Health, 200, "OK", "ok"),
        (Route::NotAllowed, 405, "Method Not Allowed", "Only GET supported"),
        (Route::MemHeavy, 200, "OK", "mem-heavy done"),
        (Route::Mixed, 200, "OK", "mixed done"),
        (Route::Unknown, 404, "Not Found", "Unknown path"),
    ];
    for (route, status, reason, body) in bodies {
        assert_eq!(
            Response::to_route(route, "größe=1\n").to_text(),
            format!(
                "HTTP/1.1 {} {}\r\nContent-Length: {}\r\nContent-Type: text/plain\r\nConnection: close\r\n\r\n{}",
                status,
                reason,
                body.len(),
                body
            )
        );
    }
}

// What the kernel tells

#[test]
fn ticks_are_read_after_the_name() {
    let stat = "42 (a (b) c) S 1 2 3 4 5 6 7 8 9 10 700 30 0 0 20\n";
    assert_eq!(parse_cpu_times(stat), (700, 30));
    assert_eq!(cpu_ticks(700, 30), 730);
    assert_eq!(parse_cpu_times("42 S 1 2"), (0, 0));
    assert_eq!(parse_cpu_times("42 (x) S 1 2"), (0, 0));
    // Where one of the two cannot be read, both are nothing.
    assert_eq!(parse_cpu_times("42 (x) S 1 2 3 4 5 6 7 8 9 10 x 8"), (0, 0));
    assert_eq!(parse_cpu_times("1 (a) b) S 1 2 3 4 5 6 7 8 9 10 x 7 0"), (0, 0));
    assert_eq!(parse_cpu_times("42 (x) S 1 2 3 4 5 6 7 8 9 10 8 x"), (0, 0));
    assert_eq!(parse_cpu_times("42 (x) S 1 2 3 4 5 6 7 8 9 10 8"), (0, 0));
}

#[test]
fn memory_is_read_from_its_line() {
    assert_eq!(parse_rss_kb("Name:\tx\nVmRSS:\t  1234 kB\nVmRSS: 9 kB\n"), 1234);
    assert_eq!(parse_rss_kb("VmRSS:\nVmRSS: 9 kB\n"), 0);
    assert_eq!(parse_rss_kb("Name: x\n"), 0);
    assert_eq!(parse_rss_kb("VmRSS: many kB"), 0);
}

#[test]
fn work_is_done() {
    let mut state: u64 = 0x517c_c1b7_2722_0a95;
    for i in 0..1000u64 {
        state ^= i.wrapping_mul(0x9e37_79b9_7f4a_7c15);
        state = state.rotate_left(31).wrapping_add(0x6c62_272e_07bb_0142);
    }
    assert_eq!(do_cpu_work(1000), state);
    assert_eq!(do_cpu_work(0), 0x517c_c1b7_2722_0a95);
    let held = hold_memory(10_000);
    assert_eq!(held.len(), 10_000);
    for (i, byte) in held.iter().enumerate() {
        assert_eq!(*byte, if i % 4096 == 0 { 1 } else { 0 });
    }
    assert!(hold_memory(0).is_empty());
}

// The service

#[test]
fn work_depends_on_the_factors() {
    let config = ServiceConfig {
        cpu_factor: double(1.5),
        mem_factor: double(0.3),
        max_concurrency: 4,
        worker_threads: 0,
    };
    assert_eq!(config.pool_threads(), 1);
    assert_eq!(config.work(Route::CpuHeavy), Work::Cpu { iters: 3_000_000 });
    let bytes = ((10 * 1024 * 1024) as f64 * 0.3) as usize;
    assert_eq!(config.work(Route::MemHeavy), Work::Memory { bytes });
    let half = ((5 * 1024 * 1024) as f64 * 0.3) as usize;
    assert_eq!(config.work(Route::Mixed), Work::Both { iters: 1_500_000, bytes: half });
    assert_eq!(config.work(Route::Unknown), Work::Nothing);
    assert_eq!(config.work(Route::Health), Work::Nothing);
}

#[test]
fn slots_are_taken_and_returned() {
    let mut slots = Slots::new(2);
    assert!(slots.acquire());
    assert!(slots.acquire());
    assert!(!slots.acquire());
    assert_eq!(slots.active(), 2);
    slots.release();
    assert_eq!(slots.active(), 1);
    assert!(slots.acquire());
    assert!(!Slots::new(0).acquire());
}

#[test]
fn a_request_leaves_its_record() {
    let mut m = ServiceMetrics::default();
    m.connect();
    assert_eq!(m.receive(b"GET /cpu-heavy"), Reception::Queue(Route::CpuHeavy));
    assert_eq!((m.in_flight, m.queue_depth, m.active_count), (1, 1, 0));
    m.start(Route::CpuHeavy);
    assert_eq!((m.queue_depth, m.active_count, m.cpu_requests), (0, 1, 1));
    m.finish(Route::CpuHeavy, 12);
    assert_eq!((m.in_flight, m.queue_depth, m.active_count), (0, 0, 0));
    assert_eq!((m.total_requests, m.total_errors), (1, 0));
    assert_eq!(native(m.avg_latency_ms()), 12.0);

    m.connect();
    assert_eq!(m.receive(b"GET /nowhere"), Reception::Queue(Route::Unknown));
    m.start(Route::Unknown);
    m.finish(Route::Unknown, 99);
    assert_eq!((m.total_requests, m.total_errors), (2, 1));
    assert_eq!(native(m.avg_latency_ms()), 12.0);

    m.connect();
    assert_eq!(m.receive(b""), Reception::Close);
    assert_eq!((m.in_flight, m.total_requests), (0, 2));
}

#[test]
fn some_requests_are_answered_at_once() {
    let mut m = ServiceMetrics::default();
    m.connect();
    assert_eq!(m.receive(b"GET /metrics"), Reception::Answer(Route::Metrics));
    m.answer(Route::Metrics);
    assert_eq!((m.in_flight, m.total_requests, m.total_errors), (0, 0, 0));
    m.connect();
    assert_eq!(m.receive(b"DELETE /mixed"), Reception::Answer(Route::NotAllowed));
    m.answer(Route::NotAllowed);
    assert_eq!((m.in_flight, m.total_requests, m.total_errors), (0, 1, 1));
}

#[test]
fn the_window_keeps_the_last_latencies() {
    let mut m = ServiceMetrics::default();
    assert_eq!(native(m.avg_latency_ms()), 0.0);
    for i in 0..(LATENCY_WINDOW as u64 + 50) {
        m.record_request(i, true);
    }
    assert_eq!(m.recent_latencies.len(), LATENCY_WINDOW);
    assert_eq!(m.latency_sum(), Some((50..150).sum()));
    assert_eq!(native(m.avg_latency_ms()), 99.5);
    m.record_request(u64::MAX, true);
    assert_eq!(m.latency_sum(), None);
}

fn figures() -> ProcessFigures {
    ProcessFigures { max_concurrency: 32, active: 3, os_cpu_ticks: 777, rss_kb: 4096 }
}

#[test]
fn the_report_is_written() {
    let mut m = ServiceMetrics::default();
    m.record_request(5, true);
    m.record_request(0, false);
    m.mem_requests = 7;
    assert_eq!(
        m.report("5.00", &figures()),
        "requests_total=2\nin_flight=0\nerrors_total=1\navg_latency_ms=5.00\nmax_concurrency=32\nactive_count=3\nqueue_depth=0\ncpu_requests=0\nmem_requests=7\nmixed_requests=0\nos_cpu_ticks=777\nrss_kb=4096\n"
    );
}

#[test]
fn the_controller_reads_what_the_service_writes() {
    let mut m = ServiceMetrics::default();
    m.total_requests = u64::MAX;
    m.total_errors = 17;
    m.queue_depth = 5;
    let r = Reading::parse(&m.report("12.34", &figures()));
    assert_eq!((r.total_requests, r.errors), (u64::MAX, 17));
    assert_eq!(r.latency.as_deref(), Some("12.34"));
    assert_eq!((r.max_concurrency, r.active_count, r.queue_depth), (32, 3, 5));
    assert_eq!((r.os_cpu_ticks, r.rss_kb), (777, 4096));
}

// Reports

#[test]
fn reports_are_read_with_care() {
    let r = Reading::parse("\n requests_total = 5 \r\nrequests_total=\nerrors_total=x\nmax_concurrency=-1\nactive_count=1=2\nqueue_depth\nother=3\nrss_kb=+9\n=4\n");
    assert_eq!(r.total_requests, 5);
    assert_eq!(r.errors, 0);
    assert_eq!(r.max_concurrency, 1);
    assert_eq!(r.active_count, 0);
    assert_eq!(r.queue_depth, 0);
    assert_eq!(r.rss_kb, 9);
    assert!(r.latency.is_none());
    let r = Reading::parse("requests_total=1\nrequests_total=2\nrequests_total=no\navg_latency_ms=a\navg_latency_ms= b c ");
    assert_eq!(r.total_requests, 0);
    assert_eq!(r.latency.as_deref(), Some("b c"));
    assert_eq!(Reading::parse("").max_concurrency, 0);
    let m = r.with_latency(double(1.25));
    assert_eq!(native(m.avg_latency_ms), 1.25);
    assert_eq!(metrics_url("http://h:1//"), "http://h:1/metrics");
}

fn reported(total: u64, latency: f64, slots: usize, active: usize, queue: usize) -> InstanceMetrics {
    InstanceMetrics {
        total_requests: total,
        errors: 1,
        avg_latency_ms: double(latency),
        max_concurrency: slots,
        active_count: active,
        queue_depth: queue,
        os_cpu_ticks: 50,
        rss_kb: 60,
    }
}

#[test]
fn reports_are_summed_up() {
    let all = vec![reported(10, 1.5, 32, 4, 5), reported(20, 3.0, 32, 6, 7)];
    let sum = InstanceMetrics::aggregate(&all).unwrap();
    assert_eq!((sum.total_requests, sum.errors), (30, 2));
    assert_eq!((sum.max_concurrency, sum.active_count, sum.queue_depth), (64, 10, 12));
    assert_eq!(native(sum.avg_latency_ms), (0.0 + 1.5 + 3.0) / 2.0);
    let none = InstanceMetrics::aggregate(&Vec::new()).unwrap();
    assert_eq!((none.total_requests, native(none.avg_latency_ms)), (0, 0.0));
    let over = vec![reported(u64::MAX, 0.0, 1, 1, 1), reported(1, 0.0, 1, 1, 1)];
    assert!(InstanceMetrics::aggregate(&over).is_none());
}

#[test]
fn use_is_a_share_from_one_to_a_hundred() {
    let target = autoscaler::shared::types::TargetState::default();
    let share = |active, queue, slots| {
        let s = reported(0, 0.0, slots, active, queue).to_state(3, 7, 2, &target);
        (native(s.cpu_util), native(s.mem_util))
    };
    assert_eq!(share(16, 8, 64), (25.0, 12.5));
    assert_eq!(share(0, 0, 64), (1.0, 1.0));
    assert_eq!(share(1, 500, 64), (1.0 / 64.0 * 100.0, 100.0));
    assert_eq!(share(5, 5, 0), (1.0, 1.0));
}

// The controller

#[test]
fn the_controller_decides_at_its_intervals() {
    let mut c = HttpController::new();
    assert_eq!(HttpController::workers_to_start(0), Some(1));
    assert_eq!(HttpController::workers_to_start(2), None);
    let tick = c.tick(0, 10, 1, &reported(100, 10.0, 4, 4, 0));
    assert_eq!(tick.delta, 100);
    assert!(tick.decision.is_none());
    let tick = c.tick(9, 10, 1, &reported(150, 10.0, 4, 4, 0));
    assert_eq!(tick.delta, 50);
    assert_eq!(native(tick.state.incoming_rps), 50.0);
    assert_eq!(tick.state.incoming_requests, 50);
    assert!(tick.decision.is_none());
    // All slots are in use, and latency is over its target.
    let tick = c.tick(10, 10, 1, &reported(140, 60.0, 4, 4, 2));
    assert_eq!(tick.delta, 0);
    assert_eq!(tick.state.waiting_requests, 2);
    assert_eq!(native(tick.metrics.p99_latency_ms), 90.0);
    let decision = tick.decision.unwrap();
    assert!(decision.apply);
    assert_eq!(native(decision.previous.cpu_per_replica), 1.0);
    assert_eq!(native(decision.target.cpu_per_replica), 1.3);
    assert_eq!(decision.target.num_replicas, 1);
    assert_eq!(native(c.target.cpu_per_replica), 1.3);
    // Nothing to do: the target stays.
    let decision = c.tick(20, 10, 1, &reported(200, 5.0, 4, 1, 0)).decision.unwrap();
    assert!(!decision.apply);
}

// The executor

#[test]
fn the_control_group_is_found() {
    let group = CgroupManager::find("1:name=x:/a\n0::/user.slice/b.scope \n0::/c\n").unwrap();
    assert_eq!(group.dir, "/sys/fs/cgroup/user.slice/b.scope");
    assert_eq!(group.file("cgroup.subtree_control"), "/sys/fs/cgroup/user.slice/b.scope/cgroup.subtree_control");
    assert_eq!(group.worker_dir(9001), "/sys/fs/cgroup/user.slice/b.scope/worker-9001");
    assert_eq!(group.worker_file(9001, "cpu.max"), "/sys/fs/cgroup/user.slice/b.scope/worker-9001/cpu.max");
    let root = CgroupManager::find("0::/\n").unwrap();
    assert_eq!(root.worker_dir(1), "/sys/fs/cgroup/worker-1");
    assert!(CgroupManager::find("1:a:/b\n").is_none());
    assert!(CgroupManager::find("").is_none());
}

#[test]
fn quotas_follow_the_vertical_scale() {
    assert_eq!(CgroupManager::cpu_max(double(1.3)), "130000 100000");
    assert_eq!(CgroupManager::cpu_max(double(0.01)), "10000 100000");
    assert_eq!(CgroupManager::cpu_max(double(f64::NAN)), "10000 100000");
    assert_eq!(CgroupManager::cpu_max(double(0.123456)), "12346 100000");
}

fn executor(cgroup: bool) -> Executor {
    let group = if cgroup { CgroupManager::find("0::/x\n") } else { None };
    Executor::new(9000, double(1.0), double(2.0), double(1.0), group)
}

fn settle(executor: &mut Executor, pool: &mut BackendPool, target: usize) -> Vec<String> {
    let mut done = Vec::new();
    loop {
        match executor.ensure_workers(target) {
            Step::Done => return done,
            Step::Start(launch) => {
                done.push(format!("+{}", launch.port));
                executor.worker_started(pool);
            }
            Step::Stop(worker) => {
                done.push(format!("-{}", worker.port));
                executor.worker_stopped(pool);
            }
        }
        let urls: Vec<String> = pool.entries.iter().map(|e| e.url.clone()).collect();
        assert_eq!(urls, executor.worker_urls());
    }
}

#[test]
fn workers_are_ensured() {
    let mut e = executor(false);
    let mut pool = BackendPool::new();
    assert_eq!(settle(&mut e, &mut pool, 3), strings(&["+9000", "+9001", "+9002"]));
    assert_eq!(e.worker_count(), 3);
    assert_eq!(e.worker_urls()[2], "http://127.0.0.1:9002");
    assert_eq!(settle(&mut e, &mut pool, 1), strings(&["-9002", "-9001"]));
    assert!(settle(&mut e, &mut pool, 1).is_empty());
    assert_eq!(settle(&mut e, &mut pool, 2), strings(&["+9001"]));
    let states = e.worker_states();
    assert_eq!(states.len(), 2);
    assert_eq!((states[1].0, native(states[1].1)), (9001, 1.0));
    assert_eq!(e.shut_down(), vec![9001, 9000]);
    assert_eq!(e.worker_count(), 0);
}

#[test]
fn workers_get_slots_and_threads() {
    let launch = |e: &Executor| match e.ensure_workers(1) {
        Step::Start(launch) => launch,
        _ => panic!("a start is due"),
    };
    let mut e = executor(false);
    assert_eq!(launch(&e), Launch { port: 9000, max_concurrency: 4, worker_threads: 1 });
    let mut pool = BackendPool::new();
    e.apply_target(1, double(2.6), double(2.0), &mut pool);
    assert_eq!(launch(&e), Launch { port: 9000, max_concurrency: 10, worker_threads: 3 });
    e.apply_target(1, double(0.1), double(2.0), &mut pool);
    assert_eq!(launch(&e), Launch { port: 9000, max_concurrency: 1, worker_threads: 1 });
    assert_eq!(launch(&executor(true)).max_concurrency, 32);
    assert_eq!(
        launch(&e).args("1.000", "2.000"),
        strings(&[
            "service", "--port", "9000", "--cpu-factor", "1.000", "--mem-factor", "2.000",
            "--max-concurrency", "1", "--worker-threads", "1",
        ])
    );
}

#[test]
fn a_vertical_scale_is_applied() {
    let mut pool = BackendPool::new();
    let mut e = executor(true);
    settle(&mut e, &mut pool, 2);
    let (adjustment, count) = e.apply_target(2, double(1.005), double(2.0), &mut pool);
    assert!(matches!(adjustment, Adjustment::Keep));
    assert_eq!(count, 2);
    match e.apply_target(3, double(1.5), double(2.0), &mut pool) {
        (Adjustment::Quota { ports }, 3) => assert_eq!(ports, vec![9000, 9001]),
        _ => panic!("quotas change"),
    }
    assert_eq!((e.worker_count(), pool.entries.len(), e.max_concurrency), (2, 2, 32));

    let mut pool = BackendPool::new();
    let mut e = executor(false);
    settle(&mut e, &mut pool, 2);
    match e.apply_target(2, double(1.5), double(2.0), &mut pool) {
        (Adjustment::Restart { ports }, 2) => assert_eq!(ports, vec![9001, 9000]),
        _ => panic!("workers restart"),
    }
    assert_eq!((e.worker_count(), pool.entries.len(), e.max_concurrency), (0, 0, 6));
}

#[test]
fn ports_run_out() {
    let mut e = Executor::new(65534, double(1.0), double(1.0), double(1.0), None);
    let mut pool = BackendPool::new();
    settle(&mut e, &mut pool, 2);
    assert_eq!(e.workers, vec![Worker { port: 65534 }, Worker { port: 65535 }]);
    assert!(!e.can_start());
    settle(&mut e, &mut pool, 1);
    assert!(e.can_start());
}

// The proxy

fn pool_of(urls: &[&str]) -> BackendPool {
    let mut pool = BackendPool::new();
    pool.sync_backends(&strings(urls));
    pool
}

fn loads(pool: &BackendPool) -> Vec<(String, usize)> {
    pool.entries.iter().map(|e| (e.url.clone(), e.in_flight)).collect()
}

#[test]
fn requests_go_where_the_fewest_are() {
    let mut pool = pool_of(&["http://a:1", "http://b:2/x", "c:3"]);
    let hosts: Vec<String> = (0..4).map(|_| pool.acquire().unwrap().address).collect();
    assert_eq!(hosts, strings(&["a:1", "b:2", "c:3", "a:1"]));
    let first = pool.entries[1].ticket;
    pool.release(first);
    assert_eq!(pool.acquire().unwrap().address, "b:2");
    assert!(BackendPool::new().acquire().is_none());
    assert_eq!(address("http://http://h/"), "h");
}

#[test]
fn release_undoes_acquire() {
    let mut pool = pool_of(&["a", "b"]);
    let before = loads(&pool);
    let lease = pool.acquire().unwrap();
    assert_ne!(loads(&pool), before);
    pool.release(lease.ticket);
    assert_eq!(loads(&pool), before);
    pool.release(12345);
    assert_eq!(loads(&pool), before);
}

#[test]
fn the_pool_follows_the_workers() {
    let mut pool = pool_of(&["a", "b", "c"]);
    let lease = pool.acquire().unwrap();
    let other = pool.acquire().unwrap();
    pool.sync_backends(&strings(&["d", "b", "b", "a"]));
    let expected: Vec<(String, usize)> =
        vec![(String::from("d"), 0), (String::from("b"), 1), (String::from("a"), 1)];
    assert_eq!(loads(&pool), expected);
    // A worker that comes back starts anew, and old connections do not count against it.
    pool.sync_backends(&strings(&["b"]));
    pool.sync_backends(&strings(&["b", "a"]));
    pool.release(lease.ticket);
    assert_eq!(loads(&pool), vec![(String::from("b"), 1), (String::from("a"), 0)]);
    pool.release(other.ticket);
    assert_eq!(loads(&pool)[0].1, 0);
    let same = loads(&pool);
    pool.sync_backends(&strings(&["b", "a"]));
    assert_eq!(loads(&pool), same);
    assert!(pool.has_tickets(1000));
    // Where nobody is new, no ticket is needed.
    pool.next_ticket = u64::MAX;
    pool.sync_backends(&strings(&["b", "a"]));
    assert_eq!((loads(&pool), pool.next_ticket), (same, u64::MAX));
    pool.next_ticket = u64::MAX - 1;
    assert!(pool.has_tickets(1));
    assert!(!pool.has_tickets(2));
}

#[test]
fn the_proxy_refuses() {
    let mut permits = Semaphore::new(1);
    assert_eq!(let_in(&mut permits), None);
    assert_eq!(let_in(&mut permits), Some(Refusal::AtCapacity));
    permits.release();
    assert_eq!(let_in(&mut permits), None);
    assert_eq!(MAX_PROXY_CONCURRENCY, 512);
    let mut empty = BackendPool::new();
    assert!(matches!(forward(&mut empty, None), Forwarding::Close));
    assert!(matches!(forward(&mut empty, Some(0)), Forwarding::Close));
    assert!(matches!(forward(&mut empty, Some(9)), Forwarding::Refuse(Refusal::NoBackends)));
    let mut pool = pool_of(&["http://h:80"]);
    match forward(&mut pool, Some(9)) {
        Forwarding::Connect(lease) => assert_eq!(lease.address, "h:80"),
        _ => panic!("there is a backend"),
    }
    assert_eq!(connected(true), None);
    assert_eq!(connected(false), Some(Refusal::BadGateway));
    assert_eq!(
        Refusal::AtCapacity.message(),
        "HTTP/1.1 503 Service Unavailable\r\nContent-Length: 17\r\nConnection: close\r\n\r\nproxy at capacity\n"
    );
    assert_eq!(
        Refusal::NoBackends.message(),
        "HTTP/1.1 503 Service Unavailable\r\nContent-Length: 16\r\nConnection: close\r\n\r\nno backends yet\n"
    );
    assert_eq!(
        Refusal::BadGateway.message(),
        "HTTP/1.1 502 Bad Gateway\r\nContent-Length: 12\r\nConnection: close\r\n\r\nbad gateway\n"
    );
}

// The load generator

fn settings() -> PatternSettings {
    PatternSettings {
        base_rps: double(5.0),
        peak_rps: double(100.0),
        step_to: double(80.0),
        step_at: 30,
        burst_start: 20,
        burst_end: 60,
        burst2_start: 100,
        burst2_end: 140,
        ramp_duration: 60,
        period: 40,
        wave_center: double(40.0),
    }
}

fn rate(loadgen: &Loadgen, t: u32) -> f64 {
    native(loadgen.pattern.rps_at(t, double(1.0)))
}

#[test]
fn endpoints_take_turns() {
    let mut l = steady(" http://a/ ,, http://b:2// ", "/mixed", double(5.0), 9).unwrap();
    assert_eq!(l.endpoints, strings(&["http://a/mixed", "http://b:2/mixed"]));
    assert_eq!(l.duration_s, 9);
    let urls: Vec<String> = (0..3).map(|_| l.next_url()).collect();
    assert_eq!(urls, strings(&["http://a/mixed", "http://b:2/mixed", "http://a/mixed"]));
    l.rr_index = usize::MAX;
    l.next_url();
    assert_eq!(l.rr_index, 0);
    assert_eq!(steady(" , ", "x", double(1.0), 1).unwrap_err(), LoadgenError::NoBaseUrl);
}

#[test]
fn rates_become_requests() {
    assert_eq!(Loadgen::requests(double(2.5)), 3);
    assert_eq!(Loadgen::requests(double(2.49)), 2);
    assert_eq!(Loadgen::requests(double(-4.0)), 0);
    assert_eq!(Loadgen::requests(double(f64::NAN)), 0);
    assert_eq!(Loadgen::requests(double(1e12)), u32::MAX);
}

#[test]
fn patterns_have_names() {
    let s = settings();
    let named = |name: &str| with_pattern("u", "e", name, &s, 7);
    assert_eq!(rate(&named("steady").unwrap(), 50), 5.0);
    assert_eq!(rate(&named("step").unwrap(), 30), 80.0);
    assert_eq!(rate(&named("burst").unwrap(), 20), 100.0);
    assert_eq!(rate(&named("ramp").unwrap(), 30), 52.5);
    assert_eq!(rate(&named("sawtooth").unwrap(), 50), 28.75);
    assert_eq!(rate(&named("wave").unwrap(), 10), 140.0);
    assert_eq!(rate(&named("double-burst").unwrap(), 120), 100.0);
    assert_eq!(named("square").unwrap_err(), LoadgenError::UnknownPattern);
    assert_eq!(
        error_message(LoadgenError::UnknownPattern, "square"),
        "Unknown pattern: square (expected steady|step|burst|ramp|sawtooth|wave|double-burst)"
    );
    assert_eq!(
        error_message(LoadgenError::NoBaseUrl, "steady"),
        "Loadgen error: no valid base_url provided to loadgen"
    );
    let d = double(1.0);
    assert!(matches!(step("u", "e", d, d, 3, 7).unwrap().pattern, WorkloadPattern::Step { step_at: 3, .. }));
    assert!(matches!(burst("u", "e", d, d, 3, 4, 7).unwrap().pattern, WorkloadPattern::Burst { burst_end: 4, .. }));
    assert!(matches!(ramp("u", "e", d, d, 3, 7).unwrap().pattern, WorkloadPattern::Ramp { ramp_duration: 3, .. }));
    assert!(matches!(sawtooth("u", "e", d, d, 3, 7).unwrap().pattern, WorkloadPattern::Sawtooth { period: 3, .. }));
    assert!(matches!(wave("u", "e", d, d, 3, 7).unwrap().pattern, WorkloadPattern::Wave { period_s: 3, .. }));
    assert!(matches!(
        double_burst("u", "e", d, d, 1, 2, 3, 4, 7).unwrap().pattern,
        WorkloadPattern::DoubleBurst { burst2_end: 4, .. }
    ));
}
