use std::collections::VecDeque;
use vstd::prelude::*;

use crate::double::{Double, Number};
use crate::http::request::{classify, Route};
use crate::text::Text;

verus! {

#[derive(Clone, Copy, Debug)]
pub struct ServiceConfig {
    pub cpu_factor: Double,
    pub mem_factor: Double,
    pub max_concurrency: usize,
    pub worker_threads: usize,
}

/// The work that a request takes.
#[derive(Clone, Copy, Debug, PartialEq, Eq, Structural)]
pub enum Work {
    /// Nothing to do.
    Nothing,
    /// Rounds of CPU-bound work.
    Cpu { iters: u64 },
    /// Bytes to hold for a while.
    Memory { bytes: usize },
    /// Bytes to hold during rounds of CPU-bound work.
    Both { iters: u64, bytes: usize },
}

impl ServiceConfig {
    /// A number of rounds, times the CPU factor.
    pub open spec fn iters(self, base: nat) -> nat {
        Number::integer(base).times(self.cpu_factor@).rounded(u64::MAX as nat)
    }

    /// A number of bytes, times the memory factor.
    pub open spec fn bytes(self, base: nat) -> nat {
        Number::integer(base).times(self.mem_factor@).truncated(usize::MAX as nat)
    }

    fn scaled_iters(&self, base: u32) -> (r: u64)
        ensures
            r == self.iters(base as nat),
    {
        Double::from_u32(base).mul(self.cpu_factor).round_to_u64()
    }

    fn scaled_bytes(&self, base: u32) -> (r: usize)
        ensures
            r == self.bytes(base as nat),
    {
        Double::from_u32(base).mul(self.mem_factor).to_usize()
    }

    /// The work that a request takes: two million rounds or ten megabytes, or half of each.
    pub fn work(&self, route: Route) -> (r: Work)
        ensures
            match route {
                Route::CpuHeavy => r matches Work::Cpu { iters } && iters == self.iters(2_000_000),
                Route::MemHeavy => r matches Work::Memory { bytes } && bytes == self.bytes(
                    10_485_760,
                ),
                Route::Mixed => r matches Work::Both { iters, bytes } && iters == self.iters(
                    1_000_000,
                ) && bytes == self.bytes(5_242_880),
                _ => r is Nothing,
            },
    {
        match route {
            Route::CpuHeavy => Work::Cpu { iters: self.scaled_iters(2_000_000) },
            Route::MemHeavy => Work::Memory { bytes: self.scaled_bytes(10_485_760) },
            Route::Mixed => Work::Both {
                iters: self.scaled_iters(1_000_000),
                bytes: self.scaled_bytes(5_242_880),
            },
            _ => Work::Nothing,
        }
    }

    /// The threads of the CPU pool, one at least.
    pub fn pool_threads(&self) -> (r: usize)
        ensures
            r == (if self.worker_threads == 0 {
                1
            } else {
                self.worker_threads
            }),
    {
        if self.worker_threads == 0 {
            1
        } else {
            self.worker_threads
        }
    }
}

/// Counting semaphore: limits how many requests are processed at once. Requests that find all
/// slots taken wait for one: they are the queue.
#[derive(Clone, Copy, Debug)]
pub struct Semaphore {
    active: usize,
    capacity: usize,
}

impl Semaphore {
    /// The slots that are taken.
    pub closed spec fn taken(self) -> nat {
        self.active as nat
    }

    /// The slots that there are.
    pub closed spec fn slots(self) -> nat {
        self.capacity as nat
    }

    /// No more slots are taken than there are.
    pub open spec fn wf(self) -> bool {
        self.taken() <= self.slots()
    }

    pub fn new(capacity: usize) -> (r: Self)
        ensures
            r.wf(),
            r.taken() == 0,
            r.slots() == capacity,
    {
        Semaphore { active: 0, capacity }
    }

    /// Takes a slot, unless all are taken: then the caller waits until one is released.
    pub fn acquire(&mut self) -> (r: bool)
        requires
            old(self).wf(),
        ensures
            final(self).wf(),
            final(self).slots() == old(self).slots(),
            r == (old(self).taken() < old(self).slots()),
            final(self).taken() == (if r {
                old(self).taken() + 1
            } else {
                old(self).taken()
            }),
    {
        if self.active >= self.capacity {
            false
        } else {
            self.active = self.active + 1;
            true
        }
    }

    /// Gives a slot back.
    pub fn release(&mut self)
        requires
            old(self).wf(),
            old(self).taken() > 0,
        ensures
            final(self).wf(),
            final(self).slots() == old(self).slots(),
            final(self).taken() == old(self).taken() - 1,
    {
        self.active = self.active - 1;
    }

    pub fn active(&self) -> (r: usize)
        ensures
            r == self.taken(),
    {
        self.active
    }
}

/// What is to be done about a client.
#[derive(Clone, Copy, Debug, PartialEq, Eq, Structural)]
pub enum Reception {
    /// Nothing came: the connection is over.
    Close,
    /// The request is answered at once, and then counted.
    Answer(Route),
    /// The request waits for a slot.
    Queue(Route),
}

/// The completed requests whose latencies are kept.
pub const LATENCY_WINDOW: usize = 100;

/// The counters of the service.
#[derive(Clone, Debug)]
pub struct ServiceMetrics {
    pub total_requests: u64,
    pub in_flight: usize,
    /// Requests that hold a slot.
    pub active_count: usize,
    /// Requests that wait for a slot.
    pub queue_depth: usize,
    pub total_errors: u64,
    /// The latencies of the last completed requests, in milliseconds.
    pub recent_latencies: VecDeque<u64>,
    pub cpu_requests: u64,
    pub mem_requests: u64,
    pub mixed_requests: u64,
}

/// The counters as values.
pub struct Counters {
    pub total_requests: u64,
    pub in_flight: usize,
    pub active_count: usize,
    pub queue_depth: usize,
    pub total_errors: u64,
    pub recent_latencies: Seq<u64>,
    pub cpu_requests: u64,
    pub mem_requests: u64,
    pub mixed_requests: u64,
}

impl View for ServiceMetrics {
    type V = Counters;

    open spec fn view(&self) -> Counters {
        Counters {
            total_requests: self.total_requests,
            in_flight: self.in_flight,
            active_count: self.active_count,
            queue_depth: self.queue_depth,
            total_errors: self.total_errors,
            recent_latencies: self.recent_latencies@,
            cpu_requests: self.cpu_requests,
            mem_requests: self.mem_requests,
            mixed_requests: self.mixed_requests,
        }
    }
}

impl Counters {
    pub open spec fn zero() -> Counters {
        Counters {
            total_requests: 0,
            in_flight: 0,
            active_count: 0,
            queue_depth: 0,
            total_errors: 0,
            recent_latencies: Seq::empty(),
            cpu_requests: 0,
            mem_requests: 0,
            mixed_requests: 0,
        }
    }

    /// At most the last hundred latencies are kept.
    pub open spec fn wf(self) -> bool {
        self.recent_latencies.len() <= LATENCY_WINDOW
    }

    /// The window with one more latency, without the first one where it was full.
    pub open spec fn with_latency(window: Seq<u64>, latency_ms: u64) -> Seq<u64> {
        if window.len() >= LATENCY_WINDOW {
            window.drop_first().push(latency_ms)
        } else {
            window.push(latency_ms)
        }
    }

    /// The counters once a request has been recorded.
    pub open spec fn recorded(self, latency_ms: u64, success: bool) -> Counters {
        Counters {
            total_requests: self.total_requests.wrapping_add(1),
            total_errors: if success {
                self.total_errors
            } else {
                self.total_errors.wrapping_add(1)
            },
            recent_latencies: if success {
                Self::with_latency(self.recent_latencies, latency_ms)
            } else {
                self.recent_latencies
            },
            ..self
        }
    }

    /// A client has connected.
    pub open spec fn connected(self) -> Counters {
        Counters { in_flight: self.in_flight.wrapping_add(1), ..self }
    }

    /// A connection is over.
    pub open spec fn disconnected(self) -> Counters {
        Counters { in_flight: self.in_flight.wrapping_sub(1), ..self }
    }

    /// A request waits for a slot.
    pub open spec fn queued(self) -> Counters {
        Counters { queue_depth: self.queue_depth.wrapping_add(1), ..self }
    }

    /// A request has got its slot.
    pub open spec fn started(self, route: Route) -> Counters {
        Counters {
            queue_depth: self.queue_depth.wrapping_sub(1),
            active_count: self.active_count.wrapping_add(1),
            cpu_requests: if route is CpuHeavy {
                self.cpu_requests.wrapping_add(1)
            } else {
                self.cpu_requests
            },
            mem_requests: if route is MemHeavy {
                self.mem_requests.wrapping_add(1)
            } else {
                self.mem_requests
            },
            mixed_requests: if route is Mixed {
                self.mixed_requests.wrapping_add(1)
            } else {
                self.mixed_requests
            },
            ..self
        }
    }

    /// A request that held a slot has been answered.
    pub open spec fn finished(self, latency_ms: u64, success: bool) -> Counters {
        (Counters { active_count: self.active_count.wrapping_sub(1), ..self }).recorded(
            latency_ms,
            success,
        ).disconnected()
    }

    /// A request has been answered without a slot. The service's own counters and its sign of
    /// life are not recorded as requests; what was refused is, as an error.
    pub open spec fn answered(self, route: Route) -> Counters {
        if route is Metrics || route is Health {
            self.disconnected()
        } else {
            self.recorded(0, false).disconnected()
        }
    }

    pub open spec fn sum(latencies: Seq<u64>) -> nat
        decreases latencies.len(),
    {
        if latencies.len() == 0 {
            0
        } else {
            Self::sum(latencies.drop_last()) + latencies.last() as nat
        }
    }

    /// The average of the latencies, or 0 where there is none.
    pub open spec fn average(latencies: Seq<u64>) -> Number {
        if latencies.len() == 0 {
            Number::zero(false)
        } else {
            Number::integer(Self::sum(latencies)).over(Number::integer(latencies.len()))
        }
    }
}

impl Default for ServiceMetrics {
    fn default() -> (r: Self)
        ensures
            r@ == Counters::zero(),
    {
        ServiceMetrics {
            total_requests: 0,
            in_flight: 0,
            active_count: 0,
            queue_depth: 0,
            total_errors: 0,
            recent_latencies: VecDeque::new(),
            cpu_requests: 0,
            mem_requests: 0,
            mixed_requests: 0,
        }
    }
}

impl ServiceMetrics {
    /// Counts a request that is over.
    pub fn record_request(&mut self, latency_ms: u64, success: bool)
        ensures
            final(self)@ == old(self)@.recorded(latency_ms, success),
            old(self)@.wf() ==> final(self)@.wf(),
    {
        self.total_requests = self.total_requests.wrapping_add(1);
        if !success {
            self.total_errors = self.total_errors.wrapping_add(1);
        } else {
            let ghost before = self.recent_latencies@;
            if self.recent_latencies.len() >= LATENCY_WINDOW {
                let _ = self.recent_latencies.pop_front();
                assert(self.recent_latencies@ =~= before.drop_first());
            }
            self.recent_latencies.push_back(latency_ms);
        }
    }

    /// A client has connected.
    pub fn connect(&mut self)
        ensures
            final(self)@ == old(self)@.connected(),
    {
        self.in_flight = self.in_flight.wrapping_add(1);
    }

    /// A connection is over.
    pub fn disconnect(&mut self)
        ensures
            final(self)@ == old(self)@.disconnected(),
    {
        self.in_flight = self.in_flight.wrapping_sub(1);
    }

    /// Takes what a client has sent, which is empty where nothing could be read. Says what is to
    /// be done about it.
    pub fn receive(&mut self, request: &[u8]) -> (r: Reception)
        ensures
            if request@.len() == 0 {
                r is Close && final(self)@ == old(self)@.disconnected()
            } else if Route::of_bytes(request@).is_immediate() {
                r == Reception::Answer(Route::of_bytes(request@)) && final(self)@ == old(self)@
            } else {
                r == Reception::Queue(Route::of_bytes(request@)) && final(self)@ == old(
                    self,
                )@.queued()
            },
    {
        if request.len() == 0 {
            self.disconnect();
            return Reception::Close;
        }
        let route: Route = classify(request);
        match route {
            Route::CpuHeavy | Route::MemHeavy | Route::Mixed | Route::Unknown => {
                self.enqueue();
                Reception::Queue(route)
            },
            _ => Reception::Answer(route),
        }
    }

    /// A request waits for a slot.
    pub fn enqueue(&mut self)
        ensures
            final(self)@ == old(self)@.queued(),
    {
        self.queue_depth = self.queue_depth.wrapping_add(1);
    }

    /// A request has got its slot.
    pub fn start(&mut self, route: Route)
        ensures
            final(self)@ == old(self)@.started(route),
    {
        self.queue_depth = self.queue_depth.wrapping_sub(1);
        self.active_count = self.active_count.wrapping_add(1);
        match route {
            Route::CpuHeavy => {
                self.cpu_requests = self.cpu_requests.wrapping_add(1);
            },
            Route::MemHeavy => {
                self.mem_requests = self.mem_requests.wrapping_add(1);
            },
            Route::Mixed => {
                self.mixed_requests = self.mixed_requests.wrapping_add(1);
            },
            _ => {},
        }
    }

    /// A request that held a slot has been answered: with success, if its path is known.
    pub fn finish(&mut self, route: Route, latency_ms: u64)
        ensures
            final(self)@ == old(self)@.finished(latency_ms, route.is_work()),
            old(self)@.wf() ==> final(self)@.wf(),
    {
        let success: bool = match route {
            Route::CpuHeavy => true,
            Route::MemHeavy => true,
            Route::Mixed => true,
            _ => false,
        };
        self.active_count = self.active_count.wrapping_sub(1);
        self.record_request(latency_ms, success);
        self.disconnect();
    }

    /// A request has been answered without a slot.
    pub fn answer(&mut self, route: Route)
        ensures
            final(self)@ == old(self)@.answered(route),
            old(self)@.wf() ==> final(self)@.wf(),
    {
        match route {
            Route::Metrics => {},
            Route::Health => {},
            _ => {
                self.record_request(0, false);
            },
        }
        self.disconnect();
    }

    /// The sum of the latencies in the window, unless it is over `u64::MAX`.
    pub fn latency_sum(&self) -> (r: Option<u64>)
        ensures
            match r {
                Some(sum) => sum == Counters::sum(self@.recent_latencies),
                None => Counters::sum(self@.recent_latencies) > u64::MAX,
            },
    {
        let mut sum: u64 = 0;
        let mut i: usize = 0;
        assert(self.recent_latencies@.take(0) =~= Seq::<u64>::empty());
        while i < self.recent_latencies.len()
            invariant
                i <= self.recent_latencies@.len(),
                sum == Counters::sum(self.recent_latencies@.take(i as int)),
            decreases self.recent_latencies@.len() - i,
        {
            proof {
                let more = self.recent_latencies@.take(i + 1);
                assert(more.drop_last() =~= self.recent_latencies@.take(i as int));
                lemma_sum_grows(self.recent_latencies@, i + 1);
            }
            match sum.checked_add(self.recent_latencies[i]) {
                Some(more) => {
                    sum = more;
                },
                None => {
                    return None;
                },
            }
            i = i + 1;
        }
        assert(self.recent_latencies@.take(i as int) =~= self.recent_latencies@);
        Some(sum)
    }

    /// The average latency over the window.
    pub fn avg_latency_ms(&self) -> (r: Double)
        requires
            Counters::sum(self@.recent_latencies) <= u64::MAX,
        ensures
            r@ == Counters::average(self@.recent_latencies),
    {
        if self.recent_latencies.len() == 0 {
            return Double::from_bits(0);
        }
        let sum: u64 = match self.latency_sum() {
            Some(sum) => sum,
            None => 0,
        };
        Double::from_u64(sum).div(Double::from_u64(self.recent_latencies.len() as u64))
    }
}

proof fn lemma_sum_grows(latencies: Seq<u64>, n: int)
    requires
        0 <= n <= latencies.len(),
    ensures
        Counters::sum(latencies.take(n)) <= Counters::sum(latencies),
    decreases latencies.len(),
{
    if n < latencies.len() {
        assert(latencies.drop_last().take(n) =~= latencies.take(n));
        lemma_sum_grows(latencies.drop_last(), n);
    } else {
        assert(latencies.take(n) =~= latencies);
    }
}

/// A number that the service reports beside its own counters.
#[derive(Clone, Copy, Debug)]
pub struct ProcessFigures {
    pub max_concurrency: usize,
    pub active: usize,
    pub os_cpu_ticks: u64,
    pub rss_kb: u64,
}

impl Counters {
    /// A line of the report.
    pub open spec fn line(key: Seq<char>, value: Seq<char>) -> Seq<char> {
        key + "="@ + value
    }

    pub open spec fn count_line(key: Seq<char>, value: nat) -> Seq<char> {
        Self::line(key, Text::decimal(value))
    }

    /// The lines of the report, one for each counter. The latency is already written out.
    pub open spec fn report_lines(self, latency: Seq<char>, figures: ProcessFigures) -> Seq<
        Seq<char>,
    > {
        seq![
            Self::count_line("requests_total"@, self.total_requests as nat),
            Self::count_line("in_flight"@, self.in_flight as nat),
            Self::count_line("errors_total"@, self.total_errors as nat),
            Self::line("avg_latency_ms"@, latency),
            Self::count_line("max_concurrency"@, figures.max_concurrency as nat),
            Self::count_line("active_count"@, figures.active as nat),
            Self::count_line("queue_depth"@, self.queue_depth as nat),
            Self::count_line("cpu_requests"@, self.cpu_requests as nat),
            Self::count_line("mem_requests"@, self.mem_requests as nat),
            Self::count_line("mixed_requests"@, self.mixed_requests as nat),
            Self::count_line("os_cpu_ticks"@, figures.os_cpu_ticks as nat),
            Self::count_line("rss_kb"@, figures.rss_kb as nat),
        ]
    }
}

fn text_line(key: &str, value: &str) -> (r: String)
    ensures
        r@ == Counters::line(key@, value@),
{
    String::from_str(key).concat("=").concat(value)
}

fn number_line(key: &str, value: u64) -> (r: String)
    ensures
        r@ == Counters::count_line(key@, value as nat),
{
    text_line(key, Text::to_decimal(value).as_str())
}

impl ServiceMetrics {
    /// The report of the service. `latency` is the average latency, written with two decimals.
    pub fn report(&self, latency: &str, figures: &ProcessFigures) -> (r: String)
        ensures
            r@ == Text::ended(self@.report_lines(latency@, *figures)),
    {
        let lines: Vec<String> = vec![
            number_line("requests_total", self.total_requests),
            number_line("in_flight", self.in_flight as u64),
            number_line("errors_total", self.total_errors),
            text_line("avg_latency_ms", latency),
            number_line("max_concurrency", figures.max_concurrency as u64),
            number_line("active_count", figures.active as u64),
            number_line("queue_depth", self.queue_depth as u64),
            number_line("cpu_requests", self.cpu_requests),
            number_line("mem_requests", self.mem_requests),
            number_line("mixed_requests", self.mixed_requests),
            number_line("os_cpu_ticks", figures.os_cpu_ticks),
            number_line("rss_kb", figures.rss_kb),
        ];
        assert(Text::texts(lines@) =~= self@.report_lines(latency@, *figures));
        Text::end_lines(&lines)
    }
}

/// A slot that is taken and given back leaves the semaphore as it was.
pub proof fn law_slot_returned(before: Semaphore, held: Semaphore, after: Semaphore)
    requires
        before.wf(),
        before.taken() < before.slots(),
        held.slots() == before.slots(),
        held.taken() == before.taken() + 1,
        after.slots() == held.slots(),
        after.taken() == held.taken() - 1,
    ensures
        after == before,
{
}

/// A request that was queued, served and answered leaves nothing behind but its record: it is
/// counted once, as an error if its path is unknown.
pub proof fn law_request_leaves_its_record(before: Counters, route: Route, latency_ms: u64)
    requires
        !route.is_immediate(),
    ensures
        ({
            let after = before.connected().queued().started(route).finished(
                latency_ms,
                route.is_work(),
            );
            &&& after.in_flight == before.in_flight
            &&& after.queue_depth == before.queue_depth
            &&& after.active_count == before.active_count
            &&& after.total_requests == before.total_requests.wrapping_add(1)
            &&& after.total_errors == (if route is Unknown {
                before.total_errors.wrapping_add(1)
            } else {
                before.total_errors
            })
            &&& after.recent_latencies == (if route is Unknown {
                before.recent_latencies
            } else {
                Counters::with_latency(before.recent_latencies, latency_ms)
            })
        }),
{
}

/// A request that was answered at once leaves nothing behind but, if it was refused, an error.
pub proof fn law_answer_leaves_its_record(before: Counters, route: Route)
    requires
        route.is_immediate(),
    ensures
        ({
            let after = before.connected().answered(route);
            if route is Metrics || route is Health {
                after == before
            } else {
                after == before.recorded(0, false)
            }
        }),
{
}

/// The window holds the last latencies: after a success the newest is last, and of the older
/// ones only the oldest may be gone.
pub proof fn law_window_keeps_last(window: Seq<u64>, latency_ms: u64)
    requires
        window.len() <= LATENCY_WINDOW,
    ensures
        ({
            let next = Counters::with_latency(window, latency_ms);
            let all = window.push(latency_ms);
            &&& next.len() == (if all.len() < LATENCY_WINDOW {
                all.len()
            } else {
                LATENCY_WINDOW as nat
            })
            &&& next == all.skip(all.len() - next.len())
        }),
{
    let next = Counters::with_latency(window, latency_ms);
    let all = window.push(latency_ms);
    assert(next =~= all.skip(all.len() - next.len()));
}

/// A request that is served is counted by its kind; one that is answered at once is not.
pub proof fn law_requests_by_kind(before: Counters, route: Route, latency_ms: u64)
    ensures
        ({
            let after = before.connected().queued().started(route).finished(
                latency_ms,
                route.is_work(),
            );
            &&& after.cpu_requests == (if route is CpuHeavy {
                before.cpu_requests.wrapping_add(1)
            } else {
                before.cpu_requests
            })
            &&& after.mem_requests == (if route is MemHeavy {
                before.mem_requests.wrapping_add(1)
            } else {
                before.mem_requests
            })
            &&& after.mixed_requests == (if route is Mixed {
                before.mixed_requests.wrapping_add(1)
            } else {
                before.mixed_requests
            })
        }),
        ({
            let after = before.connected().answered(route);
            &&& after.cpu_requests == before.cpu_requests
            &&& after.mem_requests == before.mem_requests
            &&& after.mixed_requests == before.mixed_requests
            &&& after.queue_depth == before.queue_depth
            &&& after.active_count == before.active_count
            &&& after.in_flight == before.in_flight
            &&& after.recent_latencies == before.recent_latencies
            &&& after.total_requests == (if route is Metrics || route is Health {
                before.total_requests
            } else {
                before.total_requests.wrapping_add(1)
            })
            &&& after.total_errors == (if route is Metrics || route is Health {
                before.total_errors
            } else {
                before.total_errors.wrapping_add(1)
            })
        }),
{
}

/// While a request waits it is in the queue, and while it is served it is active instead.
pub proof fn law_waiting_then_active(before: Counters, route: Route)
    ensures
        before.queue_depth < usize::MAX ==> before.queued().queue_depth == before.queue_depth + 1,
        before.queued().active_count == before.active_count,
        before.queued().started(route).queue_depth == before.queue_depth,
        before.active_count < usize::MAX ==> before.queued().started(route).active_count
            == before.active_count + 1,
        before.in_flight < usize::MAX ==> before.connected().in_flight == before.in_flight + 1,
        before.connected().disconnected() == before,
        before.queued().started(route).total_requests == before.total_requests,
        before.queued().started(route).recent_latencies == before.recent_latencies,
{
}

/// Which requests are served with a slot, and which of these are work.
pub proof fn law_kinds_of_requests(route: Route)
    ensures
        route.is_work() == (route is CpuHeavy || route is MemHeavy || route is Mixed),
        route.is_immediate() == (route is Metrics || route is Health || route is NotAllowed
            || route is Malformed || route is InvalidText),
{
}

/// Each line of a report tells the counter that its key names.
pub proof fn law_lines_of_report(counters: Counters, latency: Seq<char>, figures: ProcessFigures)
    ensures
        ({
            let lines = counters.report_lines(latency, figures);
            &&& lines.len() == 12
            &&& lines[0] == "requests_total"@ + "="@ + Text::decimal(counters.total_requests as nat)
            &&& lines[1] == "in_flight"@ + "="@ + Text::decimal(counters.in_flight as nat)
            &&& lines[2] == "errors_total"@ + "="@ + Text::decimal(counters.total_errors as nat)
            &&& lines[3] == "avg_latency_ms"@ + "="@ + latency
            &&& lines[4] == "max_concurrency"@ + "="@ + Text::decimal(
                figures.max_concurrency as nat,
            )
            &&& lines[5] == "active_count"@ + "="@ + Text::decimal(figures.active as nat)
            &&& lines[6] == "queue_depth"@ + "="@ + Text::decimal(counters.queue_depth as nat)
            &&& lines[7] == "cpu_requests"@ + "="@ + Text::decimal(counters.cpu_requests as nat)
            &&& lines[8] == "mem_requests"@ + "="@ + Text::decimal(counters.mem_requests as nat)
            &&& lines[9] == "mixed_requests"@ + "="@ + Text::decimal(
                counters.mixed_requests as nat,
            )
            &&& lines[10] == "os_cpu_ticks"@ + "="@ + Text::decimal(figures.os_cpu_ticks as nat)
            &&& lines[11] == "rss_kb"@ + "="@ + Text::decimal(figures.rss_kb as nat)
        }),
{
}

} // verus!
