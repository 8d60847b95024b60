use vstd::prelude::*;
use vstd::slice::slice_subrange;

use crate::double::{Double, Number};
use crate::shared::metrics::Metrics;
use crate::shared::types::{SystemState, TargetState};
use crate::text::Text;

verus! {

/// What a worker reports, or what several report together.
#[derive(Clone, Copy, Debug)]
pub struct InstanceMetrics {
    pub total_requests: u64,
    pub errors: u64,
    pub avg_latency_ms: Double,
    pub max_concurrency: usize,
    pub active_count: usize,
    pub queue_depth: usize,
    pub os_cpu_ticks: u64,
    pub rss_kb: u64,
}

impl Default for InstanceMetrics {
    fn default() -> (r: Self)
        ensures
            r.total_requests == 0,
            r.errors == 0,
            r.avg_latency_ms@ == Number::zero(false),
            r.max_concurrency == 0,
            r.active_count == 0,
            r.queue_depth == 0,
            r.os_cpu_ticks == 0,
            r.rss_kb == 0,
    {
        InstanceMetrics {
            total_requests: 0,
            errors: 0,
            avg_latency_ms: Double::from_bits(0),
            max_concurrency: 0,
            active_count: 0,
            queue_depth: 0,
            os_cpu_ticks: 0,
            rss_kb: 0,
        }
    }
}

/// A worker's report as it was read. The latency is still text.
#[derive(Clone, Debug)]
pub struct Reading {
    pub total_requests: u64,
    pub errors: u64,
    pub latency: Option<String>,
    pub max_concurrency: usize,
    pub active_count: usize,
    pub queue_depth: usize,
    pub os_cpu_ticks: u64,
    pub rss_kb: u64,
}

/// A reading as a value.
pub struct Figures {
    pub total_requests: nat,
    pub errors: nat,
    pub latency: Option<Seq<char>>,
    pub max_concurrency: nat,
    pub active_count: nat,
    pub queue_depth: nat,
    pub os_cpu_ticks: nat,
    pub rss_kb: nat,
}

impl View for Reading {
    type V = Figures;

    open spec fn view(&self) -> Figures {
        Figures {
            total_requests: self.total_requests as nat,
            errors: self.errors as nat,
            latency: match self.latency {
                Some(text) => Some(text@),
                None => None,
            },
            max_concurrency: self.max_concurrency as nat,
            active_count: self.active_count as nat,
            queue_depth: self.queue_depth as nat,
            os_cpu_ticks: self.os_cpu_ticks as nat,
            rss_kb: self.rss_kb as nat,
        }
    }
}

impl Figures {
    pub open spec fn nothing() -> Figures {
        Figures {
            total_requests: 0,
            errors: 0,
            latency: None,
            max_concurrency: 0,
            active_count: 0,
            queue_depth: 0,
            os_cpu_ticks: 0,
            rss_kb: 0,
        }
    }

    /// What stands before the first equals sign of a line.
    pub open spec fn key(line: Seq<char>) -> Seq<char> {
        Text::trimmed(line.take(Text::position(line, '=') as int))
    }

    /// What stands behind the first equals sign of a line.
    pub open spec fn value(line: Seq<char>) -> Seq<char> {
        let at = Text::position(line, '=');
        if at < line.len() {
            Text::trimmed(line.skip(at as int + 1))
        } else {
            Seq::empty()
        }
    }

    /// The count that a text denotes, or another where it denotes none.
    pub open spec fn count(text: Seq<char>, max: nat, otherwise: nat) -> nat {
        match Text::number(text, max) {
            Some(n) => n,
            None => otherwise,
        }
    }

    /// The figures once one more line has been read.
    pub open spec fn with_line(self, line: Seq<char>) -> Figures {
        let key = Self::key(line);
        let value = Self::value(line);
        if value.len() == 0 {
            self
        } else if key == "requests_total"@ {
            Figures { total_requests: Self::count(value, u64::MAX as nat, 0), ..self }
        } else if key == "errors_total"@ {
            Figures { errors: Self::count(value, u64::MAX as nat, 0), ..self }
        } else if key == "avg_latency_ms"@ {
            Figures { latency: Some(value), ..self }
        } else if key == "max_concurrency"@ {
            Figures { max_concurrency: Self::count(value, usize::MAX as nat, 1), ..self }
        } else if key == "active_count"@ {
            Figures { active_count: Self::count(value, usize::MAX as nat, 0), ..self }
        } else if key == "queue_depth"@ {
            Figures { queue_depth: Self::count(value, usize::MAX as nat, 0), ..self }
        } else if key == "os_cpu_ticks"@ {
            Figures { os_cpu_ticks: Self::count(value, u64::MAX as nat, 0), ..self }
        } else if key == "rss_kb"@ {
            Figures { rss_kb: Self::count(value, u64::MAX as nat, 0), ..self }
        } else {
            self
        }
    }

    /// The figures once some lines have been read, one after another.
    pub open spec fn of_lines(lines: Seq<Seq<char>>) -> Figures
        decreases lines.len(),
    {
        if lines.len() == 0 {
            Self::nothing()
        } else {
            Self::of_lines(lines.drop_last()).with_line(lines.last())
        }
    }
}

fn count(text: &[char], otherwise: u64) -> (r: u64)
    ensures
        r == Figures::count(text@, u64::MAX as nat, otherwise as nat),
{
    match Text::parse(text, u64::MAX) {
        Some(n) => n,
        None => otherwise,
    }
}

fn size(text: &[char], otherwise: usize) -> (r: usize)
    ensures
        r == Figures::count(text@, usize::MAX as nat, otherwise as nat),
{
    match Text::parse(text, usize::MAX as u64) {
        Some(n) => n as usize,
        None => otherwise,
    }
}

impl Reading {
    fn add_line(&mut self, line: &[char])
        ensures
            final(self)@ == old(self)@.with_line(line@),
    {
        let at: usize = Text::find(line, '=');
        proof {
            crate::text::lemma_position(line@, '=');
        }
        let start: &[char] = slice_subrange(line, 0, at);
        assert(start@ =~= line@.take(at as int));
        let key: &[char] = Text::trim(start);
        if at >= line.len() {
            return;
        }
        let rest: &[char] = slice_subrange(line, at + 1, line.len());
        assert(rest@ =~= line@.skip(at + 1));
        let value: &[char] = Text::trim(rest);
        if value.len() == 0 {
            return;
        }
        if Text::same(key, "requests_total") {
            self.total_requests = count(value, 0);
        } else if Text::same(key, "errors_total") {
            self.errors = count(value, 0);
        } else if Text::same(key, "avg_latency_ms") {
            self.latency = Some(Text::string(value));
        } else if Text::same(key, "max_concurrency") {
            self.max_concurrency = size(value, 1);
        } else if Text::same(key, "active_count") {
            self.active_count = size(value, 0);
        } else if Text::same(key, "queue_depth") {
            self.queue_depth = size(value, 0);
        } else if Text::same(key, "os_cpu_ticks") {
            self.os_cpu_ticks = count(value, 0);
        } else if Text::same(key, "rss_kb") {
            self.rss_kb = count(value, 0);
        }
    }

    /// Reads a worker's report, `key=value` line by line.
    ///
    /// A key that occurs more than once counts where it occurs last. Lines without a value, and
    /// keys that are not known, are passed over.
    pub fn parse(body: &str) -> (r: Reading)
        ensures
            r@ == Figures::of_lines(Text::lines(body@)),
    {
        let chars: Vec<char> = Text::chars(body);
        let lines: Vec<Vec<char>> = Text::split_lines(chars.as_slice());
        let ghost texts = Text::contents(lines@);
        let mut r: Reading = Reading {
            total_requests: 0,
            errors: 0,
            latency: None,
            max_concurrency: 0,
            active_count: 0,
            queue_depth: 0,
            os_cpu_ticks: 0,
            rss_kb: 0,
        };
        let mut i: usize = 0;
        assert(texts.take(0) =~= Seq::<Seq<char>>::empty());
        assert(r@ == Figures::of_lines(texts.take(0)));
        while i < lines.len()
            invariant
                i <= lines@.len(),
                texts == Text::contents(lines@),
                r@ == Figures::of_lines(texts.take(i as int)),
            decreases lines@.len() - i,
        {
            proof {
                assert(texts.take(i + 1).drop_last() =~= texts.take(i as int));
                assert(texts.take(i + 1).last() == lines@[i as int]@);
            }
            r.add_line(lines[i].as_slice());
            i = i + 1;
        }
        assert(texts.take(i as int) =~= texts);
        r
    }

    /// The metrics, with the latency that its text denotes.
    pub fn with_latency(&self, avg_latency_ms: Double) -> (r: InstanceMetrics)
        ensures
            r == (InstanceMetrics {
                total_requests: self.total_requests,
                errors: self.errors,
                avg_latency_ms,
                max_concurrency: self.max_concurrency,
                active_count: self.active_count,
                queue_depth: self.queue_depth,
                os_cpu_ticks: self.os_cpu_ticks,
                rss_kb: self.rss_kb,
            }),
    {
        InstanceMetrics {
            total_requests: self.total_requests,
            errors: self.errors,
            avg_latency_ms,
            max_concurrency: self.max_concurrency,
            active_count: self.active_count,
            queue_depth: self.queue_depth,
            os_cpu_ticks: self.os_cpu_ticks,
            rss_kb: self.rss_kb,
        }
    }
}

/// The URL of a worker's report.
pub fn metrics_url(base_url: &str) -> (r: String)
    ensures
        r@ == Text::without_trailing(base_url@, '/') + "/metrics"@,
{
    let chars: Vec<char> = Text::chars(base_url);
    Text::string(Text::trim_trailing(chars.as_slice(), '/')).concat("/metrics")
}

impl InstanceMetrics {
    /// The sum of one count over several workers.
    pub open spec fn sum(
        metrics: Seq<InstanceMetrics>,
        count: spec_fn(InstanceMetrics) -> nat,
    ) -> nat
        decreases metrics.len(),
    {
        if metrics.len() == 0 {
            0
        } else {
            Self::sum(metrics.drop_last(), count) + count(metrics.last())
        }
    }

    /// The latencies of several workers, added up one after another.
    pub open spec fn latencies(metrics: Seq<InstanceMetrics>) -> Number
        decreases metrics.len(),
    {
        if metrics.len() == 0 {
            Number::zero(false)
        } else {
            Self::latencies(metrics.drop_last()).plus(metrics.last().avg_latency_ms@)
        }
    }

    pub open spec fn total_of(metrics: Seq<InstanceMetrics>) -> nat {
        Self::sum(metrics, |m: InstanceMetrics| m.total_requests as nat)
    }

    pub open spec fn errors_of(metrics: Seq<InstanceMetrics>) -> nat {
        Self::sum(metrics, |m: InstanceMetrics| m.errors as nat)
    }

    pub open spec fn max_concurrency_of(metrics: Seq<InstanceMetrics>) -> nat {
        Self::sum(metrics, |m: InstanceMetrics| m.max_concurrency as nat)
    }

    pub open spec fn active_of(metrics: Seq<InstanceMetrics>) -> nat {
        Self::sum(metrics, |m: InstanceMetrics| m.active_count as nat)
    }

    pub open spec fn queue_of(metrics: Seq<InstanceMetrics>) -> nat {
        Self::sum(metrics, |m: InstanceMetrics| m.queue_depth as nat)
    }

    /// Do the sums of the counts of requests and slots fit?
    pub open spec fn sums_fit(metrics: Seq<InstanceMetrics>) -> bool {
        &&& Self::total_of(metrics) <= u64::MAX
        &&& Self::errors_of(metrics) <= u64::MAX
        &&& Self::max_concurrency_of(metrics) <= usize::MAX
        &&& Self::active_of(metrics) <= usize::MAX
        &&& Self::queue_of(metrics) <= usize::MAX
    }

    /// The average latency of several workers.
    pub open spec fn mean_latency(metrics: Seq<InstanceMetrics>) -> Number {
        if metrics.len() == 0 {
            Number::zero(false)
        } else {
            Self::latencies(metrics).over(Number::integer(metrics.len()))
        }
    }

    /// Does this hold the sums of what several workers report of requests and slots?
    pub open spec fn sums_up(self, metrics: Seq<InstanceMetrics>) -> bool {
        &&& self.total_requests == Self::total_of(metrics)
        &&& self.errors == Self::errors_of(metrics)
        &&& self.max_concurrency == Self::max_concurrency_of(metrics)
        &&& self.active_count == Self::active_of(metrics)
        &&& self.queue_depth == Self::queue_of(metrics)
        &&& self.os_cpu_ticks == 0
        &&& self.rss_kb == 0
    }

    /// Adds what one more worker reports of requests and slots, if the sums fit.
    fn checked_add(self, other: InstanceMetrics) -> (r: Option<InstanceMetrics>)
        ensures
            match r {
                Some(sum) => {
                    &&& sum.total_requests == self.total_requests + other.total_requests
                    &&& sum.errors == self.errors + other.errors
                    &&& sum.avg_latency_ms@ == self.avg_latency_ms@.plus(other.avg_latency_ms@)
                    &&& sum.max_concurrency == self.max_concurrency + other.max_concurrency
                    &&& sum.active_count == self.active_count + other.active_count
                    &&& sum.queue_depth == self.queue_depth + other.queue_depth
                    &&& sum.os_cpu_ticks == self.os_cpu_ticks
                    &&& sum.rss_kb == self.rss_kb
                },
                None => {
                    ||| self.total_requests + other.total_requests > u64::MAX
                    ||| self.errors + other.errors > u64::MAX
                    ||| self.max_concurrency + other.max_concurrency > usize::MAX
                    ||| self.active_count + other.active_count > usize::MAX
                    ||| self.queue_depth + other.queue_depth > usize::MAX
                },
            },
    {
        let fits: bool = self.total_requests <= u64::MAX - other.total_requests && self.errors
            <= u64::MAX - other.errors && self.max_concurrency <= usize::MAX
            - other.max_concurrency && self.active_count <= usize::MAX - other.active_count
            && self.queue_depth <= usize::MAX - other.queue_depth;
        if !fits {
            return None;
        }
        Some(
            InstanceMetrics {
                total_requests: self.total_requests + other.total_requests,
                errors: self.errors + other.errors,
                avg_latency_ms: self.avg_latency_ms.add(other.avg_latency_ms),
                max_concurrency: self.max_concurrency + other.max_concurrency,
                active_count: self.active_count + other.active_count,
                queue_depth: self.queue_depth + other.queue_depth,
                os_cpu_ticks: self.os_cpu_ticks,
                rss_kb: self.rss_kb,
            },
        )
    }

    /// What the workers report of requests and slots together: sums, and the average of their
    /// latencies. There is nothing where a sum does not fit.
    pub fn aggregate(metrics: &Vec<InstanceMetrics>) -> (r: Option<InstanceMetrics>)
        ensures
            r is Some == Self::sums_fit(metrics@),
            r matches Some(sum) ==> sum.sums_up(metrics@) && sum.avg_latency_ms@
                == Self::mean_latency(metrics@),
    {
        let mut sum: InstanceMetrics = InstanceMetrics::default();
        let mut i: usize = 0;
        assert(metrics@.take(0) =~= Seq::<InstanceMetrics>::empty());
        while i < metrics.len()
            invariant
                i <= metrics@.len(),
                sum.sums_up(metrics@.take(i as int)),
                sum.avg_latency_ms@ == Self::latencies(metrics@.take(i as int)),
            decreases metrics@.len() - i,
        {
            proof {
                assert(metrics@.take(i + 1).drop_last() =~= metrics@.take(i as int));
                assert(metrics@.take(i + 1).last() == metrics@[i as int]);
            }
            match sum.checked_add(metrics[i]) {
                Some(more) => {
                    sum = more;
                },
                None => {
                    proof {
                        lemma_sums_grow(metrics@, i + 1);
                    }
                    return None;
                },
            }
            i = i + 1;
        }
        assert(metrics@.take(i as int) =~= metrics@);
        if metrics.len() > 0 {
            sum.avg_latency_ms = sum.avg_latency_ms.div(Double::from_u64(metrics.len() as u64));
        }
        Some(sum)
    }

    /// A share of the slots in percent, from 1 to 100. It is 1 where there are no slots.
    pub open spec fn percentage(part: usize, whole: usize) -> Number {
        if whole > 0 {
            Number::integer(part as nat).over(Number::integer(whole as nat)).times(
                Number::integer(100),
            ).clamped(Number::integer(1), Number::integer(100))
        } else {
            Number::integer(1)
        }
    }

    fn percent(part: usize, whole: usize) -> (r: Double)
        ensures
            r@ == Self::percentage(part, whole),
    {
        if whole > 0 {
            proof {
                crate::double::laws::law_integers_ordered(1, 100);
            }
            Double::from_u64(part as u64).div(Double::from_u64(whole as u64)).mul(
                Double::from_u32(100),
            ).clamp(Double::from_u32(1), Double::from_u32(100))
        } else {
            Double::from_u32(1)
        }
    }

    /// Is `state` what these metrics say of the system at second `t`?
    pub open spec fn shows_state(
        self,
        t: u32,
        delta: u64,
        workers: usize,
        target: TargetState,
        state: SystemState,
    ) -> bool {
        &&& state.time_s == t
        &&& state.incoming_rps@ == Number::integer(delta as nat)
        &&& state.incoming_requests == delta as u32
        &&& state.waiting_requests == self.queue_depth as u32
        &&& state.dropped_requests == 0
        &&& state.num_replicas == workers as u32
        &&& state.cpu_per_replica == target.cpu_per_replica
        &&& state.mem_per_replica == target.mem_per_replica
        &&& state.cpu_util@ == Self::percentage(self.active_count, self.max_concurrency)
        &&& state.mem_util@ == Self::percentage(self.queue_depth, self.max_concurrency)
    }

    /// The state of the system at second `t`, in which `delta` requests have come since the
    /// second before. A full queue is seen as a lack of memory.
    pub fn to_state(&self, t: u32, delta: u64, workers: usize, target: &TargetState) -> (r:
        SystemState)
        ensures
            self.shows_state(t, delta, workers, *target, r),
    {
        let mut state: SystemState = SystemState::default();
        state.time_s = t;
        state.incoming_rps = Double::from_u64(delta);
        state.incoming_requests = delta as u32;
        state.waiting_requests = self.queue_depth as u32;
        state.num_replicas = workers as u32;
        state.cpu_per_replica = target.cpu_per_replica;
        state.mem_per_replica = target.mem_per_replica;
        state.cpu_util = Self::percent(self.active_count, self.max_concurrency);
        state.mem_util = Self::percent(self.queue_depth, self.max_concurrency);
        state
    }

    /// Are `metrics` the latency and the queue that these metrics show?
    pub open spec fn shows_metrics(self, metrics: Metrics) -> bool {
        &&& metrics.avg_latency_ms == self.avg_latency_ms
        &&& metrics.p99_latency_ms@ == self.avg_latency_ms@.times(Number::ratio(15, 10))
        &&& metrics.queue_depth == self.queue_depth as u32
    }

    /// The latency and the queue. The 99th percentile is taken to be half as much again as the
    /// average.
    pub fn to_metrics(&self) -> (r: Metrics)
        ensures
            self.shows_metrics(r),
    {
        Metrics {
            avg_latency_ms: self.avg_latency_ms,
            p99_latency_ms: self.avg_latency_ms.mul(Double::ratio(15, 10)),
            queue_depth: self.queue_depth as u32,
        }
    }
}

pub proof fn lemma_sum_grows(
    metrics: Seq<InstanceMetrics>,
    count: spec_fn(InstanceMetrics) -> nat,
    n: int,
)
    requires
        0 <= n <= metrics.len(),
    ensures
        InstanceMetrics::sum(metrics.take(n), count) <= InstanceMetrics::sum(metrics, count),
    decreases metrics.len(),
{
    if n < metrics.len() {
        assert(metrics.drop_last().take(n) =~= metrics.take(n));
        lemma_sum_grows(metrics.drop_last(), count, n);
    } else {
        assert(metrics.take(n) =~= metrics);
    }
}

proof fn lemma_sums_grow(metrics: Seq<InstanceMetrics>, n: int)
    requires
        0 <= n <= metrics.len(),
    ensures
        InstanceMetrics::sums_fit(metrics) ==> InstanceMetrics::sums_fit(metrics.take(n)),
{
    lemma_sum_grows(metrics, |m: InstanceMetrics| m.total_requests as nat, n);
    lemma_sum_grows(metrics, |m: InstanceMetrics| m.errors as nat, n);
    lemma_sum_grows(metrics, |m: InstanceMetrics| m.max_concurrency as nat, n);
    lemma_sum_grows(metrics, |m: InstanceMetrics| m.active_count as nat, n);
    lemma_sum_grows(metrics, |m: InstanceMetrics| m.queue_depth as nat, n);
}

/// The share of the slots in percent is never under 1 nor over 100.
pub proof fn law_percentage_in_range(part: usize, whole: usize)
    ensures
        Number::integer(1).at_most(InstanceMetrics::percentage(part, whole)),
        InstanceMetrics::percentage(part, whole).at_most(Number::integer(100)),
{
    crate::double::laws::law_integers_ordered(1, 100);
    crate::double::laws::law_integers_exact(1);
    crate::double::laws::law_integers_exact(100);
    crate::double::laws::lemma_not_zero(100);
    crate::double::laws::law_rounding_representable(false, part as nat, 1);
    crate::double::laws::law_rounding_representable(false, whole as nat, 1);
    let a = Number::integer(part as nat);
    let b = Number::integer(whole as nat);
    if whole > 0 {
        lemma_size_is_finite(part);
        lemma_size_is_finite(whole);
        crate::double::laws::law_rounding_representable(false, a.magnitude(), b.magnitude());
    }
}

/// The number of a count of slots is finite, and not zero unless the count is.
proof fn lemma_size_is_finite(n: usize)
    ensures
        Number::integer(n as nat) is Finite,
        n > 0 ==> !Number::integer(n as nat).is_zero() && Number::integer(n as nat).magnitude()
            > 0,
{
    let top = Number::Finite { negative: false, mantissa: 0x10_0000_0000_0000, exponent: 12 };
    let one = vstd::arithmetic::power2::pow2(1074);
    vstd::arithmetic::power2::lemma_pow2_adds(1074, 12);
    vstd::arithmetic::power2::lemma2_to64();
    vstd::arithmetic::power2::lemma_pow2_pos(1074);
    assert(top.magnitude() == 0x1_0000_0000_0000_0000 * one) by {
        assert(0x10_0000_0000_0000 * (one * 0x1000) == 0x1_0000_0000_0000_0000 * one);
    }
    assert(n * one <= (0x1_0000_0000_0000_0000 * one) * 1) by (nonlinear_arith)
        requires
            n <= 0x1_0000_0000_0000_0000,
    ;
    crate::double::laws::law_rounding_not_above(false, n as nat, 1, top);
    if n > 0 {
        crate::double::laws::law_integers_exact(1);
        assert((1 * one) * 1 <= n * one) by (nonlinear_arith)
            requires
                n >= 1,
        ;
        crate::double::laws::law_rounding_not_below(false, n as nat, 1, Number::integer(1));
    }
}

} // verus!
