//! What the figures of several workers say together, in plain integers.

use vstd::arithmetic::power2::*;
use vstd::prelude::*;

use crate::double::errors::gap;
use crate::double::{errors, laws, Number};
use crate::http::instance::InstanceMetrics;
use crate::shared::metrics::Metrics;
use crate::shared::types::{SystemState, TargetState};

verus! {

/// The sum of some integers.
pub open spec fn total(counts: Seq<nat>) -> nat
    decreases counts.len(),
{
    if counts.len() == 0 {
        0
    } else {
        counts[0] + total(counts.skip(1))
    }
}

/// The last of some integers is added like the first.
pub proof fn lemma_total_last(counts: Seq<nat>)
    requires
        counts.len() > 0,
    ensures
        total(counts) == total(counts.drop_last()) + counts.last(),
    decreases counts.len(),
{
    if counts.len() > 1 {
        lemma_total_last(counts.skip(1));
        assert(counts.skip(1).drop_last() =~= counts.drop_last().skip(1));
    } else {
        assert(total(counts.skip(1)) == 0);
        assert(total(counts.drop_last()) == 0);
    }
}

/// Changing one of some integers changes the sum by as much.
proof fn lemma_total_changed(counts: Seq<nat>, i: int, count: nat)
    requires
        0 <= i < counts.len(),
    ensures
        total(counts.update(i, count)) + counts[i] == total(counts) + count,
    decreases counts.len(),
{
    let changed = counts.update(i, count);
    if i == 0 {
        assert(changed.skip(1) =~= counts.skip(1));
    } else {
        assert(changed.skip(1) =~= counts.skip(1).update(i - 1, count));
        lemma_total_changed(counts.skip(1), i - 1, count);
    }
}

/// Do the workers report these whole latencies?
pub open spec fn whole_latencies(metrics: Seq<InstanceMetrics>, whole: Seq<nat>) -> bool {
    &&& whole.len() == metrics.len()
    &&& forall|i: int|
        0 <= i < metrics.len() ==> (#[trigger] metrics[i]).avg_latency_ms@ == Number::integer(
            whole[i],
        )
}

proof fn lemma_whole_sum(metrics: Seq<InstanceMetrics>, whole: Seq<nat>)
    requires
        whole_latencies(metrics, whole),
        total(whole) < 0x20_0000_0000_0000,
    ensures
        InstanceMetrics::latencies(metrics) == Number::integer(total(whole)),
    decreases metrics.len(),
{
    if metrics.len() == 0 {
        crate::double::arithmetic::lemma_nearest_zero(false, 1);
    } else {
        lemma_total_last(whole);
        assert(metrics.last() == metrics[metrics.len() - 1]);
        assert forall|i: int| 0 <= i < metrics.drop_last().len() implies (
        #[trigger] metrics.drop_last()[i]).avg_latency_ms@ == Number::integer(
            whole.drop_last()[i],
        ) by {
            assert(metrics[i].avg_latency_ms@ == Number::integer(whole[i]));
        }
        lemma_whole_sum(metrics.drop_last(), whole.drop_last());
        errors::law_integer_sum(total(whole.drop_last()), whole.last());
    }
}

/// The latency of several workers is the mean of theirs: of whole latencies it is the number
/// nearest to their sum over the number of workers.
pub proof fn law_latency_is_the_mean(metrics: Seq<InstanceMetrics>, whole: Seq<nat>)
    requires
        0 < metrics.len() < 0x20_0000_0000_0000,
        whole_latencies(metrics, whole),
        total(whole) < 0x20_0000_0000_0000,
    ensures
        InstanceMetrics::mean_latency(metrics) == Number::ratio(total(whole), metrics.len()),
{
    lemma_whole_sum(metrics, whole);
    errors::law_integer_quotient(total(whole), metrics.len());
}

/// It does not matter in which order the workers report whole latencies.
pub proof fn law_latency_in_any_order(
    metrics: Seq<InstanceMetrics>,
    whole: Seq<nat>,
    i: int,
    j: int,
)
    requires
        metrics.len() < 0x20_0000_0000_0000,
        whole_latencies(metrics, whole),
        total(whole) < 0x20_0000_0000_0000,
        0 <= i < metrics.len(),
        0 <= j < metrics.len(),
    ensures
        InstanceMetrics::mean_latency(metrics.update(i, metrics[j]).update(j, metrics[i]))
            == InstanceMetrics::mean_latency(metrics),
{
    let swapped = metrics.update(i, metrics[j]).update(j, metrics[i]);
    let counts = whole.update(i, whole[j]).update(j, whole[i]);
    lemma_total_changed(whole, i, whole[j]);
    lemma_total_changed(whole.update(i, whole[j]), j, whole[i]);
    assert(total(counts) == total(whole));
    assert(whole_latencies(swapped, counts)) by {
        assert forall|k: int| 0 <= k < swapped.len() implies (
        #[trigger] swapped[k]).avg_latency_ms@ == Number::integer(counts[k]) by {
            assert(metrics[i].avg_latency_ms@ == Number::integer(whole[i]));
            assert(metrics[j].avg_latency_ms@ == Number::integer(whole[j]));
            assert(metrics[k].avg_latency_ms@ == Number::integer(whole[k]));
        }
    }
    law_latency_is_the_mean(metrics, whole);
    law_latency_is_the_mean(swapped, counts);
}

/// The magnitudes of the latencies that the workers report.
pub open spec fn magnitudes(metrics: Seq<InstanceMetrics>) -> Seq<nat> {
    metrics.map_values(|m: InstanceMetrics| m.avg_latency_ms@.magnitude())
}

/// Is each latency a finite number of moderate size, not negative?
pub open spec fn moderate_latencies(metrics: Seq<InstanceMetrics>) -> bool {
    forall|i: int|
        0 <= i < metrics.len() ==> {
            &&& (#[trigger] metrics[i]).avg_latency_ms@ is Finite
            &&& !metrics[i].avg_latency_ms@.is_negative()
            &&& metrics[i].avg_latency_ms@.magnitude() <= 0x100_0000_0000 * pow2(1074)
        }
}

proof fn lemma_moderate_sum(metrics: Seq<InstanceMetrics>)
    requires
        metrics.len() <= 0x10_0000,
        moderate_latencies(metrics),
    ensures
        ({
            let n = metrics.len();
            let sum = InstanceMetrics::latencies(metrics);
            let exact = total(magnitudes(metrics));
            &&& sum is Finite
            &&& !sum.is_negative()
            &&& gap(sum.magnitude() as int, exact as int) * 0x20_0000_0000_0000 <= n * (2 * exact
                + 0x20_0000_0000_0000)
            &&& exact <= n * (0x100_0000_0000 * pow2(1074))
        }),
    decreases metrics.len(),
{
    let n = metrics.len() as int;
    let one = pow2(1074) as int;
    if metrics.len() == 0 {
        assert(magnitudes(metrics).len() == 0);
        assert(0 * pow2(0) == 0) by (nonlinear_arith);
        assert(0 * (2 * total(magnitudes(metrics)) + 0x20_0000_0000_0000) == 0)
            by (nonlinear_arith);
        assert(0 * (0x100_0000_0000 * pow2(1074)) == 0) by (nonlinear_arith);
    } else {
        errors::lemma_one_is_large();
        let before = metrics.drop_last();
        assert forall|i: int| 0 <= i < before.len() implies {
            &&& (#[trigger] before[i]).avg_latency_ms@ is Finite
            &&& !before[i].avg_latency_ms@.is_negative()
            &&& before[i].avg_latency_ms@.magnitude() <= 0x100_0000_0000 * pow2(1074)
        } by {
            assert(metrics[i].avg_latency_ms@ is Finite);
        }
        lemma_moderate_sum(before);
        lemma_total_last(magnitudes(metrics));
        assert(magnitudes(metrics).drop_last() =~= magnitudes(before));
        let last = metrics[metrics.len() - 1].avg_latency_ms@;
        let sum = InstanceMetrics::latencies(before);
        let c = sum.magnitude() as int;
        let e = total(magnitudes(before)) as int;
        let x = last.magnitude() as int;
        let s = 0x20_0000_0000_0000int;
        let m = n - 1;
        assert(n * (0x100_0000_0000 * one) == m * (0x100_0000_0000 * one) + 0x100_0000_0000
            * one) by (nonlinear_arith)
            requires
                m == n - 1,
        ;
        assert(m * (2 * e + s) <= 0x10_0000 * (2 * e + s)) by (nonlinear_arith)
            requires
                0 <= m <= 0x10_0000,
                e >= 0,
                s > 0,
        ;
        assert(m * (0x100_0000_0000 * one) <= 0x10_0000 * (0x100_0000_0000 * one))
            by (nonlinear_arith)
            requires
                0 <= m <= 0x10_0000,
                one > 0,
        ;
        assert(c <= 2 * e + 0x10_0000);
        errors::law_sum_error(sum, last);
        let next = sum.plus(last);
        lemma_sum_not_negative(sum, last);
        assert(n * (2 * (e + x) + s) == m * (2 * e + s) + 2 * (m * x) + 2 * (e + x) + s)
            by (nonlinear_arith)
            requires
                m == n - 1,
        ;
        assert(m * x >= 0) by (nonlinear_arith)
            requires
                m >= 0,
                x >= 0,
        ;
        assert(gap(next.magnitude() as int, c + x) * s <= c + x + 0x10_0000_0000_0000);
        assert(gap(next.magnitude() as int, e + x) <= gap(next.magnitude() as int, c + x) + gap(
            c,
            e,
        ));
    }
}

proof fn lemma_sum_not_negative(x: Number, y: Number)
    requires
        x is Finite,
        y is Finite,
        !x.is_negative(),
        !y.is_negative(),
        x.magnitude() + y.magnitude() <= 0x1_0000_0000_0000_0000 * pow2(1074),
    ensures
        !x.plus(y).is_negative(),
{
    lemma_pow2_pos(1074);
    if x.magnitude() + y.magnitude() > 0 {
        errors::lemma_moderate(false, x.magnitude() + y.magnitude(), pow2(1074));
    }
}

/// Whatever the latencies, their mean is off from the exact one by very little.
pub proof fn law_latency_is_near_the_mean(metrics: Seq<InstanceMetrics>)
    requires
        0 < metrics.len() <= 0x10_0000,
        moderate_latencies(metrics),
    ensures
        ({
            let n = metrics.len();
            let mean = InstanceMetrics::mean_latency(metrics);
            let exact = total(magnitudes(metrics));
            &&& mean is Finite
            &&& !mean.is_negative()
            &&& gap((mean.magnitude() * n) as int, exact as int) * 0x20_0000_0000_0000 <= (2 * n
                + 2) * (2 * exact + 0x20_0000_0000_0000)
        }),
{
    errors::lemma_one_is_large();
    lemma_moderate_sum(metrics);
    let n = metrics.len() as int;
    let one = pow2(1074) as int;
    let s = 0x20_0000_0000_0000int;
    let sum = InstanceMetrics::latencies(metrics);
    let c = sum.magnitude() as int;
    let e = total(magnitudes(metrics)) as int;
    laws::law_integers_exact(metrics.len());
    assert(n * one >= one) by (nonlinear_arith)
        requires
            n >= 1,
            one > 0,
    ;
    assert(n * (2 * e + s) <= 0x10_0000 * (2 * e + s)) by (nonlinear_arith)
        requires
            0 <= n <= 0x10_0000,
            e >= 0,
            s > 0,
    ;
    assert(c <= 2 * e + 0x10_0000);
    assert(n * (0x100_0000_0000 * one) == 0x100_0000_0000 * (n * one)) by (nonlinear_arith);
    errors::law_quotient_error(sum, Number::integer(metrics.len()));
    let mean = InstanceMetrics::mean_latency(metrics);
    let r = mean.magnitude() as int;
    let off = gap(r * n, c);
    assert(gap(r * (n * one), c * one) == off * one) by (nonlinear_arith)
        requires
            off == gap(r * n, c),
            one > 0,
    ;
    assert(off * s <= c + 0x10_0000_0000_0000 * n) by (nonlinear_arith)
        requires
            (off * one) * s <= c * one + 0x10_0000_0000_0000 * (n * one),
            one > 0,
    ;
    assert((2 * n + 2) * (2 * e + s) == 2 * (n * (2 * e + s)) + 2 * (2 * e + s))
        by (nonlinear_arith);
    assert(n * s <= n * (2 * e + s)) by (nonlinear_arith)
        requires
            n >= 0,
            e >= 0,
            s > 0,
    ;
    assert(gap(r * n, e) <= off + gap(c, e));
}

/// The figures of workers together are the sums of their figures: what two groups report
/// together is what each of them reports, added up, and one worker alone reports what it reports.
pub proof fn law_figures_add_up(
    some: Seq<InstanceMetrics>,
    others: Seq<InstanceMetrics>,
    first: InstanceMetrics,
    second: InstanceMetrics,
    all: InstanceMetrics,
    one: InstanceMetrics,
    alone: InstanceMetrics,
)
    requires
        first.sums_up(some),
        second.sums_up(others),
        all.sums_up(some + others),
        alone.sums_up(seq![one]),
    ensures
        all.total_requests == first.total_requests + second.total_requests,
        all.errors == first.errors + second.errors,
        all.max_concurrency == first.max_concurrency + second.max_concurrency,
        all.active_count == first.active_count + second.active_count,
        all.queue_depth == first.queue_depth + second.queue_depth,
        alone.total_requests == one.total_requests,
        alone.errors == one.errors,
        alone.max_concurrency == one.max_concurrency,
        alone.active_count == one.active_count,
        alone.queue_depth == one.queue_depth,
{
    lemma_sum_splits(some, others, |m: InstanceMetrics| m.total_requests as nat, one);
    lemma_sum_splits(some, others, |m: InstanceMetrics| m.errors as nat, one);
    lemma_sum_splits(some, others, |m: InstanceMetrics| m.max_concurrency as nat, one);
    lemma_sum_splits(some, others, |m: InstanceMetrics| m.active_count as nat, one);
    lemma_sum_splits(some, others, |m: InstanceMetrics| m.queue_depth as nat, one);
}

proof fn lemma_sum_splits(
    some: Seq<InstanceMetrics>,
    others: Seq<InstanceMetrics>,
    count: spec_fn(InstanceMetrics) -> nat,
    one: InstanceMetrics,
)
    ensures
        InstanceMetrics::sum(some + others, count) == InstanceMetrics::sum(some, count)
            + InstanceMetrics::sum(others, count),
        InstanceMetrics::sum(seq![one], count) == count(one),
    decreases others.len(),
{
    assert(seq![one].drop_last() =~= Seq::<InstanceMetrics>::empty());
    assert(InstanceMetrics::sum(seq![one].drop_last(), count) == 0);
    if others.len() == 0 {
        assert(some + others =~= some);
    } else {
        assert((some + others).drop_last() =~= some + others.drop_last());
        lemma_sum_splits(some, others.drop_last(), count, one);
    }
}

/// What the controller sees of the workers: the counts as they are reported, the slots in use and
/// the queue as shares of all slots in percent, held between 1 and 100.
pub proof fn law_state_shows_the_figures(
    total: InstanceMetrics,
    t: u32,
    delta: u64,
    workers: usize,
    target: TargetState,
    state: SystemState,
)
    requires
        total.shows_state(t, delta, workers, target, state),
    ensures
        state.time_s == t,
        delta <= u32::MAX ==> state.incoming_requests == delta,
        total.queue_depth <= u32::MAX ==> state.waiting_requests == total.queue_depth,
        workers <= u32::MAX ==> state.num_replicas == workers,
        state.dropped_requests == 0,
        state.cpu_per_replica == target.cpu_per_replica,
        state.mem_per_replica == target.mem_per_replica,
        delta < 0x20_0000_0000_0000 ==> state.incoming_rps@.scaled() == delta * pow2(1074),
        total.max_concurrency == 0 ==> state.cpu_util@ == Number::integer(1) && state.mem_util@
            == Number::integer(1),
        0 < total.max_concurrency < 0x20_0000_0000_0000 && total.active_count
            < 0x20_0000_0000_0000 ==> is_percentage(
            state.cpu_util@,
            total.active_count as nat,
            total.max_concurrency as nat,
        ),
        0 < total.max_concurrency < 0x20_0000_0000_0000 && total.queue_depth
            < 0x20_0000_0000_0000 ==> is_percentage(
            state.mem_util@,
            total.queue_depth as nat,
            total.max_concurrency as nat,
        ),
{
    if delta < 0x20_0000_0000_0000 {
        laws::law_integers_exact(delta as nat);
    }
    if 0 < total.max_concurrency < 0x20_0000_0000_0000 {
        if total.active_count < 0x20_0000_0000_0000 {
            lemma_percentage(total.active_count, total.max_concurrency);
        }
        if total.queue_depth < 0x20_0000_0000_0000 {
            lemma_percentage(total.queue_depth, total.max_concurrency);
        }
    }
}

/// Is a number the share in percent, off by at most a hundred-billionth part, or the bound from 1
/// to 100 that it is beyond?
pub open spec fn is_percentage(percent: Number, part: nat, whole: nat) -> bool {
    let one = pow2(1074);
    let exact = 100 * part * one;
    let shown = percent.magnitude() * whole;
    &&& percent is Finite
    &&& !percent.is_negative()
    &&& one <= percent.magnitude() <= 100 * one
    &&& one < percent.magnitude() < 100 * one ==> gap(shown as int, exact as int)
        * 0x20_0000_0000 <= exact
    &&& percent.magnitude() == one ==> exact * 0x20_0000_0000 <= (shown + one)
        * 0x20_0000_0000 + exact
    &&& percent.magnitude() == 100 * one ==> shown * 0x20_0000_0000 <= exact * 0x20_0000_0000
        + exact
    &&& part == 0 ==> percent.magnitude() == one
    &&& part >= whole ==> percent.magnitude() == 100 * one
}

proof fn lemma_percentage(part: usize, whole: usize)
    requires
        0 < whole < 0x20_0000_0000_0000,
        part < 0x20_0000_0000_0000,
    ensures
        is_percentage(InstanceMetrics::percentage(part, whole), part as nat, whole as nat),
{
    errors::lemma_one_is_large();
    let one = pow2(1074) as int;
    let p = part as int;
    let w = whole as int;
    let a = Number::integer(part as nat);
    let b = Number::integer(whole as nat);
    laws::law_integers_exact(part as nat);
    laws::law_integers_exact(whole as nat);
    laws::law_integers_exact(1);
    laws::law_integers_exact(100);
    assert(w * one >= one) by (nonlinear_arith)
        requires
            w >= 1,
            one > 0,
    ;
    assert(0 <= p * one <= 0x20_0000_0000_0000 * one) by (nonlinear_arith)
        requires
            0 <= p < 0x20_0000_0000_0000,
            one > 0,
    ;
    errors::law_percentage_error(a, b);
    let percent = a.over(b).times(Number::integer(100));
    let r = percent.magnitude() as int;
    let off = gap(r * w, 100 * (p * one));
    assert(100 * (p * one) * one == 100 * (p * one * one)) by (nonlinear_arith);
    assert(gap(r * (w * one), 100 * (p * one) * one) == off * one) by (nonlinear_arith)
        requires
            off == gap(r * w, 100 * (p * one)),
            one > 0,
    ;
    assert(off * 0x1000_0000_0000 <= p * one + 0x10_0000_0000_0000 * w) by (nonlinear_arith)
        requires
            (off * one) * 0x1000_0000_0000 <= (p * one) * one + 0x10_0000_0000_0000 * (w * one),
            one > 0,
    ;
    assert(100 * p * one == 100 * (p * one)) by (nonlinear_arith);
    if p > 0 {
        assert(p * one >= one) by (nonlinear_arith)
            requires
                p >= 1,
                one > 0,
        ;
    } else {
        assert(p * one == 0) by (nonlinear_arith)
            requires
                p == 0,
        ;
        assert(r * w >= r) by (nonlinear_arith)
            requires
                r >= 0,
                w >= 1,
        ;
    }
    let shown = InstanceMetrics::percentage(part, whole).magnitude() as int;
    assert(one * w == w * one) by (nonlinear_arith);
    assert((100 * one) * w == 100 * (w * one)) by (nonlinear_arith);
    if r < one {
        assert(r * w <= one * w) by (nonlinear_arith)
            requires
                r < one,
                w >= 1,
        ;
        assert(shown == one);
    }
    if r > 100 * one {
        assert(r * w >= (100 * one) * w) by (nonlinear_arith)
            requires
                r > 100 * one,
                w >= 1,
        ;
        assert(shown == 100 * one);
    }
    if part >= whole {
        assert(w * one <= p * one) by (nonlinear_arith)
            requires
                w <= p,
                one > 0,
        ;
        lemma_full_share(a, b);
    }
}

/// A whole and more is a hundred percent at least.
proof fn lemma_full_share(part: Number, whole: Number)
    requires
        part is Finite,
        !part.is_negative(),
        whole is Finite,
        !whole.is_negative(),
        0 < whole.magnitude() <= part.magnitude(),
        part.magnitude() <= 0x1000_0000_0000_0000 * whole.magnitude(),
    ensures
        100 * pow2(1074) <= part.over(whole).times(Number::integer(100)).magnitude(),
{
    let one = pow2(1074);
    laws::law_integers_exact(1);
    laws::law_integers_exact(100);
    lemma_pow2_pos(1074);
    lemma_pow2_pos(2148);
    lemma_pow2_adds(1074, 1074);
    let a = part.magnitude();
    let w = whole.magnitude();
    errors::law_quotient_error(part, whole);
    assert((1 * one) * w <= a * one) by (nonlinear_arith)
        requires
            w <= a,
    ;
    laws::law_rounding_not_below(false, a, w, Number::integer(1));
    let share = part.over(whole);
    errors::law_percentage_error(part, whole);
    let q = share.magnitude();
    let product = q * (100 * one);
    assert((100 * one) * (one * one) <= (q * (100 * one)) * one) by (nonlinear_arith)
        requires
            one <= q,
    ;
    laws::law_rounding_not_below(false, product, pow2(2148), Number::integer(100));
}

/// The 99th percentile is shown as half as much again as the average, and the latency and the
/// queue as they are.
pub proof fn law_metrics_show_the_figures(total: InstanceMetrics, metrics: Metrics)
    requires
        total.shows_metrics(metrics),
        total.avg_latency_ms@ is Finite,
        !total.avg_latency_ms@.is_negative(),
        total.avg_latency_ms@.magnitude() <= 0x100_0000_0000 * pow2(1074),
    ensures
        metrics.avg_latency_ms == total.avg_latency_ms,
        total.queue_depth <= u32::MAX ==> metrics.queue_depth == total.queue_depth,
        metrics.p99_latency_ms@ is Finite,
        gap(
            2 * metrics.p99_latency_ms@.magnitude() as int,
            3 * total.avg_latency_ms@.magnitude() as int,
        ) * 0x4_0000_0000_0000 <= 3 * total.avg_latency_ms@.magnitude() + 0x10_0000_0000_0000,
{
    errors::law_fraction_error(total.avg_latency_ms@, 15, 10);
}

} // verus!
