//! How large workers and their work are made, in plain integers.

use vstd::arithmetic::power2::*;
use vstd::prelude::*;

use crate::docker::executor::{Docker, DockerExecutor};
use crate::double::errors::gap;
use crate::double::{errors, laws, Double, Number};
use crate::http::executor::{CgroupManager, Executor};
use crate::http::laws::total;
use crate::http::service::{Counters, ServiceConfig};

verus! {

/// Is a number finite, of moderate size and not negative?
pub open spec fn is_factor(x: Number) -> bool {
    &&& x is Finite
    &&& !x.is_negative()
    &&& x.magnitude() <= 0x10_0000_0000 * pow2(1074)
}

/// Is an integer as many times as much as a number, rounded to within half and a very small part?
pub open spec fn is_multiple(result: nat, times: nat, x: Number) -> bool {
    gap(2 * (result * pow2(1074)) as int, 2 * (times * x.magnitude()) as int)
        * 0x8_0000_0000_0000 <= 0x8_0000_0000_0000 * pow2(1074) + times * x.magnitude()
        + 0x10_0000_0000_0000
}

/// Is an integer more than a multiple of a number, but for half and a very small part?
pub open spec fn is_over_multiple(result: nat, times: nat, x: Number) -> bool {
    2 * (times * x.magnitude()) * 0x8_0000_0000_0000 <= 2 * (result * pow2(1074))
        * 0x8_0000_0000_0000 + 0x8_0000_0000_0000 * pow2(1074) + times * x.magnitude()
        + 0x10_0000_0000_0000
}

/// A multiple of a number, rounded to an integer.
proof fn lemma_rounded_multiple(times: nat, x: Number, limit: nat)
    requires
        is_factor(x),
        times <= 0x100_0000,
    ensures
        x.times(Number::integer(times)).rounded(limit) < limit ==> is_multiple(
            x.times(Number::integer(times)).rounded(limit),
            times,
            x,
        ),
        Number::integer(times).times(x) == x.times(Number::integer(times)),
        limit == u64::MAX ==> x.times(Number::integer(times)).rounded(limit) < limit,
{
    let one = pow2(1074) as int;
    let m = x.magnitude() as int;
    let k = times as int;
    errors::lemma_one_is_large();
    assert(0 <= k * m <= 0x100_0000 * (0x10_0000_0000 * one)) by (nonlinear_arith)
        requires
            0 <= k <= 0x100_0000,
            0 <= m <= 0x10_0000_0000 * one,
    ;
    errors::law_multiple_error(times, x);
    let product = x.times(Number::integer(times));
    errors::law_rounded_within_half(product, limit);
    let a = product.rounded(limit) as int;
    let r = product.magnitude() as int;
    assert(2 * (a * one) == 2 * a * one) by (nonlinear_arith);
    if a < limit {
        assert(gap(2 * (a * one), 2 * r) <= one);
        assert(gap(2 * (a * one), 2 * (k * m)) <= gap(2 * (a * one), 2 * r) + 2 * gap(r, k * m));
    } else if limit == u64::MAX {
        assert(2 * (limit * one) == 2 * limit * one) by (nonlinear_arith);
        assert(limit * one == 0xffff_ffff_ffff_ffff * one) by (nonlinear_arith)
            requires
                limit == 0xffff_ffff_ffff_ffff,
        ;
        assert(2 * (limit * one) <= 2 * r + one);
    }
}

/// What is at most the limit is no more than the limit.
proof fn lemma_not_over(count: nat, limit: nat, times: nat, x: Number)
    requires
        is_multiple(count, times, x),
        count <= limit,
    ensures
        is_over_multiple(limit, times, x),
{
    let one = pow2(1074);
    assert(count * one <= limit * one) by (nonlinear_arith)
        requires
            count <= limit,
    ;
}

/// The CPU time of a worker in each tenth of a second is a tenth of a second for each CPU, in
/// microseconds, and ten thousand at least.
pub proof fn law_quota(cpu: Double)
    requires
        is_factor(cpu@),
    ensures
        CgroupManager::quota(cpu) >= 10_000,
        CgroupManager::quota(cpu) > 10_000 ==> is_multiple(
            CgroupManager::quota(cpu),
            100_000,
            cpu@,
        ),
        CgroupManager::quota(cpu) == 10_000 ==> is_over_multiple(10_000, 100_000, cpu@),
{
    lemma_rounded_multiple(100_000, cpu@, u64::MAX as nat);
    let count = cpu@.times(Number::integer(100_000)).rounded(u64::MAX as nat);
    if count <= 10_000 {
        lemma_not_over(count, 10_000, 100_000, cpu@);
    }
}

/// A worker has four slots for each CPU, and one at least.
pub proof fn law_slots(cpu: Double)
    requires
        is_factor(cpu@),
    ensures
        Executor::slots(cpu) >= 1,
        1 < Executor::slots(cpu) < usize::MAX ==> is_multiple(Executor::slots(cpu), 4, cpu@),
        Executor::slots(cpu) == 1 ==> is_over_multiple(1, 4, cpu@),
{
    lemma_rounded_multiple(4, cpu@, usize::MAX as nat);
    let count = cpu@.times(Number::integer(4)).rounded(usize::MAX as nat);
    if count <= 1 {
        lemma_not_over(count, 1, 4, cpu@);
    }
}

/// A container has 512 megabytes, times its factor, and 128 at least.
pub proof fn law_container_memory(factor: Double)
    requires
        is_factor(factor@),
    ensures
        Docker::memory_mb(factor) >= 128,
        Docker::memory_mb(factor) > 128 ==> is_multiple(Docker::memory_mb(factor), 512, factor@),
        Docker::memory_mb(factor) == 128 ==> is_over_multiple(128, 512, factor@),
{
    lemma_rounded_multiple(512, factor@, u64::MAX as nat);
    let count = factor@.times(Number::integer(512)).rounded(u64::MAX as nat);
    if count <= 128 {
        lemma_not_over(count, 128, 512, factor@);
    }
}

/// Is a count the least integer that is not below the number, and one at least?
pub open spec fn is_begun(count: nat, x: Number) -> bool {
    &&& count >= 1
    &&& count < usize::MAX ==> x.magnitude() <= count * pow2(1074)
    &&& count > 1 ==> (count - 1) * pow2(1074) < x.magnitude()
}

proof fn lemma_begun(x: Number)
    requires
        is_factor(x),
    ensures
        x.ceiling(usize::MAX as nat) >= 1 ==> is_begun(x.ceiling(usize::MAX as nat), x),
        x.ceiling(usize::MAX as nat) < 1 ==> is_begun(1, x),
{
    let one = pow2(1074);
    lemma_pow2_pos(1074);
    errors::law_ceiling_within_one(x, usize::MAX as nat);
    let count = x.ceiling(usize::MAX as nat);
    if count == 0 {
        assert(0 * one == 0) by (nonlinear_arith);
    }
}

/// A worker has a thread for each CPU begun: one at least, and no more than it has slots.
pub proof fn law_threads(executor: Executor)
    requires
        is_factor(executor.cpu_per_replica@),
    ensures
        executor.threads() <= executor.max_concurrency,
        executor.threads() < executor.max_concurrency ==> is_begun(
            executor.threads(),
            executor.cpu_per_replica@,
        ),
        executor.threads() == executor.max_concurrency && executor.threads() > 1 ==> (
        executor.threads() - 1) * pow2(1074) < executor.cpu_per_replica@.magnitude(),
{
    lemma_begun(executor.cpu_per_replica@);
    let needed = executor.cpu_per_replica@.ceiling(usize::MAX as nat);
    let threads = executor.threads();
    lemma_pow2_pos(1074);
    if threads > 1 && threads <= needed {
        assert((threads - 1) * pow2(1074) <= (needed - 1) * pow2(1074)) by (nonlinear_arith)
            requires
                threads <= needed,
        ;
    }
}

/// A container has a thread for each CPU begun, one at least.
pub proof fn law_container_threads(executor: DockerExecutor)
    requires
        is_factor(executor.cpu_per_replica@),
    ensures
        is_begun(executor.threads(), executor.cpu_per_replica@),
{
    lemma_begun(executor.cpu_per_replica@);
}

/// The rounds of a request are their number times the CPU factor, rounded; its bytes are theirs
/// times the memory factor, cut to a whole number.
pub proof fn law_work_is_scaled(config: ServiceConfig, base: nat)
    requires
        base <= 0x100_0000,
        is_factor(config.cpu_factor@),
        is_factor(config.mem_factor@),
    ensures
        is_multiple(config.iters(base), base, config.cpu_factor@),
        is_cut_multiple(config.bytes(base), base, config.mem_factor@),
{
    lemma_rounded_multiple(base, config.cpu_factor@, u64::MAX as nat);
    let one = pow2(1074) as int;
    let m = config.mem_factor@.magnitude() as int;
    let k = base as int;
    errors::lemma_one_is_large();
    assert(0 <= k * m <= 0x100_0000 * (0x10_0000_0000 * one)) by (nonlinear_arith)
        requires
            0 <= k <= 0x100_0000,
            0 <= m <= 0x10_0000_0000 * one,
    ;
    errors::law_multiple_error(base, config.mem_factor@);
    errors::law_truncated_within_one(
        Number::integer(base).times(config.mem_factor@),
        usize::MAX as nat,
    );
}

/// Is a count as many times as much as a number, cut to a whole number but for a very small part,
/// or the greatest there is?
pub open spec fn is_cut_multiple(count: nat, times: nat, x: Number) -> bool {
    let exact = times * x.magnitude();
    &&& count * pow2(1074) * 0x8_0000_0000_0000 <= exact * 0x8_0000_0000_0000 + exact
        + 0x10_0000_0000_0000
    &&& count < usize::MAX ==> exact * 0x8_0000_0000_0000 < (count + 1) * pow2(1074)
        * 0x8_0000_0000_0000 + exact + 0x10_0000_0000_0000
}

/// With a whole factor the rounds are exact.
pub proof fn law_whole_work(config: ServiceConfig, base: nat, factor: nat)
    requires
        base <= 0x100_0000,
        factor <= 0x1_0000_0000,
        config.cpu_factor@ == Number::integer(factor),
        base * factor < 0x1_0000_0000_0000,
    ensures
        config.iters(base) == base * factor,
{
    laws::law_integers_exact(factor);
    let one = pow2(1074) as int;
    errors::lemma_one_is_large();
    assert(factor * one <= 0x10_0000_0000 * one) by (nonlinear_arith)
        requires
            factor <= 0x1_0000_0000,
            one > 0,
    ;
    lemma_rounded_multiple(base, config.cpu_factor@, u64::MAX as nat);
    let r = config.iters(base) as int;
    let exact = (base * factor) as int;
    assert(base * (factor * one) == exact * one) by (nonlinear_arith)
        requires
            exact == base * factor,
    ;
    assert(exact * one <= 0x1_0000_0000_0000 * one) by (nonlinear_arith)
        requires
            exact <= 0x1_0000_0000_0000,
            one > 0,
    ;
    let off = gap(r, exact);
    assert(gap(2 * (r * one), 2 * (exact * one)) == 2 * (off * one)) by (nonlinear_arith)
        requires
            off == gap(r, exact),
            one > 0,
    ;
    assert(off < 1) by (nonlinear_arith)
        requires
            off * one < one,
            one > 0,
    ;
}

/// The latency that a service reports is the number nearest to the mean of those in its window.
pub proof fn law_average_of_window(window: Seq<u64>)
    requires
        0 < window.len() < 0x20_0000_0000_0000,
        total(window.map_values(|ms: u64| ms as nat)) < 0x20_0000_0000_0000,
    ensures
        Counters::average(window) == Number::ratio(
            total(window.map_values(|ms: u64| ms as nat)),
            window.len(),
        ),
        Counters::average(Seq::empty()) == Number::zero(false),
{
    lemma_sum(window);
    errors::law_integer_quotient(Counters::sum(window), window.len());
}

proof fn lemma_sum(window: Seq<u64>)
    ensures
        Counters::sum(window) == total(window.map_values(|ms: u64| ms as nat)),
    decreases window.len(),
{
    let counts = window.map_values(|ms: u64| ms as nat);
    if window.len() > 0 {
        lemma_sum(window.drop_last());
        crate::http::laws::lemma_total_last(counts);
        assert(counts.drop_last() =~= window.drop_last().map_values(|ms: u64| ms as nat));
    }
}

/// The workers' ports follow one another.
pub proof fn law_ports_follow(executor: Executor, index: int)
    requires
        0 <= index < 0xffff,
    ensures
        executor.port_at(0) == executor.base_port,
        executor.port_at(index + 1) == executor.port_at(index) + 1,
{
}

} // verus!
