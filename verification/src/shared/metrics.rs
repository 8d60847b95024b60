use vstd::prelude::*;

use crate::double::{Double, Number};
use crate::shared::types::SystemState;

verus! {

/// Latency and queue metrics fed into the controller's decision logic.
#[derive(Clone, Copy, Debug)]
pub struct Metrics {
    pub avg_latency_ms: Double,
    pub p99_latency_ms: Double,
    pub queue_depth: u32,
}

impl Metrics {
    /// The requests that the replicas serve in a second, 100 for each CPU.
    pub open spec fn capacity(state: SystemState) -> Number {
        Number::integer(state.num_replicas as nat).times(state.cpu_per_replica@).times(
            Number::integer(100),
        )
    }

    /// The seconds that it takes to serve the requests that wait.
    pub open spec fn queue_wait(state: SystemState) -> Number {
        let capacity = Self::capacity(state);
        if Number::zero(false).below(capacity) {
            Number::integer(state.waiting_requests as nat).over(capacity)
        } else {
            Number::zero(false)
        }
    }

    /// Ten milliseconds of processing after the wait in the queue.
    pub open spec fn modelled_latency(state: SystemState) -> Number {
        Number::integer(10).plus(Self::queue_wait(state).times(Number::integer(1000)))
    }

    /// Derive metrics from the simulated system state by a simple model of the queue: latency
    /// grows with its depth, and the 99th percentile is twice the average under load.
    pub fn from_state(state: &SystemState) -> (r: Self)
        ensures
            r.avg_latency_ms@ == Self::modelled_latency(*state),
            r.p99_latency_ms@ == (if state.waiting_requests > 0 {
                Self::modelled_latency(*state).times(Number::integer(2))
            } else {
                Self::modelled_latency(*state)
            }),
            r.queue_depth == state.waiting_requests,
    {
        let processing_time_ms: Double = Double::from_u32(10);
        let capacity: Double = Double::from_u32(state.num_replicas).mul(
            state.cpu_per_replica,
        ).mul(Double::from_u32(100));
        let zero: Double = Double::from_bits(0);
        let queue_wait_s: Double = if capacity.gt(zero) {
            Double::from_u32(state.waiting_requests).div(capacity)
        } else {
            zero
        };
        let avg_latency_ms: Double = processing_time_ms.add(
            queue_wait_s.mul(Double::from_u32(1000)),
        );
        let p99_latency_ms: Double = if state.waiting_requests > 0 {
            avg_latency_ms.mul(Double::from_u32(2))
        } else {
            avg_latency_ms
        };
        Metrics { avg_latency_ms, p99_latency_ms, queue_depth: state.waiting_requests }
    }
}

/// However long the queue, latency is never less than the processing itself takes.
pub proof fn law_latency_covers_processing(state: SystemState)
    ensures
        Number::integer(10).at_most(Metrics::modelled_latency(state)),
{
    let ten = Number::integer(10);
    let wait = Metrics::queue_wait(state);
    let capacity = Metrics::capacity(state);
    crate::double::laws::law_integers_exact(10);
    crate::double::laws::law_integers_exact(1000);
    crate::double::laws::law_integers_exact(state.waiting_requests as nat);
    crate::double::laws::lemma_not_zero(1000);
    vstd::arithmetic::power2::lemma_pow2_pos(1074);
    vstd::arithmetic::power2::lemma_pow2_pos(2148);
    if Number::zero(false).below(capacity) && capacity is Finite {
        crate::double::laws::law_rounding_representable(
            false,
            Number::integer(state.waiting_requests as nat).magnitude(),
            capacity.magnitude(),
        );
    }
    assert(wait !is Nan && !wait.is_negative());
    let delay = wait.times(Number::integer(1000));
    if wait is Finite {
        crate::double::laws::law_rounding_representable(
            false,
            wait.magnitude() * Number::integer(1000).magnitude(),
            vstd::arithmetic::power2::pow2(2148),
        );
    }
    assert(delay !is Nan && !delay.is_negative());
    if delay is Finite {
        let total = (ten.scaled() + delay.scaled()) as nat;
        let one = vstd::arithmetic::power2::pow2(1074);
        assert(ten.magnitude() * one <= total * one) by (nonlinear_arith)
            requires
                ten.magnitude() <= total,
        ;
        crate::double::laws::law_rounding_not_below(false, total, one, ten);
        crate::double::laws::law_rounding_representable(false, total, one);
        assert(total > 0) by {
            assert(10 * one > 0);
        }
    }
}

} // verus!
