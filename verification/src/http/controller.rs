use vstd::prelude::*;

use crate::controller::Controller;
use crate::double::Number;
use crate::http::instance::InstanceMetrics;
use crate::shared::metrics::Metrics;
use crate::shared::types::{SystemState, TargetState};

verus! {

/// A new target, and the one it takes the place of.
#[derive(Clone, Copy, Debug)]
pub struct Decision {
    pub previous: TargetState,
    pub target: TargetState,
    /// Are the workers to be told?
    pub apply: bool,
}

/// What happens in one second of control.
#[derive(Clone, Copy, Debug)]
pub struct Tick {
    /// The requests that came since the second before.
    pub delta: u64,
    pub state: SystemState,
    pub metrics: Metrics,
    pub decision: Option<Decision>,
}

/// Controls worker processes by the figures that they report.
#[derive(Clone, Copy, Debug)]
pub struct HttpController {
    pub controller: Controller,
    pub target: TargetState,
    pub last_total_requests: u64,
}

impl Decision {
    /// Is this what the controller decides in the given state?
    pub open spec fn follows(
        self,
        controller: Controller,
        previous: TargetState,
        state: SystemState,
        metrics: Metrics,
    ) -> bool {
        &&& controller.answers(state, controller.diagnosis(state, metrics), self.target)
        &&& self.previous == previous
        &&& self.apply == previous.differs(self.target)
    }
}

impl HttpController {
    pub fn new() -> (r: Self)
        ensures
            r.controller.limits_ordered(),
            r.last_total_requests == 0,
            r.target.num_replicas == 1,
            r.target.cpu_per_replica@ == Number::integer(1),
            r.target.mem_per_replica@ == Number::integer(2),
            r.controller.latency_target_ms@ == Number::integer(50),
            r.controller.cpu_util_target@ == Number::integer(70),
            r.controller.mem_util_target@ == Number::integer(70),
            r.controller.min_replicas == 1,
            r.controller.max_replicas == 20,
            r.controller.min_cpu@ == Number::ratio(5, 10),
            r.controller.max_cpu@ == Number::integer(4),
            r.controller.min_mem@ == Number::integer(1),
            r.controller.max_mem@ == Number::integer(8),
    {
        HttpController {
            controller: Controller::new(),
            target: TargetState::default(),
            last_total_requests: 0,
        }
    }

    /// The workers to start before a second of control where none run.
    pub fn workers_to_start(workers: usize) -> (r: Option<usize>)
        ensures
            r == (if workers == 0 {
                Some(1usize)
            } else {
                None
            }),
    {
        if workers == 0 {
            Some(1)
        } else {
            None
        }
    }

    /// One second of control: takes what the workers report, and decides at each interval but
    /// at the very start.
    pub fn tick(
        &mut self,
        t: u32,
        control_interval_s: u32,
        workers: usize,
        total: &InstanceMetrics,
    ) -> (r: Tick)
        requires
            old(self).controller.limits_ordered(),
            control_interval_s > 0,
        ensures
            final(self).controller == old(self).controller,
            final(self).last_total_requests == total.total_requests,
            r.delta == (if total.total_requests < old(self).last_total_requests {
                0
            } else {
                total.total_requests - old(self).last_total_requests
            }),
            total.shows_state(t, r.delta, workers, old(self).target, r.state),
            total.shows_metrics(r.metrics),
            if t % control_interval_s == 0 && t > 0 {
                r.decision matches Some(decision) && decision.follows(
                    old(self).controller,
                    old(self).target,
                    r.state,
                    r.metrics,
                ) && final(self).target == decision.target
            } else {
                r.decision is None && final(self).target == old(self).target
            },
    {
        let delta: u64 = total.total_requests.saturating_sub(self.last_total_requests);
        self.last_total_requests = total.total_requests;
        let state: SystemState = total.to_state(t, delta, workers, &self.target);
        let metrics: Metrics = total.to_metrics();
        let mut decision: Option<Decision> = None;
        if t % control_interval_s == 0 && t > 0 {
            let previous: TargetState = self.target;
            let target: TargetState = self.controller.decide(&state, &metrics);
            let apply: bool = previous.is_different(&target);
            decision = Some(Decision { previous, target, apply });
            self.target = target;
        }
        Tick { delta, state, metrics, decision }
    }
}

/// Once a target is within the limits, so is every later one.
pub proof fn law_targets_stay_within_limits(
    decision: Decision,
    controller: Controller,
    previous: TargetState,
    state: SystemState,
    metrics: Metrics,
)
    requires
        controller.limits_ordered(),
        decision.follows(controller, previous, state, metrics),
        state.cpu_per_replica == previous.cpu_per_replica,
        state.mem_per_replica == previous.mem_per_replica,
        controller.allows(previous),
    ensures
        controller.allows(decision.target),
{
    crate::controller::law_target_within_limits(
        controller,
        state,
        controller.diagnosis(state, metrics),
        decision.target,
    );
}

} // verus!
