use vstd::prelude::*;

use crate::double::{Double, Number};
use crate::shared::metrics::Metrics;
use crate::shared::scaling::Scaling;
use crate::shared::types::{Bottleneck, SystemState, TargetState};

verus! {

/// Unified autoscaler controller: makes both horizontal and vertical scaling decisions, and
/// sizes the replica count by the demand that it sees.
#[derive(Clone, Copy, Debug)]
pub struct Controller {
    pub latency_target_ms: Double,
    pub cpu_util_target: Double,
    pub mem_util_target: Double,
    pub min_replicas: u32,
    pub max_replicas: u32,
    pub min_cpu: Double,
    pub max_cpu: Double,
    pub min_mem: Double,
    pub max_mem: Double,
    /// Concurrency slots per replica.
    pub slots_per_replica: u32,
    /// Queue depth above which the caller should bypass the normal control interval
    /// and decide immediately.
    pub emergency_queue_threshold: u32,
}

impl Controller {
    /// Each lower limit is at most the upper one.
    pub open spec fn limits_ordered(self) -> bool {
        &&& self.min_replicas <= self.max_replicas
        &&& self.min_cpu@.at_most(self.max_cpu@)
        &&& self.min_mem@.at_most(self.max_mem@)
    }

    /// Is a target within the limits?
    pub open spec fn allows(self, target: TargetState) -> bool {
        &&& self.min_replicas <= target.num_replicas <= self.max_replicas
        &&& self.min_cpu@.at_most(target.cpu_per_replica@)
        &&& target.cpu_per_replica@.at_most(self.max_cpu@)
        &&& self.min_mem@.at_most(target.mem_per_replica@)
        &&& target.mem_per_replica@.at_most(self.max_mem@)
    }

    /// Could the controller have asked for the replicas that there are, and their resources?
    pub open spec fn has_asked_for(self, state: SystemState) -> bool {
        &&& self.min_replicas <= state.num_replicas <= self.max_replicas
        &&& Number::zero(false).at_most(self.min_cpu@)
        &&& self.min_cpu@.at_most(state.cpu_per_replica@)
        &&& state.cpu_per_replica@.at_most(self.max_cpu@)
        &&& state.cpu_per_replica@ is Finite
        &&& Number::zero(false).at_most(self.min_mem@)
        &&& self.min_mem@.at_most(state.mem_per_replica@)
        &&& state.mem_per_replica@.at_most(self.max_mem@)
        &&& state.mem_per_replica@ is Finite
    }

    pub fn new() -> (r: Self)
        ensures
            r.latency_target_ms@ == Number::integer(400),
            r.cpu_util_target@ == Number::integer(70),
            r.mem_util_target@ == Number::integer(70),
            r.min_replicas == 1,
            r.max_replicas == 20,
            r.min_cpu@ == Number::ratio(5, 10),
            r.max_cpu@ == Number::integer(4),
            r.min_mem@ == Number::integer(1),
            r.max_mem@ == Number::integer(8),
            r.slots_per_replica == 32,
            r.emergency_queue_threshold == 20,
            r.limits_ordered(),
    {
        proof {
            crate::double::laws::law_ratio_at_most(5, 10, 4);
            crate::double::laws::law_integers_ordered(1, 8);
        }
        Controller {
            latency_target_ms: Double::from_u32(400),
            cpu_util_target: Double::from_u32(70),
            mem_util_target: Double::from_u32(70),
            min_replicas: 1,
            max_replicas: 20,
            min_cpu: Double::ratio(5, 10),
            max_cpu: Double::from_u32(4),
            min_mem: Double::from_u32(1),
            max_mem: Double::from_u32(8),
            slots_per_replica: 32,
            emergency_queue_threshold: 20,
        }
    }

    /// Is the queue long enough to bypass the normal interval?
    pub fn is_emergency(&self, state: &SystemState) -> (r: bool)
        ensures
            r == (state.waiting_requests > self.emergency_queue_threshold),
    {
        state.waiting_requests > self.emergency_queue_threshold
    }

    pub open spec fn high_cpu(self, state: SystemState) -> bool {
        self.cpu_util_target@.below(state.cpu_util@)
    }

    pub open spec fn high_mem(self, state: SystemState) -> bool {
        self.mem_util_target@.below(state.mem_util@)
    }

    /// Latency is over its target while there is load.
    ///
    /// The latency that is measured trails behind, so that it stays high for minutes after a
    /// burst. Without current load it is no evidence of a problem.
    pub open spec fn latency_under_load(self, state: SystemState, metrics: Metrics) -> bool {
        &&& self.latency_target_ms@.below(metrics.avg_latency_ms@)
        &&& self.high_cpu(state) || self.high_mem(state) || state.waiting_requests > 0
            || Number::integer(10).below(state.cpu_util@)
    }

    /// Is a utilisation under three tenths of its target?
    pub open spec fn very_low(util: Double, target: Double) -> bool {
        util@.below(target@.times(Number::ratio(3, 10)))
    }

    pub open spec fn diagnosis(self, state: SystemState, metrics: Metrics) -> Bottleneck {
        if self.latency_under_load(state, metrics) || state.waiting_requests > 0 {
            if self.high_cpu(state) && self.high_mem(state) {
                Bottleneck::Mixed
            } else if self.high_cpu(state) {
                Bottleneck::Cpu
            } else if self.high_mem(state) {
                Bottleneck::Memory
            } else {
                Bottleneck::Load
            }
        } else if Self::very_low(state.cpu_util, self.cpu_util_target) && Self::very_low(
            state.mem_util,
            self.mem_util_target,
        ) && state.num_replicas > self.min_replicas {
            Bottleneck::Overprovisioned
        } else if !self.high_cpu(state) && !self.high_mem(state) {
            Bottleneck::Stable
        } else {
            Bottleneck::Unknown
        }
    }

    /// What keeps the system from its targets?
    pub fn diagnose(&self, state: &SystemState, metrics: &Metrics) -> (r: Bottleneck)
        ensures
            r == self.diagnosis(*state, *metrics),
    {
        let high_latency: bool = metrics.avg_latency_ms.gt(self.latency_target_ms);
        let high_cpu: bool = state.cpu_util.gt(self.cpu_util_target);
        let high_mem: bool = state.mem_util.gt(self.mem_util_target);
        let has_queue: bool = state.waiting_requests > 0;
        let latency_under_load: bool = high_latency && (high_cpu || high_mem || has_queue
            || state.cpu_util.gt(Double::from_u32(10)));

        let very_low_cpu: bool = state.cpu_util.lt(
            self.cpu_util_target.mul(Double::ratio(3, 10)),
        );
        let very_low_mem: bool = state.mem_util.lt(
            self.mem_util_target.mul(Double::ratio(3, 10)),
        );
        let no_queue: bool = state.waiting_requests == 0;

        if latency_under_load || has_queue {
            if high_cpu && high_mem {
                Bottleneck::Mixed
            } else if high_cpu {
                Bottleneck::Cpu
            } else if high_mem {
                Bottleneck::Memory
            } else {
                Bottleneck::Load
            }
        } else if very_low_cpu && very_low_mem && no_queue && state.num_replicas
            > self.min_replicas {
            Bottleneck::Overprovisioned
        } else if !high_cpu && !high_mem && !has_queue {
            Bottleneck::Stable
        } else {
            Bottleneck::Unknown
        }
    }

    /// The slots in use: the CPU utilisation, as a share of all slots.
    pub open spec fn active_slots(self, state: SystemState) -> nat {
        state.cpu_util@.over(Number::integer(100)).times(
            Number::integer((state.num_replicas * self.slots_per_replica) as nat),
        ).rounded(u32::MAX as nat)
    }

    /// The requests that wait and those that are served.
    pub open spec fn demand(self, state: SystemState) -> nat {
        state.waiting_requests as nat + self.active_slots(state)
    }

    /// The least number of replicas whose slots hold the demand. No number of replicas
    /// without slots does.
    pub open spec fn needed(self, state: SystemState) -> nat {
        let slots = self.slots_per_replica as int;
        if slots == 0 {
            u32::MAX as nat
        } else {
            ((self.demand(state) + slots - 1) / slots) as nat
        }
    }

    /// The replicas needed, but no fewer than there are, and no more than three times as many.
    pub open spec fn demand_replicas(self, state: SystemState) -> nat {
        let now = state.num_replicas as nat;
        let needed = self.needed(state);
        if self.demand(state) == 0 {
            now
        } else if now == 0 {
            1
        } else if needed < now {
            now
        } else if needed > 3 * now {
            3 * now
        } else {
            needed
        }
    }

    /// The counts that the demand is computed from fit into 32 bits.
    pub open spec fn demand_fits(self, state: SystemState) -> bool {
        &&& state.num_replicas * self.slots_per_replica <= u32::MAX
        &&& self.demand(state) <= u32::MAX
        &&& self.demand(state) > 0 ==> state.num_replicas * 3 <= u32::MAX
    }

    /// How many replicas are needed to absorb the current queue and active load?
    ///
    /// Growth is capped at three times the current replicas, to prevent overshoot.
    pub fn replicas_for_demand(&self, state: &SystemState) -> (r: u32)
        requires
            self.demand_fits(*state),
        ensures
            r == self.demand_replicas(*state),
    {
        let total_slots: u32 = state.num_replicas * self.slots_per_replica;
        let active_slots: u32 = state.cpu_util.div(Double::from_u32(100)).mul(
            Double::from_u32(total_slots),
        ).round_to_u32();
        let total_demand: u32 = state.waiting_requests + active_slots;

        if total_demand == 0 {
            return state.num_replicas;
        }
        proof {
            crate::double::arithmetic::lemma_nearest_zero(false, 1);
            crate::double::laws::law_integers_exact(total_demand as nat);
            crate::double::laws::lemma_not_zero(total_demand as nat);
            if self.slots_per_replica > 0 {
                crate::double::laws::law_quotient_ceiling(
                    total_demand as nat,
                    self.slots_per_replica as nat,
                    u32::MAX as nat,
                );
            }
        }
        let needed: u32 = Double::from_u32(total_demand).div(
            Double::from_u32(self.slots_per_replica),
        ).ceil_to_u32();
        let most: u32 = state.num_replicas * 3;
        let mut replicas: u32 = needed;
        if replicas < state.num_replicas {
            replicas = state.num_replicas;
        }
        if replicas > most {
            replicas = most;
        }
        if replicas < 1 {
            replicas = 1;
        }
        replicas
    }

    /// The replicas that a bottleneck asks for, before the limits.
    pub open spec fn wanted_replicas(self, state: SystemState, bottleneck: Bottleneck) -> nat {
        let now = state.num_replicas as nat;
        let demand = self.demand_replicas(state);
        match bottleneck {
            Bottleneck::Load => demand,
            Bottleneck::Cpu => if demand > now || self.max_cpu@.at_most(
                Scaling::grown(state.cpu_per_replica, 13, self.max_cpu),
            ) {
                demand
            } else {
                now
            },
            Bottleneck::Memory => if demand > now || self.max_mem@.at_most(
                Scaling::grown(state.mem_per_replica, 13, self.max_mem),
            ) {
                demand
            } else {
                now
            },
            Bottleneck::Mixed => demand,
            Bottleneck::Overprovisioned => Scaling::fewer_replicas(
                state.num_replicas,
                self.min_replicas,
            ),
            _ => now,
        }
    }

    /// The CPU per replica that a bottleneck asks for, before the limits.
    pub open spec fn wanted_cpu(self, state: SystemState, bottleneck: Bottleneck) -> Number {
        match bottleneck {
            Bottleneck::Cpu => Scaling::grown(state.cpu_per_replica, 13, self.max_cpu),
            Bottleneck::Mixed => Scaling::grown(state.cpu_per_replica, 12, self.max_cpu),
            Bottleneck::Overprovisioned => Scaling::cut(
                state.cpu_per_replica,
                state.cpu_util,
                self.min_cpu,
            ),
            _ => state.cpu_per_replica@,
        }
    }

    /// The memory per replica that a bottleneck asks for, before the limits.
    pub open spec fn wanted_mem(self, state: SystemState, bottleneck: Bottleneck) -> Number {
        match bottleneck {
            Bottleneck::Memory => Scaling::grown(state.mem_per_replica, 13, self.max_mem),
            Bottleneck::Mixed => Scaling::grown(state.mem_per_replica, 12, self.max_mem),
            Bottleneck::Overprovisioned => Scaling::cut(
                state.mem_per_replica,
                state.mem_util,
                self.min_mem,
            ),
            _ => state.mem_per_replica@,
        }
    }

    /// Does the bottleneck have the demand computed?
    pub open spec fn sizes_by_demand(bottleneck: Bottleneck) -> bool {
        bottleneck is Load || bottleneck is Cpu || bottleneck is Memory || bottleneck is Mixed
    }

    /// Is `target` what the controller makes of the state and the bottleneck?
    pub open spec fn answers(
        self,
        state: SystemState,
        bottleneck: Bottleneck,
        target: TargetState,
    ) -> bool {
        &&& target.num_replicas == Scaling::limited_replicas(
            self.wanted_replicas(state, bottleneck),
            self.min_replicas,
            self.max_replicas,
        )
        &&& target.cpu_per_replica@ == self.wanted_cpu(state, bottleneck).clamped(
            self.min_cpu@,
            self.max_cpu@,
        )
        &&& target.mem_per_replica@ == self.wanted_mem(state, bottleneck).clamped(
            self.min_mem@,
            self.max_mem@,
        )
    }

    /// The target for a state with the given bottleneck.
    pub fn scale(&self, state: &SystemState, bottleneck: &Bottleneck) -> (r: TargetState)
        requires
            self.limits_ordered(),
            Self::sizes_by_demand(*bottleneck) ==> self.demand_fits(*state),
        ensures
            self.answers(*state, *bottleneck, r),
    {
        let mut target_replicas: u32 = state.num_replicas;
        let mut target_cpu: Double = state.cpu_per_replica;
        let mut target_mem: Double = state.mem_per_replica;

        match bottleneck {
            Bottleneck::Load => {
                target_replicas = self.replicas_for_demand(state);
            },
            Bottleneck::Cpu => {
                target_cpu = Scaling::grow(target_cpu, 13, self.max_cpu);
                let demand_replicas: u32 = self.replicas_for_demand(state);
                if demand_replicas > target_replicas || target_cpu.ge(self.max_cpu) {
                    target_replicas = demand_replicas;
                }
            },
            Bottleneck::Memory => {
                target_mem = Scaling::grow(target_mem, 13, self.max_mem);
                let demand_replicas: u32 = self.replicas_for_demand(state);
                if demand_replicas > target_replicas || target_mem.ge(self.max_mem) {
                    target_replicas = demand_replicas;
                }
            },
            Bottleneck::Mixed => {
                target_cpu = Scaling::grow(target_cpu, 12, self.max_cpu);
                target_mem = Scaling::grow(target_mem, 12, self.max_mem);
                target_replicas = self.replicas_for_demand(state);
            },
            Bottleneck::Overprovisioned => {
                target_replicas = Scaling::remove_replicas(target_replicas, self.min_replicas);
                target_cpu = Scaling::reduce(target_cpu, state.cpu_util, self.min_cpu);
                target_mem = Scaling::reduce(target_mem, state.mem_util, self.min_mem);
            },
            Bottleneck::Stable => {},
            Bottleneck::Unknown => {},
        }

        target_replicas = Scaling::limit_replicas(
            target_replicas,
            self.min_replicas,
            self.max_replicas,
        );
        target_cpu = target_cpu.clamp(self.min_cpu, self.max_cpu);
        target_mem = target_mem.clamp(self.min_mem, self.max_mem);

        TargetState {
            num_replicas: target_replicas,
            cpu_per_replica: target_cpu,
            mem_per_replica: target_mem,
        }
    }

    /// Do the counts that a decision is computed from fit into 32 bits?
    pub open spec fn decision_fits(self, state: SystemState, metrics: Metrics) -> bool {
        Self::sizes_by_demand(self.diagnosis(state, metrics)) ==> self.demand_fits(state)
    }

    /// Do the counts that a decision is computed from fit into 32 bits?
    pub fn can_decide(&self, state: &SystemState, metrics: &Metrics) -> (r: bool)
        ensures
            r == self.decision_fits(*state, *metrics),
    {
        match self.diagnose(state, metrics) {
            Bottleneck::Overprovisioned => {
                return true;
            },
            Bottleneck::Stable => {
                return true;
            },
            Bottleneck::Unknown => {
                return true;
            },
            _ => {},
        }
        assert(state.num_replicas * self.slots_per_replica <= u32::MAX * u32::MAX)
            by (nonlinear_arith)
            requires
                state.num_replicas <= u32::MAX,
                self.slots_per_replica <= u32::MAX,
        ;
        assert(0 <= state.num_replicas * self.slots_per_replica) by (nonlinear_arith);
        let total_slots: u64 = state.num_replicas as u64 * self.slots_per_replica as u64;
        if total_slots > u32::MAX as u64 {
            return false;
        }
        let active_slots: u32 = state.cpu_util.div(Double::from_u32(100)).mul(
            Double::from_u32(total_slots as u32),
        ).round_to_u32();
        let demand: u64 = state.waiting_requests as u64 + active_slots as u64;
        demand <= u32::MAX as u64 && (demand == 0 || state.num_replicas <= u32::MAX / 3)
    }

    /// Main control step: diagnose and scale.
    pub fn decide(&self, state: &SystemState, metrics: &Metrics) -> (r: TargetState)
        requires
            self.limits_ordered(),
            self.decision_fits(*state, *metrics),
        ensures
            self.answers(*state, self.diagnosis(*state, *metrics), r),
    {
        let bottleneck: Bottleneck = self.diagnose(state, metrics);
        self.scale(state, &bottleneck)
    }
}

/// The target is within the limits, whatever the state and the bottleneck.
pub proof fn law_target_within_limits(
    controller: Controller,
    state: SystemState,
    bottleneck: Bottleneck,
    target: TargetState,
)
    requires
        controller.limits_ordered(),
        controller.answers(state, bottleneck, target),
        state.cpu_per_replica@ !is Nan,
        state.mem_per_replica@ !is Nan,
    ensures
        controller.allows(target),
{
}

/// A bottleneck never makes the controller take anything away.
pub proof fn law_bottleneck_takes_nothing(
    controller: Controller,
    state: SystemState,
    bottleneck: Bottleneck,
    target: TargetState,
)
    requires
        controller.limits_ordered(),
        controller.answers(state, bottleneck, target),
        controller.has_asked_for(state),
        bottleneck !is Overprovisioned,
    ensures
        state.num_replicas <= target.num_replicas,
        state.cpu_per_replica@.at_most(target.cpu_per_replica@),
        state.mem_per_replica@.at_most(target.mem_per_replica@),
{
    crate::shared::scaling::lemma_grown(state.cpu_per_replica, controller.max_cpu);
    crate::shared::scaling::lemma_grown(state.mem_per_replica, controller.max_mem);
}

/// Where there is more than needed, the controller adds nothing, and takes at least one replica
/// away if there are more than the fewest allowed.
pub proof fn law_overprovisioned_adds_nothing(
    controller: Controller,
    state: SystemState,
    target: TargetState,
)
    requires
        controller.limits_ordered(),
        controller.answers(state, Bottleneck::Overprovisioned, target),
        controller.has_asked_for(state),
    ensures
        target.num_replicas <= state.num_replicas,
        state.num_replicas > controller.min_replicas ==> target.num_replicas < state.num_replicas,
        target.cpu_per_replica@.at_most(state.cpu_per_replica@),
        target.mem_per_replica@.at_most(state.mem_per_replica@),
{
    crate::shared::scaling::lemma_cut(state.cpu_per_replica, controller.min_cpu);
    crate::shared::scaling::lemma_cut(state.mem_per_replica, controller.min_mem);
}

/// A healthy system is left as it is, and so is one that cannot be judged.
pub proof fn law_stable_is_left_alone(
    controller: Controller,
    state: SystemState,
    bottleneck: Bottleneck,
    target: TargetState,
)
    requires
        controller.limits_ordered(),
        controller.answers(state, bottleneck, target),
        controller.has_asked_for(state),
        bottleneck is Stable || bottleneck is Unknown,
    ensures
        target.num_replicas == state.num_replicas,
        target.cpu_per_replica@ == state.cpu_per_replica@,
        target.mem_per_replica@ == state.mem_per_replica@,
{
}

/// Replicas are at most tripled at once, and no demand takes one away.
pub proof fn law_growth_is_capped(controller: Controller, state: SystemState)
    requires
        state.num_replicas > 0,
    ensures
        state.num_replicas <= controller.demand_replicas(state) <= 3 * state.num_replicas,
{
}

/// Unless the cap is reached, the slots of the replicas that are asked for hold the demand, and
/// where replicas are added, one fewer would not do.
pub proof fn law_demand_is_held(controller: Controller, state: SystemState)
    requires
        state.num_replicas > 0,
        controller.slots_per_replica > 0,
        controller.demand_replicas(state) < 3 * state.num_replicas,
    ensures
        controller.demand(state) <= controller.demand_replicas(state)
            * controller.slots_per_replica,
        controller.demand_replicas(state) > state.num_replicas ==> (controller.demand_replicas(
            state,
        ) - 1) * controller.slots_per_replica < controller.demand(state),
{
    let slots = controller.slots_per_replica as int;
    let demand = controller.demand(state) as int;
    let needed = (demand + slots - 1) / slots;
    let replicas = controller.demand_replicas(state) as int;
    vstd::arithmetic::div_mod::lemma_fundamental_div_mod(demand + slots - 1, slots);
    assert(slots * needed == needed * slots) by (nonlinear_arith);
    assert((needed - 1) * slots == needed * slots - slots) by (nonlinear_arith);
    assert(needed * slots <= replicas * slots) by (nonlinear_arith)
        requires
            needed <= replicas || demand == 0 && needed <= 0,
            slots > 0,
            replicas >= 0,
    ;
}

/// A queue, however short, is never taken for a sign of too many replicas.
pub proof fn law_queue_is_no_surplus(
    controller: Controller,
    state: SystemState,
    metrics: Metrics,
)
    requires
        state.waiting_requests > 0,
    ensures
        Controller::sizes_by_demand(controller.diagnosis(state, metrics)),
{
}

/// Latency that was measured earlier is no bottleneck without load: while nothing waits and the
/// replicas are all but idle, nothing is added.
pub proof fn law_idle_latency_is_ignored(
    controller: Controller,
    state: SystemState,
    metrics: Metrics,
)
    requires
        state.waiting_requests == 0,
        !controller.high_cpu(state),
        !controller.high_mem(state),
        !Number::integer(10).below(state.cpu_util@),
    ensures
        !Controller::sizes_by_demand(controller.diagnosis(state, metrics)),
{
}

} // verus!
