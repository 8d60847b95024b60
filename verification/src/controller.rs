use vstd::prelude::*;

use crate::double::{Double, Number};
use crate::shared::metrics::Metrics;
use crate::shared::scaling::Scaling;
use crate::shared::types::{Bottleneck, SystemState, TargetState};

verus! {

/// Unified autoscaler controller that makes both horizontal and vertical scaling decisions, and
/// grows the replica count by fixed steps.
#[derive(Clone, Copy, Debug)]
pub struct Controller {
    pub latency_target_ms: Double,
    pub cpu_util_target: Double,
    pub mem_util_target: Double,
    pub min_replicas: u32,
    pub max_replicas: u32,
    pub min_cpu: Double,
    pub max_cpu: Double,
    pub min_mem: Double,
    pub max_mem: Double,
}

impl Controller {
    /// Each lower limit is at most the upper one.
    pub open spec fn limits_ordered(self) -> bool {
        &&& self.min_replicas <= self.max_replicas
        &&& self.min_cpu@.at_most(self.max_cpu@)
        &&& self.min_mem@.at_most(self.max_mem@)
    }

    /// Is a target within the limits?
    pub open spec fn allows(self, target: TargetState) -> bool {
        &&& self.min_replicas <= target.num_replicas <= self.max_replicas
        &&& self.min_cpu@.at_most(target.cpu_per_replica@)
        &&& target.cpu_per_replica@.at_most(self.max_cpu@)
        &&& self.min_mem@.at_most(target.mem_per_replica@)
        &&& target.mem_per_replica@.at_most(self.max_mem@)
    }

    /// Could the controller have asked for the replicas that there are, and their resources?
    pub open spec fn has_asked_for(self, state: SystemState) -> bool {
        &&& self.min_replicas <= state.num_replicas <= self.max_replicas
        &&& Number::zero(false).at_most(self.min_cpu@)
        &&& self.min_cpu@.at_most(state.cpu_per_replica@)
        &&& state.cpu_per_replica@.at_most(self.max_cpu@)
        &&& state.cpu_per_replica@ is Finite
        &&& Number::zero(false).at_most(self.min_mem@)
        &&& self.min_mem@.at_most(state.mem_per_replica@)
        &&& state.mem_per_replica@.at_most(self.max_mem@)
        &&& state.mem_per_replica@ is Finite
    }

    pub fn new() -> (r: Self)
        ensures
            r.latency_target_ms@ == Number::integer(50),
            r.cpu_util_target@ == Number::integer(70),
            r.mem_util_target@ == Number::integer(70),
            r.min_replicas == 1,
            r.max_replicas == 20,
            r.min_cpu@ == Number::ratio(5, 10),
            r.max_cpu@ == Number::integer(4),
            r.min_mem@ == Number::integer(1),
            r.max_mem@ == Number::integer(8),
            r.limits_ordered(),
    {
        proof {
            crate::double::laws::law_ratio_at_most(5, 10, 4);
            crate::double::laws::law_integers_ordered(1, 8);
        }
        Controller {
            latency_target_ms: Double::from_u32(50),
            cpu_util_target: Double::from_u32(70),
            mem_util_target: Double::from_u32(70),
            min_replicas: 1,
            max_replicas: 20,
            min_cpu: Double::ratio(5, 10),
            max_cpu: Double::from_u32(4),
            min_mem: Double::from_u32(1),
            max_mem: Double::from_u32(8),
        }
    }

    pub open spec fn high_cpu(self, state: SystemState) -> bool {
        self.cpu_util_target@.below(state.cpu_util@)
    }

    pub open spec fn high_mem(self, state: SystemState) -> bool {
        self.mem_util_target@.below(state.mem_util@)
    }

    /// Is a utilisation under three tenths of its target?
    pub open spec fn very_low(util: Double, target: Double) -> bool {
        util@.below(target@.times(Number::ratio(3, 10)))
    }

    pub open spec fn diagnosis(self, state: SystemState, metrics: Metrics) -> Bottleneck {
        if self.latency_target_ms@.below(metrics.avg_latency_ms@) || state.waiting_requests
            > 100 {
            if self.high_cpu(state) && self.high_mem(state) {
                Bottleneck::Mixed
            } else if self.high_cpu(state) {
                Bottleneck::Cpu
            } else if self.high_mem(state) {
                Bottleneck::Memory
            } else {
                Bottleneck::Load
            }
        } else if Self::very_low(state.cpu_util, self.cpu_util_target) && Self::very_low(
            state.mem_util,
            self.mem_util_target,
        ) && state.waiting_requests == 0 && state.num_replicas > self.min_replicas {
            Bottleneck::Overprovisioned
        } else if !self.high_cpu(state) && !self.high_mem(state) {
            Bottleneck::Stable
        } else {
            Bottleneck::Unknown
        }
    }

    /// What keeps the system from its targets?
    pub fn diagnose(&self, state: &SystemState, metrics: &Metrics) -> (r: Bottleneck)
        ensures
            r == self.diagnosis(*state, *metrics),
    {
        let high_latency: bool = metrics.avg_latency_ms.gt(self.latency_target_ms);
        let high_cpu: bool = state.cpu_util.gt(self.cpu_util_target);
        let high_mem: bool = state.mem_util.gt(self.mem_util_target);
        let has_queue: bool = state.waiting_requests > 100;

        // Overprovisioning takes very low utilisation, to avoid thrashing.
        let very_low_cpu: bool = state.cpu_util.lt(
            self.cpu_util_target.mul(Double::ratio(3, 10)),
        );
        let very_low_mem: bool = state.mem_util.lt(
            self.mem_util_target.mul(Double::ratio(3, 10)),
        );
        let no_queue: bool = state.waiting_requests == 0;

        if high_latency || has_queue {
            if high_cpu && high_mem {
                Bottleneck::Mixed
            } else if high_cpu {
                Bottleneck::Cpu
            } else if high_mem {
                Bottleneck::Memory
            } else {
                Bottleneck::Load
            }
        } else if very_low_cpu && very_low_mem && no_queue && state.num_replicas
            > self.min_replicas {
            Bottleneck::Overprovisioned
        } else if !high_cpu && !high_mem && !has_queue {
            Bottleneck::Stable
        } else {
            Bottleneck::Unknown
        }
    }

    /// The replicas grown by `tenths / 10`, rounded up.
    pub open spec fn more_replicas(now: u32, tenths: nat) -> nat {
        let more = (now * tenths + 9) / 10;
        if more > u32::MAX {
            u32::MAX as nat
        } else {
            more as nat
        }
    }

    fn add_replicas(now: u32, tenths: u64) -> (r: u32)
        requires
            tenths == 12 || tenths == 13 || tenths == 15,
        ensures
            r == Self::more_replicas(now, tenths as nat),
    {
        proof {
            crate::double::decimals::law_tenths_ceiling(
                now as nat,
                tenths as nat,
                u32::MAX as nat,
            );
        }
        Double::from_u32(now).mul(Double::ratio(tenths, 10)).ceil_to_u32()
    }

    /// The replicas that a bottleneck asks for, before the limits.
    pub open spec fn wanted_replicas(self, state: SystemState, bottleneck: Bottleneck) -> nat {
        let now = state.num_replicas;
        match bottleneck {
            Bottleneck::Load => Self::more_replicas(now, 15),
            Bottleneck::Cpu => if self.max_cpu@.at_most(
                Scaling::grown(state.cpu_per_replica, 13, self.max_cpu),
            ) {
                Self::more_replicas(now, 12)
            } else {
                now as nat
            },
            Bottleneck::Memory => if self.max_mem@.at_most(
                Scaling::grown(state.mem_per_replica, 13, self.max_mem),
            ) {
                Self::more_replicas(now, 12)
            } else {
                now as nat
            },
            Bottleneck::Mixed => Self::more_replicas(now, 13),
            Bottleneck::Overprovisioned => Scaling::fewer_replicas(now, self.min_replicas),
            _ => now as nat,
        }
    }

    /// The CPU per replica that a bottleneck asks for, before the limits.
    pub open spec fn wanted_cpu(self, state: SystemState, bottleneck: Bottleneck) -> Number {
        match bottleneck {
            Bottleneck::Cpu => Scaling::grown(state.cpu_per_replica, 13, self.max_cpu),
            Bottleneck::Mixed => Scaling::grown(state.cpu_per_replica, 12, self.max_cpu),
            Bottleneck::Overprovisioned => Scaling::cut(
                state.cpu_per_replica,
                state.cpu_util,
                self.min_cpu,
            ),
            _ => state.cpu_per_replica@,
        }
    }

    /// The memory per replica that a bottleneck asks for, before the limits.
    pub open spec fn wanted_mem(self, state: SystemState, bottleneck: Bottleneck) -> Number {
        match bottleneck {
            Bottleneck::Memory => Scaling::grown(state.mem_per_replica, 13, self.max_mem),
            Bottleneck::Mixed => Scaling::grown(state.mem_per_replica, 12, self.max_mem),
            Bottleneck::Overprovisioned => Scaling::cut(
                state.mem_per_replica,
                state.mem_util,
                self.min_mem,
            ),
            _ => state.mem_per_replica@,
        }
    }

    /// Is `target` what the controller makes of the state and the bottleneck?
    pub open spec fn answers(
        self,
        state: SystemState,
        bottleneck: Bottleneck,
        target: TargetState,
    ) -> bool {
        &&& target.num_replicas == Scaling::limited_replicas(
            self.wanted_replicas(state, bottleneck),
            self.min_replicas,
            self.max_replicas,
        )
        &&& target.cpu_per_replica@ == self.wanted_cpu(state, bottleneck).clamped(
            self.min_cpu@,
            self.max_cpu@,
        )
        &&& target.mem_per_replica@ == self.wanted_mem(state, bottleneck).clamped(
            self.min_mem@,
            self.max_mem@,
        )
    }

    /// The target for a state with the given bottleneck.
    pub fn scale(&self, state: &SystemState, bottleneck: &Bottleneck) -> (r: TargetState)
        requires
            self.limits_ordered(),
        ensures
            self.answers(*state, *bottleneck, r),
    {
        let mut target_replicas: u32 = state.num_replicas;
        let mut target_cpu: Double = state.cpu_per_replica;
        let mut target_mem: Double = state.mem_per_replica;

        match bottleneck {
            Bottleneck::Load => {
                target_replicas = Self::add_replicas(target_replicas, 15);
            },
            Bottleneck::Cpu => {
                target_cpu = Scaling::grow(target_cpu, 13, self.max_cpu);
                // Replicas are added once the CPU is at its limit.
                if target_cpu.ge(self.max_cpu) {
                    target_replicas = Self::add_replicas(target_replicas, 12);
                }
            },
            Bottleneck::Memory => {
                target_mem = Scaling::grow(target_mem, 13, self.max_mem);
                // Replicas are added once the memory is at its limit.
                if target_mem.ge(self.max_mem) {
                    target_replicas = Self::add_replicas(target_replicas, 12);
                }
            },
            Bottleneck::Mixed => {
                target_cpu = Scaling::grow(target_cpu, 12, self.max_cpu);
                target_mem = Scaling::grow(target_mem, 12, self.max_mem);
                target_replicas = Self::add_replicas(target_replicas, 13);
            },
            Bottleneck::Overprovisioned => {
                target_replicas = Scaling::remove_replicas(target_replicas, self.min_replicas);
                target_cpu = Scaling::reduce(target_cpu, state.cpu_util, self.min_cpu);
                target_mem = Scaling::reduce(target_mem, state.mem_util, self.min_mem);
            },
            Bottleneck::Stable => {},
            Bottleneck::Unknown => {},
        }

        target_replicas = Scaling::limit_replicas(
            target_replicas,
            self.min_replicas,
            self.max_replicas,
        );
        target_cpu = target_cpu.clamp(self.min_cpu, self.max_cpu);
        target_mem = target_mem.clamp(self.min_mem, self.max_mem);

        TargetState {
            num_replicas: target_replicas,
            cpu_per_replica: target_cpu,
            mem_per_replica: target_mem,
        }
    }

    /// Main control step: diagnose and scale.
    pub fn decide(&self, state: &SystemState, metrics: &Metrics) -> (r: TargetState)
        requires
            self.limits_ordered(),
        ensures
            self.answers(*state, self.diagnosis(*state, *metrics), r),
    {
        let bottleneck: Bottleneck = self.diagnose(state, metrics);
        self.scale(state, &bottleneck)
    }
}

/// The target is within the limits, whatever the state and the bottleneck.
pub proof fn law_target_within_limits(
    controller: Controller,
    state: SystemState,
    bottleneck: Bottleneck,
    target: TargetState,
)
    requires
        controller.limits_ordered(),
        controller.answers(state, bottleneck, target),
        state.cpu_per_replica@ !is Nan,
        state.mem_per_replica@ !is Nan,
    ensures
        controller.allows(target),
{
}

/// A bottleneck never makes the controller take anything away.
pub proof fn law_bottleneck_takes_nothing(
    controller: Controller,
    state: SystemState,
    bottleneck: Bottleneck,
    target: TargetState,
)
    requires
        controller.limits_ordered(),
        controller.answers(state, bottleneck, target),
        controller.has_asked_for(state),
        bottleneck !is Overprovisioned,
    ensures
        state.num_replicas <= target.num_replicas,
        state.cpu_per_replica@.at_most(target.cpu_per_replica@),
        state.mem_per_replica@.at_most(target.mem_per_replica@),
{
    crate::shared::scaling::lemma_grown(state.cpu_per_replica, controller.max_cpu);
    crate::shared::scaling::lemma_grown(state.mem_per_replica, controller.max_mem);
}

/// Where there is more than needed, the controller adds nothing, and takes at least one replica
/// away if there are more than the fewest allowed.
pub proof fn law_overprovisioned_adds_nothing(
    controller: Controller,
    state: SystemState,
    target: TargetState,
)
    requires
        controller.limits_ordered(),
        controller.answers(state, Bottleneck::Overprovisioned, target),
        controller.has_asked_for(state),
    ensures
        target.num_replicas <= state.num_replicas,
        state.num_replicas > controller.min_replicas ==> target.num_replicas < state.num_replicas,
        target.cpu_per_replica@.at_most(state.cpu_per_replica@),
        target.mem_per_replica@.at_most(state.mem_per_replica@),
{
    crate::shared::scaling::lemma_cut(state.cpu_per_replica, controller.min_cpu);
    crate::shared::scaling::lemma_cut(state.mem_per_replica, controller.min_mem);
}

/// A healthy system is left as it is, and so is one that cannot be judged.
pub proof fn law_stable_is_left_alone(
    controller: Controller,
    state: SystemState,
    bottleneck: Bottleneck,
    target: TargetState,
)
    requires
        controller.limits_ordered(),
        controller.answers(state, bottleneck, target),
        controller.has_asked_for(state),
        bottleneck is Stable || bottleneck is Unknown,
    ensures
        target.num_replicas == state.num_replicas,
        target.cpu_per_replica@ == state.cpu_per_replica@,
        target.mem_per_replica@ == state.mem_per_replica@,
{
}

/// A load that is too high brings one more replica at least, unless there are as many as allowed.
pub proof fn law_load_adds_a_replica(
    controller: Controller,
    state: SystemState,
    target: TargetState,
)
    requires
        controller.limits_ordered(),
        controller.answers(state, Bottleneck::Load, target),
        0 < state.num_replicas < controller.max_replicas,
    ensures
        target.num_replicas > state.num_replicas,
{
}

} // verus!
