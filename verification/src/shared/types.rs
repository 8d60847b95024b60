use vstd::prelude::*;

use crate::double::{Double, Number};

verus! {

/// Observable system state, fed into the controller on every tick.
#[derive(Clone, Copy, Debug)]
pub struct SystemState {
    pub time_s: u32,
    pub waiting_requests: u32,
    pub incoming_requests: u32,
    pub incoming_rps: Double,
    pub dropped_requests: u32,
    pub num_replicas: u32,
    pub cpu_per_replica: Double,
    pub mem_per_replica: Double,
    pub cpu_util: Double,
    pub mem_util: Double,
}

impl Default for SystemState {
    fn default() -> (r: Self)
        ensures
            r.time_s == 0,
            r.waiting_requests == 0,
            r.incoming_requests == 0,
            r.incoming_rps@ == Number::zero(false),
            r.dropped_requests == 0,
            r.num_replicas == 0,
            r.cpu_per_replica@ == Number::zero(false),
            r.mem_per_replica@ == Number::zero(false),
            r.cpu_util@ == Number::zero(false),
            r.mem_util@ == Number::zero(false),
    {
        let zero: Double = Double::from_bits(0);
        SystemState {
            time_s: 0,
            waiting_requests: 0,
            incoming_requests: 0,
            incoming_rps: zero,
            dropped_requests: 0,
            num_replicas: 0,
            cpu_per_replica: zero,
            mem_per_replica: zero,
            cpu_util: zero,
            mem_util: zero,
        }
    }
}

/// The target that the controller wants the system to converge toward.
#[derive(Clone, Copy, Debug)]
pub struct TargetState {
    pub num_replicas: u32,
    pub cpu_per_replica: Double,
    pub mem_per_replica: Double,
}

impl Default for TargetState {
    fn default() -> (r: Self)
        ensures
            r.num_replicas == 1,
            r.cpu_per_replica@ == Number::integer(1),
            r.mem_per_replica@ == Number::integer(2),
    {
        TargetState {
            num_replicas: 1,
            cpu_per_replica: Double::from_u32(1),
            mem_per_replica: Double::from_u32(2),
        }
    }
}

impl TargetState {
    /// Do the two values differ by more than a hundredth?
    pub open spec fn apart(a: Double, b: Double) -> bool {
        Number::ratio(1, 100).below(a@.minus(b@).absolute())
    }

    /// Do the workers have to be told of the new target?
    pub open spec fn differs(self, new: TargetState) -> bool {
        new.num_replicas != self.num_replicas || Self::apart(
            new.cpu_per_replica,
            self.cpu_per_replica,
        )
    }

    /// Do the workers have to be told of the new target?
    pub fn is_different(&self, new: &TargetState) -> (r: bool)
        ensures
            r == self.differs(*new),
    {
        new.num_replicas != self.num_replicas || Self::is_apart(
            new.cpu_per_replica,
            self.cpu_per_replica,
        )
    }

    /// Do the two values differ by more than a hundredth?
    pub fn is_apart(a: Double, b: Double) -> (r: bool)
        ensures
            r == Self::apart(a, b),
    {
        a.sub(b).abs().gt(Double::ratio(1, 100))
    }
}

/// What the controller diagnosed as the current system bottleneck.
#[derive(Clone, Copy, Debug, PartialEq, Eq, Structural)]
pub enum Bottleneck {
    /// Total incoming demand too high for the current replica count: horizontal scaling needed.
    Load,
    /// Replicas are individually CPU-bound: vertical CPU scaling needed.
    Cpu,
    /// Replicas are individually memory-bound: vertical memory scaling needed.
    Memory,
    /// Multiple bottlenecks present simultaneously.
    Mixed,
    /// The system has more resources than needed: scale down.
    Overprovisioned,
    /// The system is healthy and right-sized.
    Stable,
    /// The state cannot be determined from the available signals.
    Unknown,
}

} // verus!
