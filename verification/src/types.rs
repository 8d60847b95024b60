use vstd::prelude::*;

use crate::double::{Double, Number};

pub use crate::shared::types::{Bottleneck, SystemState, TargetState};

verus! {

/// A replica that was asked for and is not ready yet.
#[derive(Clone, Copy, Debug)]
pub struct PendingReplica {
    pub ready_at_s: u32,
}

/// Internal simulator state, separate from the observable `SystemState` that the controller
/// sees.
#[derive(Clone, Debug)]
pub struct SimulatorState {
    pub time: u32,
    pub queue: u32,
    pub active_replicas: u32,
    pub pending_replicas: Vec<PendingReplica>,
    pub cpu_per_replica: Double,
    pub mem_per_replica: Double,
}

impl SimulatorState {
    /// The times at which the pending replicas are ready.
    pub open spec fn ready_times(self) -> Seq<u32> {
        self.pending_replicas@.map_values(|pending: PendingReplica| pending.ready_at_s)
    }
}

impl Default for SimulatorState {
    fn default() -> (r: Self)
        ensures
            r.time == 0,
            r.queue == 0,
            r.active_replicas == 1,
            r.ready_times() == Seq::<u32>::empty(),
            r.cpu_per_replica@ == Number::integer(1),
            r.mem_per_replica@ == Number::integer(2),
    {
        let r: SimulatorState = SimulatorState {
            time: 0,
            queue: 0,
            active_replicas: 1,
            pending_replicas: Vec::new(),
            cpu_per_replica: Double::from_u32(1),
            mem_per_replica: Double::from_u32(2),
        };
        assert(r.ready_times() =~= Seq::<u32>::empty());
        r
    }
}

} // verus!
