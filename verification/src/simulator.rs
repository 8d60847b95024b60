use vstd::prelude::*;

use crate::double::{Double, Number};
use crate::types::{PendingReplica, SimulatorState, SystemState, TargetState};

verus! {

/// Configuration of the simulator.
#[derive(Clone, Copy, Debug)]
pub struct SimulatorConfig {
    pub requests_per_cpu_per_sec: Double,
    /// In gigabytes.
    pub memory_per_request: Double,
    pub replica_warmup_time_s: u32,
    pub max_queue_size: u32,
}

impl Default for SimulatorConfig {
    fn default() -> (r: Self)
        ensures
            r.requests_per_cpu_per_sec@ == Number::integer(100),
            r.memory_per_request@ == Number::ratio(1, 100),
            r.replica_warmup_time_s == 10,
            r.max_queue_size == 10000,
    {
        SimulatorConfig {
            requests_per_cpu_per_sec: Double::from_u32(100),
            memory_per_request: Double::ratio(1, 100),
            replica_warmup_time_s: 10,
            max_queue_size: 10000,
        }
    }
}

/// The replicas of a simulated system: how many are active, and when the others are ready.
pub struct Replicas {
    pub active: nat,
    pub ready_times: Seq<u32>,
}

impl Replicas {
    pub open spec fn total(self) -> nat {
        self.active + self.ready_times.len()
    }

    /// The replicas once those that are ready by `time` have become active.
    pub open spec fn at(self, time: nat) -> Replicas {
        let waiting = self.ready_times.filter(|ready: u32| time < ready);
        Replicas {
            active: (self.total() - waiting.len()) as nat,
            ready_times: waiting,
        }
    }

    /// The replicas on their way to a target.
    ///
    /// Missing replicas are asked for, and ready after the warm-up. Of too many active ones, one
    /// is stopped, and those pending are given up. Too many pending ones are given up, the last
    /// first.
    pub open spec fn toward(self, target: nat, ready: u32) -> Replicas {
        if self.total() < target {
            Replicas {
                active: self.active,
                ready_times: self.ready_times + Seq::new(
                    (target - self.total()) as nat,
                    |i: int| ready,
                ),
            }
        } else if self.active > target {
            Replicas { active: (self.active - 1) as nat, ready_times: Seq::empty() }
        } else {
            Replicas {
                active: self.active,
                ready_times: self.ready_times.take(target - self.active),
            }
        }
    }
}

/// What one second does to the queue.
pub struct QueueStep {
    pub waiting: nat,
    pub dropped: nat,
}

impl SimulatorConfig {
    pub open spec fn replicas(state: SimulatorState) -> Replicas {
        Replicas { active: state.active_replicas as nat, ready_times: state.ready_times() }
    }

    /// The replicas one second later.
    pub open spec fn next_replicas(self, state: SimulatorState, target: TargetState) -> Replicas {
        Self::replicas(state).at((state.time + 1) as nat).toward(
            target.num_replicas as nat,
            (state.time + 1 + self.replica_warmup_time_s) as u32,
        )
    }

    /// The requests that one replica serves in a second.
    pub open spec fn capacity_per_replica(self, target: TargetState) -> Number {
        target.cpu_per_replica@.times(self.requests_per_cpu_per_sec@)
    }

    /// The requests that all active replicas serve in a second, not rounded.
    pub open spec fn throughput(self, active: nat, target: TargetState) -> Number {
        Number::integer(active).times(self.capacity_per_replica(target))
    }

    /// The queue one second later: what came in is added, what the replicas serve is taken off,
    /// and what is over the limit is dropped.
    pub open spec fn next_queue(self, queue: nat, incoming: nat, capacity: nat) -> QueueStep {
        let left = if queue + incoming <= capacity {
            0
        } else {
            (queue + incoming - capacity) as nat
        };
        if left > self.max_queue_size {
            QueueStep {
                waiting: self.max_queue_size as nat,
                dropped: (left - self.max_queue_size) as nat,
            }
        } else {
            QueueStep { waiting: left, dropped: 0 }
        }
    }

    /// A share as a percentage of at most 100.
    pub open spec fn percentage(part: Number, whole: Number) -> Number {
        part.over(whole).lesser(Number::integer(1)).times(Number::integer(100))
    }

    pub open spec fn cpu_util(self, active: nat, target: TargetState, rps: Number) -> Number {
        if active > 0 && Number::zero(false).below(self.capacity_per_replica(target)) {
            Self::percentage(rps, self.throughput(active, target))
        } else {
            Number::zero(false)
        }
    }

    pub open spec fn mem_util(self, active: nat, target: TargetState, rps: Number) -> Number {
        let total = Number::integer(active).times(target.mem_per_replica@);
        if Number::zero(false).below(total) {
            Self::percentage(rps.times(self.memory_per_request@), total)
        } else {
            Number::zero(false)
        }
    }

    /// The counters of the next second fit into 32 bits.
    pub open spec fn step_fits(self, state: SimulatorState, target: TargetState, rps: Number) -> bool {
        &&& state.time < u32::MAX
        &&& state.active_replicas + state.pending_replicas@.len() <= u32::MAX
        &&& Self::replicas(state).total() < target.num_replicas ==> state.time + 1
            + self.replica_warmup_time_s <= u32::MAX
        &&& state.queue + rps.truncated(u32::MAX as nat) <= u32::MAX
    }

    /// Is the pair of states what one second makes of `state`?
    pub open spec fn stepped(
        self,
        state: SimulatorState,
        target: TargetState,
        rps: Number,
        next: SimulatorState,
        seen: SystemState,
    ) -> bool {
        let replicas = self.next_replicas(state, target);
        let incoming = rps.truncated(u32::MAX as nat);
        let queue = self.next_queue(
            state.queue as nat,
            incoming,
            self.throughput(replicas.active, target).truncated(u32::MAX as nat),
        );
        &&& next.time == state.time + 1
        &&& next.queue == queue.waiting
        &&& next.active_replicas == replicas.active
        &&& next.ready_times() == replicas.ready_times
        &&& next.cpu_per_replica == target.cpu_per_replica
        &&& next.mem_per_replica == target.mem_per_replica
        &&& seen.time_s == next.time
        &&& seen.waiting_requests == next.queue
        &&& seen.incoming_requests == incoming
        &&& seen.incoming_rps@ == rps
        &&& seen.dropped_requests == queue.dropped
        &&& seen.num_replicas == next.active_replicas
        &&& seen.cpu_per_replica == target.cpu_per_replica
        &&& seen.mem_per_replica == target.mem_per_replica
        &&& seen.cpu_util@ == self.cpu_util(replicas.active, target, rps)
        &&& seen.mem_util@ == self.mem_util(replicas.active, target, rps)
    }
}

/// The pending replicas that are not ready by `time`.
fn still_pending(pending: &Vec<PendingReplica>, time: u32) -> (r: Vec<PendingReplica>)
    ensures
        r@.map_values(|p: PendingReplica| p.ready_at_s) == pending@.map_values(
            |p: PendingReplica| p.ready_at_s,
        ).filter(|ready: u32| time < ready),
        r@.len() <= pending@.len(),
{
    let ghost times = pending@.map_values(|p: PendingReplica| p.ready_at_s);
    let ghost waiting = |ready: u32| time < ready;
    let mut kept: Vec<PendingReplica> = Vec::new();
    let mut i: usize = 0;
    proof {
        assert(times.take(0) =~= Seq::<u32>::empty());
        reveal(Seq::filter);
        assert(kept@.map_values(|p: PendingReplica| p.ready_at_s) =~= times.take(0).filter(waiting));
    }
    while i < pending.len()
        invariant
            i <= pending@.len(),
            times == pending@.map_values(|p: PendingReplica| p.ready_at_s),
            waiting == (|ready: u32| time < ready),
            kept@.map_values(|p: PendingReplica| p.ready_at_s) == times.take(i as int).filter(
                waiting,
            ),
            kept@.len() <= i,
        decreases pending@.len() - i,
    {
        proof {
            reveal(Seq::filter);
            assert(times.take(i + 1).drop_last() =~= times.take(i as int));
        }
        let ghost before = kept@;
        if time < pending[i].ready_at_s {
            kept.push(pending[i]);
            assert(kept@.map_values(|p: PendingReplica| p.ready_at_s) =~= before.map_values(
                |p: PendingReplica| p.ready_at_s,
            ).push(pending@[i as int].ready_at_s));
        }
        i = i + 1;
    }
    assert(times.take(times.len() as int) =~= times);
    kept
}

/// Do the counters of the next second fit into 32 bits?
pub fn can_step(
    config: &SimulatorConfig,
    state: &SimulatorState,
    target: &TargetState,
    incoming_rps: Double,
) -> (r: bool)
    ensures
        r == config.step_fits(*state, *target, incoming_rps@),
{
    let active: u64 = state.active_replicas as u64;
    let pending: u64 = state.pending_replicas.len() as u64;
    assert(SimulatorConfig::replicas(*state).total() == active + pending);
    if state.time == u32::MAX || pending > u32::MAX as u64 - active {
        return false;
    }
    if active + pending < target.num_replicas as u64 && config.replica_warmup_time_s > u32::MAX
        - state.time - 1 {
        return false;
    }
    state.queue <= u32::MAX - incoming_rps.to_u32()
}

/// Advances the simulation by one second.
pub fn step(
    config: &SimulatorConfig,
    state: SimulatorState,
    target: &TargetState,
    incoming_rps: Double,
) -> (r: (SimulatorState, SystemState))
    requires
        config.step_fits(state, *target, incoming_rps@),
    ensures
        config.stepped(state, *target, incoming_rps@, r.0, r.1),
{
    let ghost before: Replicas = SimulatorConfig::replicas(state);
    let time: u32 = state.time + 1;

    // Pending replicas that are ready become active.
    let mut pending_replicas: Vec<PendingReplica> = still_pending(&state.pending_replicas, time);
    let ready: u32 = (state.pending_replicas.len() - pending_replicas.len()) as u32;
    let mut active_replicas: u32 = state.active_replicas + ready;
    let ghost risen: Replicas = before.at(time as nat);
    proof {
        assert(risen.ready_times == pending_replicas@.map_values(
            |p: PendingReplica| p.ready_at_s,
        ));
        assert(risen.active == active_replicas);
    }

    // Vertical scaling is immediate.
    let cpu_per_replica: Double = target.cpu_per_replica;
    let mem_per_replica: Double = target.mem_per_replica;

    // Horizontal scaling takes time.
    let total_replicas: u32 = active_replicas + pending_replicas.len() as u32;
    let ghost goal: Replicas = config.next_replicas(state, *target);
    if total_replicas < target.num_replicas {
        let to_add: u32 = target.num_replicas - total_replicas;
        let ready_at_s: u32 = time + config.replica_warmup_time_s;
        let ghost had = pending_replicas@;
        let mut added: u32 = 0;
        while added < to_add
            invariant
                added <= to_add,
                pending_replicas@ == had + Seq::new(
                    added as nat,
                    |i: int| PendingReplica { ready_at_s },
                ),
            decreases to_add - added,
        {
            let ghost prior = pending_replicas@;
            pending_replicas.push(PendingReplica { ready_at_s });
            added = added + 1;
            assert(pending_replicas@ =~= had + Seq::new(
                added as nat,
                |i: int| PendingReplica { ready_at_s },
            ));
        }
        assert(pending_replicas@.map_values(|p: PendingReplica| p.ready_at_s)
            =~= goal.ready_times);
    } else if total_replicas > target.num_replicas {
        if active_replicas > target.num_replicas {
            // Replicas are stopped one each second.
            active_replicas = active_replicas - 1;
            pending_replicas.clear();
        } else {
            pending_replicas.truncate((target.num_replicas - active_replicas) as usize);
        }
        assert(pending_replicas@.map_values(|p: PendingReplica| p.ready_at_s)
            =~= goal.ready_times);
    } else {
        assert(pending_replicas@.map_values(|p: PendingReplica| p.ready_at_s)
            =~= goal.ready_times);
    }
    assert(active_replicas == goal.active);

    // Capacity
    let capacity_per_replica: Double = cpu_per_replica.mul(config.requests_per_cpu_per_sec);
    let throughput: Double = Double::from_u32(active_replicas).mul(capacity_per_replica);
    let total_capacity: u32 = throughput.to_u32();

    // Queue
    let incoming: u32 = incoming_rps.to_u32();
    let mut queue: u32 = state.queue + incoming;
    let processed: u32 = if queue < total_capacity {
        queue
    } else {
        total_capacity
    };
    queue = queue - processed;
    let dropped: u32 = if queue > config.max_queue_size {
        let excess: u32 = queue - config.max_queue_size;
        queue = config.max_queue_size;
        excess
    } else {
        0
    };

    // Utilisation
    let zero: Double = Double::from_bits(0);
    let one: Double = Double::from_u32(1);
    let hundred: Double = Double::from_u32(100);
    let cpu_util: Double = if active_replicas > 0 && capacity_per_replica.gt(zero) {
        incoming_rps.div(throughput).min(one).mul(hundred)
    } else {
        zero
    };
    let used_memory: Double = incoming_rps.mul(config.memory_per_request);
    let total_memory: Double = Double::from_u32(active_replicas).mul(mem_per_replica);
    let mem_util: Double = if total_memory.gt(zero) {
        used_memory.div(total_memory).min(one).mul(hundred)
    } else {
        zero
    };

    let new_sim_state: SimulatorState = SimulatorState {
        time,
        queue,
        active_replicas,
        pending_replicas,
        cpu_per_replica,
        mem_per_replica,
    };
    let system_state: SystemState = SystemState {
        time_s: time,
        waiting_requests: queue,
        incoming_requests: incoming,
        incoming_rps,
        dropped_requests: dropped,
        num_replicas: active_replicas,
        cpu_per_replica,
        mem_per_replica,
        cpu_util,
        mem_util,
    };
    (new_sim_state, system_state)
}

/// No request is lost: what waited and what came is served, waits or is dropped. What is served is
/// no more than the replicas can serve, and nothing is dropped as long as there is room.
pub proof fn law_requests_are_conserved(
    config: SimulatorConfig,
    state: SimulatorState,
    target: TargetState,
    rps: Number,
    next: SimulatorState,
    seen: SystemState,
)
    requires
        config.stepped(state, target, rps, next, seen),
    ensures
        ({
            let served = state.queue + seen.incoming_requests - next.queue
                - seen.dropped_requests;
            let capacity = config.throughput(next.active_replicas as nat, target).truncated(
                u32::MAX as nat,
            );
            &&& 0 <= served <= capacity
            &&& served < capacity ==> next.queue == 0 && seen.dropped_requests == 0
            &&& seen.dropped_requests > 0 ==> next.queue == config.max_queue_size
        }),
{
}

/// The queue never exceeds its limit.
pub proof fn law_queue_is_limited(
    config: SimulatorConfig,
    state: SimulatorState,
    target: TargetState,
    rps: Number,
    next: SimulatorState,
    seen: SystemState,
)
    requires
        config.stepped(state, target, rps, next, seen),
    ensures
        next.queue <= config.max_queue_size,
        seen.waiting_requests == next.queue,
{
}

/// The replicas that are ready become active, and no other: none before its warm-up is over.
pub proof fn law_warm_up_is_kept(replicas: Replicas, time: nat)
    ensures
        replicas.at(time).total() == replicas.total(),
        replicas.at(time).active >= replicas.active,
        forall|i: int|
            0 <= i < replicas.at(time).ready_times.len() ==> time < (#[trigger] replicas.at(
                time,
            ).ready_times[i]),
        (forall|i: int|
            0 <= i < replicas.ready_times.len() ==> time < (#[trigger] replicas.ready_times[i]))
            ==> replicas.at(time) == replicas,
{
    let waiting = |ready: u32| time < ready;
    replicas.ready_times.lemma_filter_len(waiting);
    let kept = replicas.ready_times.filter(waiting);
    assert forall|i: int| 0 <= i < kept.len() implies time < (#[trigger] kept[i]) by {
        replicas.ready_times.lemma_filter_pred(waiting, i);
    }
    if forall|i: int|
        0 <= i < replicas.ready_times.len() ==> time < (#[trigger] replicas.ready_times[i]) {
        lemma_all_kept(replicas.ready_times, waiting);
    }
}

proof fn lemma_all_kept(times: Seq<u32>, keep: spec_fn(u32) -> bool)
    requires
        forall|i: int| 0 <= i < times.len() ==> keep(#[trigger] times[i]),
    ensures
        times.filter(keep) == times,
    decreases times.len(),
{
    reveal(Seq::filter);
    if times.len() > 0 {
        let rest = times.drop_last();
        assert forall|i: int| 0 <= i < rest.len() implies keep(#[trigger] rest[i]) by {
            assert(keep(times[i]));
        }
        lemma_all_kept(rest, keep);
        assert(keep(times[times.len() - 1]));
        assert(times =~= rest.push(times.last()));
    }
}

/// In each second the replicas come to be as many as asked for, unless more are active: then one
/// of those is stopped.
pub proof fn law_replicas_approach_target(replicas: Replicas, target: nat, ready: u32)
    ensures
        ({
            let next = replicas.toward(target, ready);
            &&& replicas.active <= target ==> next.total() == target && next.active
                == replicas.active
            &&& replicas.active > target ==> next.total() == replicas.active - 1 && next.active
                == replicas.active - 1
        }),
{
}

/// Once as many replicas are active as asked for, nothing changes.
pub proof fn law_settled_replicas_stay(
    config: SimulatorConfig,
    state: SimulatorState,
    target: TargetState,
    rps: Number,
    next: SimulatorState,
    seen: SystemState,
)
    requires
        config.stepped(state, target, rps, next, seen),
        state.active_replicas == target.num_replicas,
        state.pending_replicas@.len() == 0,
    ensures
        next.active_replicas == target.num_replicas,
        next.pending_replicas@.len() == 0,
{
    law_warm_up_is_kept(SimulatorConfig::replicas(state), (state.time + 1) as nat);
    assert(next.pending_replicas@.len() == next.ready_times().len());
}

/// Replicas on their way keep the time at which they are ready; new ones are ready when their
/// warm-up is over.
pub proof fn law_new_replicas_warm_up(
    replicas: Replicas,
    target: nat,
    ready: u32,
    i: int,
)
    requires
        0 <= i < replicas.toward(target, ready).ready_times.len(),
    ensures
        i < replicas.ready_times.len() ==> replicas.toward(target, ready).ready_times[i]
            == replicas.ready_times[i],
        i >= replicas.ready_times.len() ==> replicas.toward(target, ready).ready_times[i] == ready,
{
}

/// A share of what there is, in percent, is never under 0 nor over 100.
pub proof fn law_percentage_in_range(part: Number, whole: Number)
    requires
        Number::zero(false).at_most(part),
        !part.is_negative(),
        Number::zero(false).below(whole),
    ensures
        Number::zero(false).at_most(SimulatorConfig::percentage(part, whole)),
        SimulatorConfig::percentage(part, whole).at_most(Number::integer(100)),
{
    crate::double::laws::law_integers_exact(1);
    crate::double::laws::law_integers_exact(100);
    crate::double::laws::lemma_not_zero(100);
    let one = vstd::arithmetic::power2::pow2(1074);
    vstd::arithmetic::power2::lemma_pow2_pos(1074);
    vstd::arithmetic::power2::lemma_pow2_pos(2148);
    vstd::arithmetic::power2::lemma_pow2_adds(1074, 1074);
    let share = part.over(whole);
    if part is Finite && whole is Finite {
        crate::double::laws::law_rounding_representable(
            false,
            part.magnitude(),
            whole.magnitude(),
        );
    }
    if !(share is Nan) {
        assert(!share.is_negative());
    }
    let limited = share.lesser(Number::integer(1));
    assert(limited is Finite && !limited.is_negative());
    assert(limited.magnitude() <= one);
    let a = limited.magnitude();
    let hundred = (100 * one) as nat;
    assert((a * hundred) * one <= hundred * (one * one)) by (nonlinear_arith)
        requires
            a <= one,
    ;
    crate::double::laws::law_rounding_not_above(
        false,
        a * hundred,
        vstd::arithmetic::power2::pow2(2148),
        Number::integer(100),
    );
    crate::double::laws::law_rounding_representable(
        false,
        a * hundred,
        vstd::arithmetic::power2::pow2(2148),
    );
}

} // verus!
