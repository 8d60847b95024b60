use vstd::prelude::*;

use crate::double::{Double, Number};
use crate::http::controller::Decision;
use crate::http::instance::InstanceMetrics;
use crate::shared::controller::Controller;
use crate::shared::metrics::Metrics;
use crate::shared::types::{SystemState, TargetState};
use crate::text::Text;

verus! {

/// The seconds that lie between two decisions at least, even in an emergency.
pub const EMERGENCY_PAUSE_S: u32 = 3;

/// Which ways of scaling are used.
#[derive(Clone, Copy, Debug, PartialEq, Eq, Structural)]
pub enum Policy {
    /// Both.
    Unified,
    /// Horizontal only: the CPU per replica is never changed.
    HpaOnly,
    /// Vertical only: the number of replicas is never changed.
    VpaOnly,
}

impl Policy {
    pub open spec fn named(name: Seq<char>) -> Policy {
        if name == "hpa-only"@ {
            Policy::HpaOnly
        } else if name == "vpa-only"@ {
            Policy::VpaOnly
        } else {
            Policy::Unified
        }
    }

    /// The policy of a name; any other name stands for both ways.
    pub fn of_name(name: &str) -> (r: Policy)
        ensures
            r == Self::named(name@),
    {
        let chars: Vec<char> = Text::chars(name);
        if Text::same(chars.as_slice(), "hpa-only") {
            Policy::HpaOnly
        } else if Text::same(chars.as_slice(), "vpa-only") {
            Policy::VpaOnly
        } else {
            Policy::Unified
        }
    }

    /// The target, without the changes that the policy does not make.
    pub open spec fn restricted(self, previous: TargetState, wanted: TargetState) -> TargetState {
        match self {
            Policy::Unified => wanted,
            Policy::HpaOnly => TargetState { cpu_per_replica: previous.cpu_per_replica, ..wanted },
            Policy::VpaOnly => TargetState { num_replicas: previous.num_replicas, ..wanted },
        }
    }

    /// The target, without the changes that the policy does not make.
    pub fn restrict(self, previous: &TargetState, wanted: TargetState) -> (r: TargetState)
        ensures
            r == self.restricted(*previous, wanted),
    {
        match self {
            Policy::Unified => wanted,
            Policy::HpaOnly => TargetState { cpu_per_replica: previous.cpu_per_replica, ..wanted },
            Policy::VpaOnly => TargetState { num_replicas: previous.num_replicas, ..wanted },
        }
    }
}

/// The CPU ticks that each worker reported last.
#[derive(Clone, Debug)]
pub struct CpuTicks {
    pub entries: Vec<(String, u64)>,
}

impl CpuTicks {
    pub open spec fn contents(entries: Seq<(String, u64)>) -> Map<Seq<char>, u64>
        decreases entries.len(),
    {
        if entries.len() == 0 {
            Map::empty()
        } else {
            Self::contents(entries.drop_last()).insert(entries.last().0@, entries.last().1)
        }
    }
}

impl View for CpuTicks {
    type V = Map<Seq<char>, u64>;

    open spec fn view(&self) -> Map<Seq<char>, u64> {
        Self::contents(self.entries@)
    }
}

/// What the map holds of a name is what its last entry holds.
proof fn lemma_last_entry(entries: Seq<(String, u64)>, name: Seq<char>, at: int)
    requires
        -1 <= at < entries.len(),
        at >= 0 ==> entries[at].0@ == name,
        forall|i: int| at < i < entries.len() ==> (#[trigger] entries[i]).0@ != name,
    ensures
        CpuTicks::contents(entries).dom().contains(name) == (at >= 0),
        at >= 0 ==> CpuTicks::contents(entries)[name] == entries[at].1,
    decreases entries.len(),
{
    if at < entries.len() - 1 {
        assert(entries[entries.len() - 1].0@ != name);
        lemma_last_entry(entries.drop_last(), name, at);
    }
}

/// Changing the last entry of a name changes what the map holds of it.
proof fn lemma_entry_changed(entries: Seq<(String, u64)>, at: int, entry: (String, u64))
    requires
        0 <= at < entries.len(),
        entries[at].0@ == entry.0@,
        forall|i: int| at < i < entries.len() ==> (#[trigger] entries[i]).0@ != entry.0@,
    ensures
        CpuTicks::contents(entries.update(at, entry)) =~= CpuTicks::contents(entries).insert(
            entry.0@,
            entry.1,
        ),
    decreases entries.len(),
{
    let changed = entries.update(at, entry);
    if at == entries.len() - 1 {
        assert(changed.drop_last() =~= entries.drop_last());
    } else {
        assert(entries[entries.len() - 1].0@ != entry.0@);
        assert(changed.drop_last() =~= entries.drop_last().update(at, entry));
        lemma_entry_changed(entries.drop_last(), at, entry);
    }
}

impl CpuTicks {
    pub fn new() -> (r: Self)
        ensures
            r@ == Map::<Seq<char>, u64>::empty(),
    {
        CpuTicks { entries: Vec::new() }
    }

    /// The index of the last entry of a name.
    fn find(&self, name: &str) -> (r: Option<usize>)
        ensures
            match r {
                Some(at) => {
                    &&& at < self.entries@.len()
                    &&& self.entries@[at as int].0@ == name@
                    &&& forall|i: int|
                        at < i < self.entries@.len() ==> (#[trigger] self.entries@[i]).0@ != name@
                },
                None => forall|i: int|
                    0 <= i < self.entries@.len() ==> (#[trigger] self.entries@[i]).0@ != name@,
            },
    {
        let key: Vec<char> = Text::chars(name);
        let mut n: usize = self.entries.len();
        while n > 0
            invariant
                n <= self.entries@.len(),
                key@ == name@,
                forall|i: int|
                    n <= i < self.entries@.len() ==> (#[trigger] self.entries@[i]).0@ != name@,
            decreases n,
        {
            if Text::same(key.as_slice(), self.entries[n - 1].0.as_str()) {
                return Some(n - 1);
            }
            n = n - 1;
        }
        None
    }

    /// The ticks that a worker reported last.
    pub fn get(&self, name: &str) -> (r: Option<u64>)
        ensures
            r == (if self@.dom().contains(name@) {
                Some(self@[name@])
            } else {
                None
            }),
    {
        match self.find(name) {
            Some(at) => {
                proof {
                    lemma_last_entry(self.entries@, name@, at as int);
                }
                Some(self.entries[at].1)
            },
            None => {
                proof {
                    lemma_last_entry(self.entries@, name@, -1);
                }
                None
            },
        }
    }

    /// A worker reports its ticks.
    pub fn insert(&mut self, name: &str, ticks: u64)
        ensures
            final(self)@ == old(self)@.insert(name@, ticks),
    {
        let entry: (String, u64) = (String::from_str(name), ticks);
        match self.find(name) {
            Some(at) => {
                proof {
                    lemma_entry_changed(self.entries@, at as int, entry);
                }
                self.entries[at] = entry;
            },
            None => {
                self.entries.push(entry);
                assert(self.entries@.drop_last() =~= old(self).entries@);
            },
        }
    }

    /// The ticks that a worker has used since it last reported, if it did; otherwise since it
    /// had used as many as given.
    pub fn since(&self, name: &str, ticks: u64, otherwise: u64) -> (r: u64)
        ensures
            r == Self::used(
                ticks,
                if self@.dom().contains(name@) {
                    self@[name@]
                } else {
                    otherwise
                },
            ),
    {
        let previous: u64 = match self.get(name) {
            Some(previous) => previous,
            None => otherwise,
        };
        ticks.saturating_sub(previous)
    }

    /// From one count of ticks to another. A worker that was restarted counts from zero again.
    pub open spec fn used(ticks: u64, previous: u64) -> nat {
        if ticks < previous {
            0
        } else {
            (ticks - previous) as nat
        }
    }
}

/// What a container reports.
#[derive(Clone, Debug)]
pub struct WorkerReport {
    pub name: String,
    pub cpu_quota: Double,
    pub metrics: InstanceMetrics,
}

impl WorkerReport {
    /// What all containers report.
    pub open spec fn all_metrics(reports: Seq<WorkerReport>) -> Seq<InstanceMetrics> {
        reports.map_values(|report: WorkerReport| report.metrics)
    }

    /// The ticks of each container once all have reported.
    pub open spec fn ticks_after(
        ticks: Map<Seq<char>, u64>,
        reports: Seq<WorkerReport>,
    ) -> Map<Seq<char>, u64>
        decreases reports.len(),
    {
        if reports.len() == 0 {
            ticks
        } else {
            Self::ticks_after(ticks, reports.drop_last()).insert(
                reports.last().name@,
                reports.last().metrics.os_cpu_ticks,
            )
        }
    }

    /// The ticks that a container has used since its last report. The first report shows none.
    pub open spec fn ticks_since(self, ticks: Map<Seq<char>, u64>) -> nat {
        let now = self.metrics.os_cpu_ticks;
        CpuTicks::used(
            now,
            if ticks.dom().contains(self.name@) {
                ticks[self.name@]
            } else {
                now
            },
        )
    }

    /// The ticks that all containers have used since their last reports.
    pub open spec fn ticks_used(ticks: Map<Seq<char>, u64>, reports: Seq<WorkerReport>) -> nat
        decreases reports.len(),
    {
        if reports.len() == 0 {
            0
        } else {
            Self::ticks_used(ticks, reports.drop_last()) + reports.last().ticks_since(
                Self::ticks_after(ticks, reports.drop_last()),
            )
        }
    }

    /// The memory that all containers use, in kilobytes.
    pub open spec fn rss_kb(reports: Seq<WorkerReport>) -> nat
        decreases reports.len(),
    {
        if reports.len() == 0 {
            0
        } else {
            Self::rss_kb(reports.drop_last()) + reports.last().metrics.rss_kb as nat
        }
    }

    /// Do the sums over all containers fit?
    pub open spec fn sums_fit(ticks: Map<Seq<char>, u64>, reports: Seq<WorkerReport>) -> bool {
        &&& InstanceMetrics::sums_fit(Self::all_metrics(reports))
        &&& Self::ticks_used(ticks, reports) <= u64::MAX
        &&& Self::rss_kb(reports) <= u64::MAX
    }
}

/// What the controller sees in one second.
#[derive(Clone, Copy, Debug)]
pub struct Observation {
    /// What all containers report together.
    pub total: InstanceMetrics,
    /// The requests that came since the second before.
    pub delta: u64,
    pub state: SystemState,
    pub metrics: Metrics,
}

/// Controls worker containers by the figures that they report.
#[derive(Clone, Debug)]
pub struct DockerController {
    pub controller: Controller,
    pub policy: Policy,
    pub target: TargetState,
    pub last_total_requests: u64,
    pub last_decision_t: u32,
    pub ticks: CpuTicks,
}

proof fn lemma_used_grows(ticks: Map<Seq<char>, u64>, reports: Seq<WorkerReport>, n: int)
    requires
        0 <= n <= reports.len(),
    ensures
        WorkerReport::ticks_used(ticks, reports.take(n)) <= WorkerReport::ticks_used(
            ticks,
            reports,
        ),
        WorkerReport::rss_kb(reports.take(n)) <= WorkerReport::rss_kb(reports),
    decreases reports.len(),
{
    if n < reports.len() {
        assert(reports.drop_last().take(n) =~= reports.take(n));
        lemma_used_grows(ticks, reports.drop_last(), n);
    } else {
        assert(reports.take(n) =~= reports);
    }
}

impl DockerController {
    /// The replicas that a policy starts from.
    ///
    /// One that never changes their number keeps the workers that were started, or the one that
    /// is started where there were none. The others start from the least and take the number of
    /// workers from the first state that they decide on.
    pub open spec fn first_replicas(policy: Policy, initial_replicas: u32) -> u32 {
        if policy is VpaOnly && initial_replicas > 0 {
            initial_replicas
        } else {
            1
        }
    }

    pub fn new(policy: Policy, initial_replicas: u32) -> (r: Self)
        ensures
            r.controller.limits_ordered(),
            r.controller.latency_target_ms@ == Number::integer(400),
            r.controller.cpu_util_target@ == Number::integer(70),
            r.controller.mem_util_target@ == Number::integer(70),
            r.controller.min_replicas == 1,
            r.controller.max_replicas == 20,
            r.controller.min_cpu@ == Number::ratio(5, 10),
            r.controller.max_cpu@ == Number::integer(4),
            r.controller.min_mem@ == Number::integer(1),
            r.controller.max_mem@ == Number::integer(8),
            r.controller.slots_per_replica == 32,
            r.controller.emergency_queue_threshold == 20,
            r.policy == policy,
            r.target.num_replicas == Self::first_replicas(policy, initial_replicas),
            r.target.cpu_per_replica@ == Number::integer(1),
            r.target.mem_per_replica@ == Number::integer(2),
            r.last_total_requests == 0,
            r.last_decision_t == 0,
            r.ticks@ == Map::<Seq<char>, u64>::empty(),
    {
        let mut target: TargetState = TargetState::default();
        match policy {
            Policy::VpaOnly => {
                if initial_replicas > 0 {
                    target.num_replicas = initial_replicas;
                }
            },
            _ => {},
        }
        DockerController {
            controller: Controller::new(),
            policy,
            target,
            last_total_requests: 0,
            last_decision_t: 0,
            ticks: CpuTicks::new(),
        }
    }

    /// Takes the ticks and the memory of all containers.
    fn take_figures(&mut self, reports: &Vec<WorkerReport>) -> (r: Option<(u64, u64)>)
        ensures
            r is Some ==> final(self).ticks@ == WorkerReport::ticks_after(
                old(self).ticks@,
                reports@,
            ),
            *final(self) == (DockerController { ticks: final(self).ticks, ..*old(self) }),
            match r {
                Some((ticks, rss_kb)) => {
                    &&& ticks == WorkerReport::ticks_used(old(self).ticks@, reports@)
                    &&& rss_kb == WorkerReport::rss_kb(reports@)
                },
                None => WorkerReport::ticks_used(old(self).ticks@, reports@) > u64::MAX
                    || WorkerReport::rss_kb(reports@) > u64::MAX,
            },
    {
        let ghost start = self.ticks@;
        let mut ticks: u64 = 0;
        let mut rss_kb: u64 = 0;
        let mut i: usize = 0;
        assert(reports@.take(0) =~= Seq::<WorkerReport>::empty());
        while i < reports.len()
            invariant
                i <= reports@.len(),
                start == old(self).ticks@,
                *self == (DockerController { ticks: self.ticks, ..*old(self) }),
                self.ticks@ == WorkerReport::ticks_after(start, reports@.take(i as int)),
                ticks == WorkerReport::ticks_used(start, reports@.take(i as int)),
                rss_kb == WorkerReport::rss_kb(reports@.take(i as int)),
            decreases reports@.len() - i,
        {
            proof {
                assert(reports@.take(i + 1).drop_last() =~= reports@.take(i as int));
                assert(reports@.take(i + 1).last() == reports@[i as int]);
                lemma_used_grows(start, reports@, i + 1);
            }
            let report: &WorkerReport = &reports[i];
            let now: u64 = report.metrics.os_cpu_ticks;
            let used: u64 = self.ticks.since(report.name.as_str(), now, now);
            if ticks > u64::MAX - used || rss_kb > u64::MAX - report.metrics.rss_kb {
                return None;
            }
            ticks = ticks + used;
            rss_kb = rss_kb + report.metrics.rss_kb;
            self.ticks.insert(report.name.as_str(), now);
            i = i + 1;
        }
        assert(reports@.take(i as int) =~= reports@);
        Some((ticks, rss_kb))
    }

    /// Takes what the containers report in second `t`. There is nothing where a sum does not
    /// fit.
    pub fn observe(&mut self, t: u32, workers: usize, reports: &Vec<WorkerReport>) -> (r: Option<
        Observation,
    >)
        ensures
            r is Some == WorkerReport::sums_fit(old(self).ticks@, reports@),
            r matches Some(seen) ==> {
                let metrics = WorkerReport::all_metrics(reports@);
                &&& (InstanceMetrics { os_cpu_ticks: 0, rss_kb: 0, ..seen.total }).sums_up(metrics)
                &&& seen.total.avg_latency_ms@ == InstanceMetrics::mean_latency(metrics)
                &&& seen.total.os_cpu_ticks == WorkerReport::ticks_used(old(self).ticks@, reports@)
                &&& seen.total.rss_kb == WorkerReport::rss_kb(reports@)
                &&& seen.delta == (if seen.total.total_requests < old(self).last_total_requests {
                    0
                } else {
                    seen.total.total_requests - old(self).last_total_requests
                })
                &&& seen.total.shows_state(t, seen.delta, workers, old(self).target, seen.state)
                &&& seen.total.shows_metrics(seen.metrics)
                &&& final(self).ticks@ == WorkerReport::ticks_after(old(self).ticks@, reports@)
                &&& *final(self) == (DockerController {
                    ticks: final(self).ticks,
                    last_total_requests: seen.total.total_requests,
                    ..*old(self)
                })
            },
    {
        let mut metrics: Vec<InstanceMetrics> = Vec::new();
        let mut i: usize = 0;
        while i < reports.len()
            invariant
                i <= reports@.len(),
                metrics@ == WorkerReport::all_metrics(reports@).take(i as int),
            decreases reports@.len() - i,
        {
            metrics.push(reports[i].metrics);
            assert(WorkerReport::all_metrics(reports@).take(i + 1)
                =~= WorkerReport::all_metrics(reports@).take(i as int).push(
                reports@[i as int].metrics,
            ));
            i = i + 1;
        }
        assert(metrics@ =~= WorkerReport::all_metrics(reports@));
        let figures: Option<(u64, u64)> = self.take_figures(reports);
        match InstanceMetrics::aggregate(&metrics) {
            Some(sum) => match figures {
                Some((os_cpu_ticks, rss_kb)) => {
                    let total: InstanceMetrics = InstanceMetrics { os_cpu_ticks, rss_kb, ..sum };
                    let delta: u64 = total.total_requests.saturating_sub(
                        self.last_total_requests,
                    );
                    self.last_total_requests = total.total_requests;
                    let state: SystemState = total.to_state(t, delta, workers, &self.target);
                    let metrics: Metrics = total.to_metrics();
                    Some(Observation { total, delta, state, metrics })
                },
                None => None,
            },
            None => None,
        }
    }

    /// Is the queue long, and the last decision not too recent?
    pub open spec fn emergency_at(self, t: u32, state: SystemState) -> bool {
        state.waiting_requests > self.controller.emergency_queue_threshold && t
            - self.last_decision_t >= EMERGENCY_PAUSE_S
    }

    /// Is a decision due? It is at each interval but at the very start, and in an emergency.
    pub open spec fn is_due(self, t: u32, control_interval_s: u32, state: SystemState) -> bool {
        (t % control_interval_s == 0 && t > 0) || self.emergency_at(t, state)
    }

    /// Is the queue long, and the last decision not too recent?
    pub fn is_emergency(&self, t: u32, state: &SystemState) -> (r: bool)
        ensures
            r == self.emergency_at(t, *state),
            r == (state.waiting_requests > self.controller.emergency_queue_threshold && t
                >= self.last_decision_t + 3),
    {
        self.controller.is_emergency(state) && t.saturating_sub(self.last_decision_t)
            >= EMERGENCY_PAUSE_S
    }

    /// Is a decision due?
    pub fn due(&self, t: u32, control_interval_s: u32, state: &SystemState) -> (r: bool)
        requires
            control_interval_s > 0,
        ensures
            r == self.is_due(t, control_interval_s, *state),
            r == ((t > 0 && t % control_interval_s == 0) || (state.waiting_requests
                > self.controller.emergency_queue_threshold && t >= self.last_decision_t + 3)),
    {
        (t % control_interval_s == 0 && t > 0) || self.is_emergency(t, state)
    }

    /// Is this what the controller and the policy make of a state?
    pub open spec fn makes(self, state: SystemState, metrics: Metrics, decision: Decision) -> bool {
        &&& exists|wanted: TargetState|
            #![trigger self.policy.restricted(self.target, wanted)]
            self.controller.answers(state, self.controller.diagnosis(state, metrics), wanted)
                && decision.target == self.policy.restricted(self.target, wanted)
        &&& decision.previous == self.target
        &&& decision.apply == self.target.differs(decision.target)
    }

    /// Does the controller make the decision in some state, and go on with its target?
    pub open spec fn decided(self, decision: Decision, next: DockerController) -> bool {
        &&& exists|state: SystemState, metrics: Metrics| #[trigger] self.makes(
            state,
            metrics,
            decision,
        )
        &&& next.policy == self.policy
        &&& next.target == decision.target
    }

    /// Decides on a new target, if a decision is due.
    pub fn decide(
        &mut self,
        t: u32,
        control_interval_s: u32,
        state: &SystemState,
        metrics: &Metrics,
    ) -> (r: Option<Decision>)
        requires
            old(self).controller.limits_ordered(),
            control_interval_s > 0,
            old(self).is_due(t, control_interval_s, *state)
                ==> old(self).controller.decision_fits(*state, *metrics),
        ensures
            if old(self).is_due(t, control_interval_s, *state) {
                r matches Some(decision) && old(self).makes(*state, *metrics, decision)
                    && *final(self) == (DockerController {
                    target: decision.target,
                    last_decision_t: t,
                    ..*old(self)
                })
            } else {
                r is None && *final(self) == *old(self)
            },
            r is Some == ((t > 0 && t % control_interval_s == 0) || (state.waiting_requests
                > old(self).controller.emergency_queue_threshold && t
                >= old(self).last_decision_t + 3)),
    {
        if !self.due(t, control_interval_s, state) {
            return None;
        }
        self.last_decision_t = t;
        let previous: TargetState = self.target;
        let wanted: TargetState = self.controller.decide(state, metrics);
        let target: TargetState = self.policy.restrict(&previous, wanted);
        let apply: bool = previous.is_different(&target);
        self.target = target;
        assert(target == old(self).policy.restricted(old(self).target, wanted));
        Some(Decision { previous, target, apply })
    }

    /// What is written of a decision.
    pub open spec fn event(decision: Option<Decision>, from_cpu: Seq<char>, to_cpu: Seq<char>) ->
        Seq<char> {
        match decision {
            None => "none"@,
            Some(decision) => {
                let from = decision.previous;
                let to = decision.target;
                let horizontal = (if to.num_replicas > from.num_replicas {
                    "scale_out"@
                } else {
                    "scale_in"@
                }) + ":"@ + Text::decimal(from.num_replicas as nat) + "→"@ + Text::decimal(
                    to.num_replicas as nat,
                );
                let vertical = (if from.cpu_per_replica@.below(to.cpu_per_replica@) {
                    "cpu_up"@
                } else {
                    "cpu_down"@
                }) + ":"@ + from_cpu + "→"@ + to_cpu;
                let scaled_out = from.num_replicas != to.num_replicas;
                let scaled_up = TargetState::apart(to.cpu_per_replica, from.cpu_per_replica);
                if scaled_out && scaled_up {
                    horizontal + "|"@ + vertical
                } else if scaled_out {
                    horizontal
                } else if scaled_up {
                    vertical
                } else {
                    "none"@
                }
            },
        }
    }

    /// What is written of a decision. The CPU per replica, before and after, comes as text.
    pub fn scale_event(decision: &Option<Decision>, from_cpu: &str, to_cpu: &str) -> (r: String)
        ensures
            r@ == Self::event(*decision, from_cpu@, to_cpu@),
    {
        match decision {
            None => String::from_str("none"),
            Some(decision) => {
                let from: TargetState = decision.previous;
                let to: TargetState = decision.target;
                let way: &str = if to.num_replicas > from.num_replicas {
                    "scale_out"
                } else {
                    "scale_in"
                };
                let horizontal: String = String::from_str(way).concat(":").concat(
                    Text::to_decimal(from.num_replicas as u64).as_str(),
                ).concat("→").concat(Text::to_decimal(to.num_replicas as u64).as_str());
                let direction: &str = if to.cpu_per_replica.gt(from.cpu_per_replica) {
                    "cpu_up"
                } else {
                    "cpu_down"
                };
                let vertical: String = String::from_str(direction).concat(":").concat(
                    from_cpu,
                ).concat("→").concat(to_cpu);
                let scaled_up: bool = TargetState::is_apart(
                    to.cpu_per_replica,
                    from.cpu_per_replica,
                );
                if from.num_replicas != to.num_replicas {
                    if scaled_up {
                        horizontal.concat("|").concat(vertical.as_str())
                    } else {
                        horizontal
                    }
                } else if scaled_up {
                    vertical
                } else {
                    String::from_str("none")
                }
            },
        }
    }
}

/// The tables that are written of a run.
pub struct CsvOutput;

/// The figures of a second that are written as text.
#[derive(Clone, Debug)]
pub struct SummaryTexts {
    pub rps: String,
    pub latency_ms: String,
    pub cpu_util_pct: String,
    pub cpu_per_worker: String,
    pub os_cpu_pct_total: String,
    pub rss_mb_total: String,
}

impl CsvOutput {
    /// The path of a table, one of two in a run that started at the given time.
    pub open spec fn path(dir: Seq<char>, started_s: u64, table: Seq<char>) -> Seq<char> {
        Text::joined(
            dir,
            "docker_ctl_"@ + Text::decimal(started_s as nat) + "_"@ + table + ".csv"@,
        )
    }

    fn path_of(dir: &str, started_s: u64, table: &str) -> (r: String)
        ensures
            r@ == Self::path(dir@, started_s, table@),
    {
        let name: String = String::from_str("docker_ctl_").concat(
            Text::to_decimal(started_s).as_str(),
        ).concat("_").concat(table).concat(".csv");
        Text::join(dir, name.as_str())
    }

    /// The path of the table with a row for each second.
    pub fn summary_path(dir: &str, started_s: u64) -> (r: String)
        ensures
            r@ == Self::path(dir@, started_s, "summary"@),
    {
        Self::path_of(dir, started_s, "summary")
    }

    /// The path of the table with a row for each container and second.
    pub fn workers_path(dir: &str, started_s: u64) -> (r: String)
        ensures
            r@ == Self::path(dir@, started_s, "workers"@),
    {
        Self::path_of(dir, started_s, "workers")
    }

    pub fn summary_header() -> (r: String)
        ensures
            r@
                == "t_s,num_workers,rps,active_total,capacity_total,queued_total,avg_latency_ms,cpu_util_pct,cpu_per_worker,errors_total,os_cpu_pct_total,rss_mb_total,scale_event"@,
    {
        String::from_str(
            "t_s,num_workers,rps,active_total,capacity_total,queued_total,avg_latency_ms,cpu_util_pct,cpu_per_worker,errors_total,os_cpu_pct_total,rss_mb_total,scale_event",
        )
    }

    pub fn workers_header() -> (r: String)
        ensures
            r@ == "t_s,container,cpu_per_replica,active,capacity,queued,os_cpu_pct,rss_mb"@,
    {
        String::from_str("t_s,container,cpu_per_replica,active,capacity,queued,os_cpu_pct,rss_mb")
    }

    /// The fields of a row of the first table.
    pub open spec fn summary_fields(
        t: u32,
        num_workers: usize,
        total: InstanceMetrics,
        texts: SummaryTexts,
        scale_event: Seq<char>,
    ) -> Seq<Seq<char>> {
        seq![
            Text::decimal(t as nat),
            Text::decimal(num_workers as nat),
            texts.rps@,
            Text::decimal(total.active_count as nat),
            Text::decimal(total.max_concurrency as nat),
            Text::decimal(total.queue_depth as nat),
            texts.latency_ms@,
            texts.cpu_util_pct@,
            texts.cpu_per_worker@,
            Text::decimal(total.errors as nat),
            texts.os_cpu_pct_total@,
            texts.rss_mb_total@,
            scale_event,
        ]
    }

    /// A row of the first table.
    pub fn summary_row(
        t: u32,
        num_workers: usize,
        total: &InstanceMetrics,
        texts: &SummaryTexts,
        scale_event: &str,
    ) -> (r: String)
        ensures
            r@ == Text::separated(
                Self::summary_fields(t, num_workers, *total, *texts, scale_event@),
                ","@,
            ),
    {
        let time: String = Text::to_decimal(t as u64);
        let workers: String = Text::to_decimal(num_workers as u64);
        let active: String = Text::to_decimal(total.active_count as u64);
        let capacity: String = Text::to_decimal(total.max_concurrency as u64);
        let queued: String = Text::to_decimal(total.queue_depth as u64);
        let errors: String = Text::to_decimal(total.errors);
        let fields: Vec<&str> = vec![
            time.as_str(),
            workers.as_str(),
            texts.rps.as_str(),
            active.as_str(),
            capacity.as_str(),
            queued.as_str(),
            texts.latency_ms.as_str(),
            texts.cpu_util_pct.as_str(),
            texts.cpu_per_worker.as_str(),
            errors.as_str(),
            texts.os_cpu_pct_total.as_str(),
            texts.rss_mb_total.as_str(),
            scale_event,
        ];
        assert(fields@.map_values(|text: &str| text@) =~= Self::summary_fields(
            t,
            num_workers,
            *total,
            *texts,
            scale_event@,
        ));
        Text::separate(&fields, ",")
    }

    /// The fields of a row of the second table.
    pub open spec fn worker_fields(
        t: u32,
        report: WorkerReport,
        cpu_quota: Seq<char>,
        os_cpu_pct: Seq<char>,
        rss_mb: Seq<char>,
    ) -> Seq<Seq<char>> {
        seq![
            Text::decimal(t as nat),
            report.name@,
            cpu_quota,
            Text::decimal(report.metrics.active_count as nat),
            Text::decimal(report.metrics.max_concurrency as nat),
            Text::decimal(report.metrics.queue_depth as nat),
            os_cpu_pct,
            rss_mb,
        ]
    }

    /// A row of the second table.
    pub fn worker_row(
        t: u32,
        report: &WorkerReport,
        cpu_quota: &str,
        os_cpu_pct: &str,
        rss_mb: &str,
    ) -> (r: String)
        ensures
            r@ == Text::separated(
                Self::worker_fields(t, *report, cpu_quota@, os_cpu_pct@, rss_mb@),
                ","@,
            ),
    {
        let time: String = Text::to_decimal(t as u64);
        let active: String = Text::to_decimal(report.metrics.active_count as u64);
        let capacity: String = Text::to_decimal(report.metrics.max_concurrency as u64);
        let queued: String = Text::to_decimal(report.metrics.queue_depth as u64);
        let fields: Vec<&str> = vec![
            time.as_str(),
            report.name.as_str(),
            cpu_quota,
            active.as_str(),
            capacity.as_str(),
            queued.as_str(),
            os_cpu_pct,
            rss_mb,
        ];
        assert(fields@.map_values(|text: &str| text@) =~= Self::worker_fields(
            t,
            *report,
            cpu_quota@,
            os_cpu_pct@,
            rss_mb@,
        ));
        Text::separate(&fields, ",")
    }

    /// Kilobytes in megabytes.
    pub fn megabytes(kb: u64) -> (r: Double)
        ensures
            r@ == Number::integer(kb as nat).over(Number::integer(1024)),
    {
        Double::from_u64(kb).div(Double::from_u32(1024))
    }
}

/// Each policy but that of both ways leaves one axis alone, whatever the state.
pub proof fn law_policy_locks_an_axis(
    docker: DockerController,
    state: SystemState,
    metrics: Metrics,
    decision: Decision,
)
    requires
        docker.makes(state, metrics, decision),
    ensures
        docker.policy is HpaOnly ==> decision.target.cpu_per_replica
            == docker.target.cpu_per_replica,
        docker.policy is VpaOnly ==> decision.target.num_replicas == docker.target.num_replicas,
{
}

/// Vertical scaling alone never changes the number of replicas: through all decisions of a run it
/// is the one that the run started from. `states` holds the controller before each decision and
/// after the last one.
pub proof fn law_vpa_keeps_the_replicas(
    states: Seq<DockerController>,
    decisions: Seq<Decision>,
    initial_replicas: u32,
    i: int,
)
    requires
        states.len() == decisions.len() + 1,
        states[0].policy is VpaOnly,
        initial_replicas > 0,
        states[0].target.num_replicas == DockerController::first_replicas(
            states[0].policy,
            initial_replicas,
        ),
        forall|k: int|
            #![trigger decisions[k]]
            0 <= k < decisions.len() ==> states[k].decided(decisions[k], states[k + 1]),
        0 <= i <= decisions.len(),
    ensures
        states[i].policy is VpaOnly,
        states[i].target.num_replicas == initial_replicas,
        i < decisions.len() ==> decisions[i].previous.num_replicas == initial_replicas
            && decisions[i].target.num_replicas == initial_replicas,
    decreases i,
{
    if i > 0 {
        law_vpa_keeps_the_replicas(states, decisions, initial_replicas, i - 1);
        assert(states[i - 1].decided(decisions[i - 1], states[i]));
    }
    if i < decisions.len() {
        assert(states[i].decided(decisions[i], states[i + 1]));
    }
}

/// Decisions that an emergency brings about are at least the pause apart.
pub proof fn law_emergencies_are_apart(
    docker: DockerController,
    t: u32,
    control_interval_s: u32,
    state: SystemState,
)
    requires
        docker.is_due(t, control_interval_s, state),
        t % control_interval_s != 0,
    ensures
        t >= docker.last_decision_t + EMERGENCY_PAUSE_S,
{
}

/// Once a container has reported, it has used nothing since.
pub proof fn law_nothing_used_since_report(
    ticks: Map<Seq<char>, u64>,
    reports: Seq<WorkerReport>,
    i: int,
)
    requires
        0 <= i < reports.len(),
        forall|j: int| i < j < reports.len() ==> (#[trigger] reports[j]).name@ != reports[i].name@,
    ensures
        reports[i].ticks_since(WorkerReport::ticks_after(ticks, reports)) == 0,
        WorkerReport::ticks_after(ticks, reports).dom().contains(reports[i].name@),
    decreases reports.len(),
{
    if i < reports.len() - 1 {
        let last = reports[reports.len() - 1];
        assert(last.name@ != reports[i].name@);
        assert forall|j: int| i < j < reports.drop_last().len() implies (
        #[trigger] reports.drop_last()[j]).name@ != reports.drop_last()[i].name@ by {
            assert(reports[j].name@ != reports[i].name@);
        }
        law_nothing_used_since_report(ticks, reports.drop_last(), i);
    }
}

/// What the containers used before the first report is not counted.
pub proof fn law_first_reports_show_no_use(reports: Seq<WorkerReport>)
    requires
        forall|i: int, j: int|
            0 <= i < j < reports.len() ==> (#[trigger] reports[i]).name@ != (
            #[trigger] reports[j]).name@,
    ensures
        WorkerReport::ticks_used(Map::empty(), reports) == 0,
        forall|name: Seq<char>|
            #[trigger] WorkerReport::ticks_after(Map::empty(), reports).dom().contains(name)
                ==> exists|i: int| 0 <= i < reports.len() && (#[trigger] reports[i]).name@ == name,
    decreases reports.len(),
{
    if reports.len() > 0 {
        let earlier = reports.drop_last();
        assert forall|i: int, j: int| 0 <= i < j < earlier.len() implies (
        #[trigger] earlier[i]).name@ != (#[trigger] earlier[j]).name@ by {
            assert(reports[i].name@ != reports[j].name@);
        }
        law_first_reports_show_no_use(earlier);
        let before = WorkerReport::ticks_after(Map::empty(), earlier);
        if before.dom().contains(reports.last().name@) {
            let i = choose|i: int|
                0 <= i < earlier.len() && (#[trigger] earlier[i]).name@ == reports.last().name@;
            assert(reports[i].name@ != reports[reports.len() - 1].name@);
        }
        assert forall|name: Seq<char>|
            #[trigger] WorkerReport::ticks_after(Map::empty(), reports).dom().contains(
                name,
            ) implies exists|i: int|
            0 <= i < reports.len() && (#[trigger] reports[i]).name@ == name by {
            if name == reports.last().name@ {
                assert(reports[reports.len() - 1].name@ == name);
            } else {
                let i = choose|i: int|
                    0 <= i < earlier.len() && (#[trigger] earlier[i]).name@ == name;
                assert(reports[i].name@ == name);
            }
        }
    }
}

/// Once a target is within the limits, so is every later one, whatever the policy.
pub proof fn law_targets_stay_within_limits(
    docker: DockerController,
    state: SystemState,
    metrics: Metrics,
    decision: Decision,
)
    requires
        docker.controller.limits_ordered(),
        docker.makes(state, metrics, decision),
        state.cpu_per_replica == docker.target.cpu_per_replica,
        state.mem_per_replica == docker.target.mem_per_replica,
        docker.controller.allows(docker.target),
    ensures
        docker.controller.allows(decision.target),
{
    let bottleneck = docker.controller.diagnosis(state, metrics);
    let wanted = choose|wanted: TargetState|
        #![trigger docker.policy.restricted(docker.target, wanted)]
        docker.controller.answers(state, bottleneck, wanted) && decision.target
            == docker.policy.restricted(docker.target, wanted);
    crate::shared::controller::law_target_within_limits(
        docker.controller,
        state,
        bottleneck,
        wanted,
    );
}

/// A queue over the threshold is answered as soon as three seconds have passed since the last
/// decision, however many replicas there are. Between intervals, a queue within the threshold is
/// not answered, nor any queue before the three seconds are over.
pub proof fn law_emergencies_are_answered(
    docker: DockerController,
    t: u32,
    control_interval_s: u32,
    state: SystemState,
)
    requires
        control_interval_s > 0,
    ensures
        state.waiting_requests > docker.controller.emergency_queue_threshold && t
            >= docker.last_decision_t + 3 ==> docker.is_due(t, control_interval_s, state),
        t > 0 && t % control_interval_s == 0 ==> docker.is_due(t, control_interval_s, state),
        t % control_interval_s != 0 && state.waiting_requests
            <= docker.controller.emergency_queue_threshold ==> !docker.is_due(
            t,
            control_interval_s,
            state,
        ),
        t % control_interval_s != 0 && t < docker.last_decision_t + 3 ==> !docker.is_due(
            t,
            control_interval_s,
            state,
        ),
        t == 0 ==> !docker.is_due(t, control_interval_s, state),
{
}

} // verus!
