//! What the control of containers promises.

use vstd::prelude::*;

use crate::docker::controller::{
    CsvOutput, DockerController, Policy, SummaryTexts, WorkerReport,
};
use crate::http::controller::Decision;
use crate::http::instance::InstanceMetrics;
use crate::shared::metrics::Metrics;
use crate::shared::types::{SystemState, TargetState};
use crate::text::Text;

verus! {

/// A decision is the controller's answer to what it finds in the state, but for the axis that the
/// policy leaves alone. It replaces the target so far, and is applied where the two differ.
pub proof fn law_decision_is_the_answer(
    docker: DockerController,
    state: SystemState,
    metrics: Metrics,
    decision: Decision,
)
    requires
        docker.makes(state, metrics, decision),
    ensures
        exists|wanted: TargetState|
            {
                &&& #[trigger] docker.controller.answers(
                    state,
                    docker.controller.diagnosis(state, metrics),
                    wanted,
                )
                &&& decision.target.num_replicas == (if docker.policy is VpaOnly {
                    docker.target.num_replicas
                } else {
                    wanted.num_replicas
                })
                &&& decision.target.cpu_per_replica == (if docker.policy is HpaOnly {
                    docker.target.cpu_per_replica
                } else {
                    wanted.cpu_per_replica
                })
                &&& decision.target.mem_per_replica == wanted.mem_per_replica
            },
        decision.previous == docker.target,
        decision.apply == (decision.target.num_replicas != docker.target.num_replicas
            || TargetState::apart(
            decision.target.cpu_per_replica,
            docker.target.cpu_per_replica,
        )),
{
}

/// Only two names stand for one way of scaling alone.
pub proof fn law_policy_names(name: Seq<char>)
    ensures
        (Policy::named(name) is HpaOnly) == (name == "hpa-only"@),
        (Policy::named(name) is VpaOnly) == (name == "vpa-only"@),
        name != "hpa-only"@ && name != "vpa-only"@ ==> Policy::named(name) is Unified,
{
    reveal_strlit("hpa-only");
    reveal_strlit("vpa-only");
    assert("hpa-only"@[0] != "vpa-only"@[0]);
}

/// Vertical scaling alone starts from the workers that there are, every other policy from one.
pub proof fn law_first_replicas(policy: Policy, initial_replicas: u32)
    ensures
        policy is VpaOnly && initial_replicas > 0 ==> DockerController::first_replicas(
            policy,
            initial_replicas,
        ) == initial_replicas,
        policy !is VpaOnly || initial_replicas == 0 ==> DockerController::first_replicas(
            policy,
            initial_replicas,
        ) == 1,
{
}

/// A container that is not among those that have reported adds the ticks that it has used since
/// it last reported: none at its first report, nor when it counts fewer than before.
pub proof fn law_ticks_are_counted(
    ticks: Map<Seq<char>, u64>,
    reports: Seq<WorkerReport>,
    more: WorkerReport,
)
    requires
        forall|i: int| 0 <= i < reports.len() ==> (#[trigger] reports[i]).name@ != more.name@,
    ensures
        WorkerReport::ticks_used(ticks, Seq::empty()) == 0,
        ticks.dom().contains(more.name@) && ticks[more.name@] <= more.metrics.os_cpu_ticks
            ==> WorkerReport::ticks_used(ticks, reports.push(more)) == WorkerReport::ticks_used(
            ticks,
            reports,
        ) + more.metrics.os_cpu_ticks - ticks[more.name@],
        !ticks.dom().contains(more.name@) || ticks[more.name@] > more.metrics.os_cpu_ticks
            ==> WorkerReport::ticks_used(ticks, reports.push(more)) == WorkerReport::ticks_used(
            ticks,
            reports,
        ),
{
    assert(reports.push(more).drop_last() =~= reports);
    lemma_others_unchanged(ticks, reports, more.name@);
}

/// Of each container, the ticks that it reported last are kept; those of others stay as they were.
pub proof fn law_last_ticks_are_kept(
    ticks: Map<Seq<char>, u64>,
    reports: Seq<WorkerReport>,
    more: WorkerReport,
    name: Seq<char>,
)
    ensures
        WorkerReport::ticks_after(ticks, reports.push(more)).dom().contains(more.name@),
        WorkerReport::ticks_after(ticks, reports.push(more))[more.name@]
            == more.metrics.os_cpu_ticks,
        (forall|i: int| 0 <= i < reports.len() ==> (#[trigger] reports[i]).name@ != name) ==> {
            &&& WorkerReport::ticks_after(ticks, reports).dom().contains(name)
                == ticks.dom().contains(name)
            &&& ticks.dom().contains(name) ==> WorkerReport::ticks_after(ticks, reports)[name]
                == ticks[name]
        },
{
    assert(reports.push(more).drop_last() =~= reports);
    if forall|i: int| 0 <= i < reports.len() ==> (#[trigger] reports[i]).name@ != name {
        lemma_others_unchanged(ticks, reports, name);
    }
}

/// A container that reports again in the same second adds what it has used since the report
/// before.
pub proof fn law_ticks_since_last_report(
    ticks: Map<Seq<char>, u64>,
    reports: Seq<WorkerReport>,
    more: WorkerReport,
    last: int,
)
    requires
        0 <= last < reports.len(),
        reports[last].name@ == more.name@,
        forall|i: int| last < i < reports.len() ==> (#[trigger] reports[i]).name@ != more.name@,
    ensures
        reports[last].metrics.os_cpu_ticks <= more.metrics.os_cpu_ticks
            ==> WorkerReport::ticks_used(ticks, reports.push(more)) == WorkerReport::ticks_used(
            ticks,
            reports,
        ) + more.metrics.os_cpu_ticks - reports[last].metrics.os_cpu_ticks,
        reports[last].metrics.os_cpu_ticks > more.metrics.os_cpu_ticks ==> WorkerReport::ticks_used(
            ticks,
            reports.push(more),
        ) == WorkerReport::ticks_used(ticks, reports),
{
    assert(reports.push(more).drop_last() =~= reports);
    lemma_last_report(ticks, reports, more.name@, last);
}

proof fn lemma_last_report(
    ticks: Map<Seq<char>, u64>,
    reports: Seq<WorkerReport>,
    name: Seq<char>,
    last: int,
)
    requires
        0 <= last < reports.len(),
        reports[last].name@ == name,
        forall|i: int| last < i < reports.len() ==> (#[trigger] reports[i]).name@ != name,
    ensures
        WorkerReport::ticks_after(ticks, reports).dom().contains(name),
        WorkerReport::ticks_after(ticks, reports)[name] == reports[last].metrics.os_cpu_ticks,
    decreases reports.len(),
{
    if last < reports.len() - 1 {
        assert(reports[reports.len() - 1].name@ != name);
        assert forall|i: int| last < i < reports.drop_last().len() implies (
        #[trigger] reports.drop_last()[i]).name@ != name by {
            assert(reports[i].name@ != name);
        }
        lemma_last_report(ticks, reports.drop_last(), name, last);
    }
}

proof fn lemma_others_unchanged(
    ticks: Map<Seq<char>, u64>,
    reports: Seq<WorkerReport>,
    name: Seq<char>,
)
    requires
        forall|i: int| 0 <= i < reports.len() ==> (#[trigger] reports[i]).name@ != name,
    ensures
        WorkerReport::ticks_after(ticks, reports).dom().contains(name) == ticks.dom().contains(
            name,
        ),
        ticks.dom().contains(name) ==> WorkerReport::ticks_after(ticks, reports)[name]
            == ticks[name],
    decreases reports.len(),
{
    if reports.len() > 0 {
        assert(reports[reports.len() - 1].name@ != name);
        assert forall|i: int| 0 <= i < reports.drop_last().len() implies (
        #[trigger] reports.drop_last()[i]).name@ != name by {
            assert(reports[i].name@ != name);
        }
        lemma_others_unchanged(ticks, reports.drop_last(), name);
    }
}

/// The memory of two groups of containers is that of the one and that of the other.
pub proof fn law_memory_adds_up(
    some: Seq<WorkerReport>,
    others: Seq<WorkerReport>,
    report: WorkerReport,
)
    ensures
        WorkerReport::rss_kb(some + others) == WorkerReport::rss_kb(some) + WorkerReport::rss_kb(
            others,
        ),
        WorkerReport::rss_kb(seq![report]) == report.metrics.rss_kb,
    decreases others.len(),
{
    assert(seq![report].drop_last() =~= Seq::<WorkerReport>::empty());
    assert(WorkerReport::rss_kb(seq![report].drop_last()) == 0);
    if others.len() == 0 {
        assert(some + others =~= some);
    } else {
        assert((some + others).drop_last() =~= some + others.drop_last());
        law_memory_adds_up(some, others.drop_last(), report);
    }
}

/// What is written of a decision names each axis that it changes, and the way that it goes.
pub proof fn law_event_names_the_change(
    decision: Decision,
    from_cpu: Seq<char>,
    to_cpu: Seq<char>,
)
    ensures
        ({
            let event = DockerController::event(Some(decision), from_cpu, to_cpu);
            let before = decision.previous;
            let after = decision.target;
            let counts = ":"@ + Text::decimal(before.num_replicas as nat) + "→"@ + Text::decimal(
                after.num_replicas as nat,
            );
            let cpus = ":"@ + from_cpu + "→"@ + to_cpu;
            let resized = TargetState::apart(after.cpu_per_replica, before.cpu_per_replica);
            let up = before.cpu_per_replica@.below(after.cpu_per_replica@);
            let out = after.num_replicas > before.num_replicas;
            let back = after.num_replicas < before.num_replicas;
            &&& !out && !back && !resized ==> event == "none"@
            &&& out && !resized ==> event == "scale_out"@ + counts
            &&& back && !resized ==> event == "scale_in"@ + counts
            &&& !out && !back && resized && up ==> event == "cpu_up"@ + cpus
            &&& !out && !back && resized && !up ==> event == "cpu_down"@ + cpus
            &&& out && resized && up ==> event == "scale_out"@ + counts + "|"@ + "cpu_up"@ + cpus
            &&& out && resized && !up ==> event == "scale_out"@ + counts + "|"@ + "cpu_down"@
                + cpus
            &&& back && resized && up ==> event == "scale_in"@ + counts + "|"@ + "cpu_up"@ + cpus
            &&& back && resized && !up ==> event == "scale_in"@ + counts + "|"@ + "cpu_down"@
                + cpus
        }),
        DockerController::event(None, from_cpu, to_cpu) == "none"@,
{
    let event = DockerController::event(Some(decision), from_cpu, to_cpu);
    let before = decision.previous;
    let after = decision.target;
    let counts = ":"@ + Text::decimal(before.num_replicas as nat) + "→"@ + Text::decimal(
        after.num_replicas as nat,
    );
    let cpus = ":"@ + from_cpu + "→"@ + to_cpu;
    let a = Text::decimal(before.num_replicas as nat);
    let b = Text::decimal(after.num_replicas as nat);
    lemma_regrouped("scale_out"@, a, b);
    lemma_regrouped("scale_in"@, a, b);
    lemma_regrouped("cpu_up"@, from_cpu, to_cpu);
    lemma_regrouped("cpu_down"@, from_cpu, to_cpu);
    assert forall|x: Seq<char>, y: Seq<char>|
        #![trigger x + "|"@ + y + cpus]
        x + "|"@ + (y + cpus) == x + "|"@ + y + cpus by {
        assert(x + "|"@ + (y + cpus) =~= x + "|"@ + y + cpus);
    }
}

proof fn lemma_regrouped(word: Seq<char>, a: Seq<char>, b: Seq<char>)
    ensures
        word + ":"@ + a + "→"@ + b == word + (":"@ + a + "→"@ + b),
{
    assert(word + ":"@ + a + "→"@ + b =~= word + (":"@ + a + "→"@ + b));
}

/// The columns of the two tables, in the order of their headers.
pub proof fn law_columns(
    t: u32,
    num_workers: usize,
    total: InstanceMetrics,
    texts: SummaryTexts,
    scale_event: Seq<char>,
    report: WorkerReport,
    cpu_quota: Seq<char>,
    os_cpu_pct: Seq<char>,
    rss_mb: Seq<char>,
)
    ensures
        ({
            let row = CsvOutput::summary_fields(t, num_workers, total, texts, scale_event);
            &&& row.len() == 13
            &&& row[0] == Text::decimal(t as nat)
            &&& row[1] == Text::decimal(num_workers as nat)
            &&& row[2] == texts.rps@
            &&& row[3] == Text::decimal(total.active_count as nat)
            &&& row[4] == Text::decimal(total.max_concurrency as nat)
            &&& row[5] == Text::decimal(total.queue_depth as nat)
            &&& row[6] == texts.latency_ms@
            &&& row[7] == texts.cpu_util_pct@
            &&& row[8] == texts.cpu_per_worker@
            &&& row[9] == Text::decimal(total.errors as nat)
            &&& row[10] == texts.os_cpu_pct_total@
            &&& row[11] == texts.rss_mb_total@
            &&& row[12] == scale_event
        }),
        ({
            let row = CsvOutput::worker_fields(t, report, cpu_quota, os_cpu_pct, rss_mb);
            &&& row.len() == 8
            &&& row[0] == Text::decimal(t as nat)
            &&& row[1] == report.name@
            &&& row[2] == cpu_quota
            &&& row[3] == Text::decimal(report.metrics.active_count as nat)
            &&& row[4] == Text::decimal(report.metrics.max_concurrency as nat)
            &&& row[5] == Text::decimal(report.metrics.queue_depth as nat)
            &&& row[6] == os_cpu_pct
            &&& row[7] == rss_mb
        }),
{
}

} // verus!
