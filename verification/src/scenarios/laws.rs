//! What a scenario promises, second by second.

use vstd::prelude::*;

use crate::controller::Controller;
use crate::double::Number;
use crate::scenarios::{
    DataPoint, FileName, History, PointTexts, Scenario, ScenarioRun,
};
use crate::shared::metrics::Metrics;
use crate::shared::types::TargetState;
use crate::simulator::SimulatorConfig;
use crate::text::Text;

verus! {

/// In each second the system meets the rate of that second, and its latency is that of the model.
/// The controller decides after every tenth second, on what is seen then, and its decision counts
/// from the next second on; in between nothing is changed. A decision is told where it changes the
/// replicas, or the CPU or the memory of each noticeably.
pub proof fn law_control_every_ten_seconds(
    config: SimulatorConfig,
    controller: Controller,
    rate: spec_fn(u32) -> Number,
    duration: u32,
    console: bool,
    history: History,
    points: Seq<DataPoint>,
    t: int,
)
    requires
        ScenarioRun::is_config(config),
        ScenarioRun::is_controller(controller),
        ScenarioRun::went(config, controller, rate, duration, console, history, points),
        0 <= t < points.len() <= u32::MAX,
    ensures
        ({
            let point = points[t];
            let now = history.targets[t];
            let next = history.targets[t + 1];
            let changed = next.num_replicas != now.num_replicas || TargetState::apart(
                next.cpu_per_replica,
                now.cpu_per_replica,
            ) || TargetState::apart(next.mem_per_replica, now.mem_per_replica);
            &&& point.state.time_s == t + 1
            &&& point.state.incoming_rps@ == rate(t as u32)
            &&& point.state.cpu_per_replica == now.cpu_per_replica
            &&& point.state.mem_per_replica == now.mem_per_replica
            &&& point.latency_ms@ == Metrics::modelled_latency(point.state)
            &&& t == 0 || t % 10 != 0 ==> next == now && point.action is None
            &&& t > 0 && t % 10 == 0 ==> {
                &&& exists|metrics: Metrics|
                    metrics.avg_latency_ms == point.latency_ms && controller.answers(
                        point.state,
                        #[trigger] controller.diagnosis(point.state, metrics),
                        next,
                    )
                &&& changed ==> point.action == Some(next)
                &&& !changed ==> point.action is None
            }
            &&& !console ==> !point.printed
            &&& console && duration <= 600 ==> point.printed == (t % 10 == 0)
            &&& console && 600 < duration <= 3600 ==> point.printed == (t % 60 == 0)
            &&& console && 3600 < duration ==> point.printed == (t % 300 == 0)
        }),
{
    let point = points[t];
    crate::scenarios::law_scenario_in_bounds(
        config,
        controller,
        rate,
        duration,
        console,
        history,
        points,
        t,
    );
    let metrics = Metrics {
        avg_latency_ms: point.latency_ms,
        p99_latency_ms: point.latency_ms,
        queue_depth: point.state.waiting_requests,
    };
    let found = controller.diagnosis(point.state, metrics);
}

/// Every scenario starts with one active replica of one CPU and two gigabytes and an empty queue.
pub proof fn law_scenarios_start_small(
    config: SimulatorConfig,
    controller: Controller,
    rate: spec_fn(u32) -> Number,
    duration: u32,
    console: bool,
    history: History,
    points: Seq<DataPoint>,
)
    requires
        ScenarioRun::went(config, controller, rate, duration, console, history, points),
    ensures
        history.states[0].time == 0,
        history.states[0].queue == 0,
        history.states[0].active_replicas == 1,
        history.states[0].pending_replicas@.len() == 0,
        history.targets[0].num_replicas == 1,
        history.targets[0].cpu_per_replica@ == Number::integer(1),
        history.targets[0].mem_per_replica@ == Number::integer(2),
{
    assert(history.states[0].ready_times().len() == 0);
}

/// The rates of the six scenarios, and how long each takes.
pub proof fn law_six_scenarios(t: u32)
    ensures
        Scenario::SteadyLoad.duration() == 120,
        Scenario::SteadyLoad.rate()(t) == Number::integer(200),
        Scenario::StepIncrease.duration() == 180,
        t < 60 ==> Scenario::StepIncrease.rate()(t) == Number::integer(50),
        t >= 60 ==> Scenario::StepIncrease.rate()(t) == Number::integer(500),
        Scenario::Burst.duration() == 150,
        30 <= t < 90 ==> Scenario::Burst.rate()(t) == Number::integer(800),
        t < 30 || t >= 90 ==> Scenario::Burst.rate()(t) == Number::integer(100),
        Scenario::GradualGrowth.duration() == 3600,
        t < 1800 ==> Scenario::GradualGrowth.rate()(t) == Number::integer(50),
        t >= 1800 ==> Scenario::GradualGrowth.rate()(t) == Number::integer(1000),
        Scenario::Workday.duration() == 28800,
        3600 <= t < 25200 ==> Scenario::Workday.rate()(t) == Number::integer(500),
        t < 3600 || t >= 25200 ==> Scenario::Workday.rate()(t) == Number::integer(100),
        Scenario::FlashSale.duration() == 1800,
        300 <= t < 900 ==> Scenario::FlashSale.rate()(t) == Number::integer(2000),
        t < 300 || t >= 900 ==> Scenario::FlashSale.rate()(t) == Number::integer(200),
{
}

/// A file name is cleaned character by character: blanks become underscores, parentheses go, an
/// arrow is written out, letters, digits, `_` and `-` stay, and everything else goes.
pub proof fn law_file_names(s: Seq<char>, c: char)
    ensures
        FileName::cleaned(Seq::empty()) == Seq::<char>::empty(),
        FileName::cleaned(s.push(' ')) == FileName::cleaned(s).push('_'),
        FileName::cleaned(s.push('(')) == FileName::cleaned(s),
        FileName::cleaned(s.push(')')) == FileName::cleaned(s),
        FileName::cleaned(s.push('→')) == FileName::cleaned(s) + seq!['t', 'o'],
        Text::is_ascii_alphanumeric(c) || c == '_' || c == '-' ==> FileName::cleaned(s.push(c))
            == FileName::cleaned(s).push(c),
        c <= '\u{7f}' && !Text::is_ascii_alphanumeric(c) && c != '_' && c != '-' && c != ' '
            ==> FileName::cleaned(s.push(c)) == FileName::cleaned(s),
{
    reveal(Seq::filter);
    let kept = |k: char| FileName::is_kept(k);
    lemma_one_kept(s, ' ', '_');
    lemma_cleaned_last(s, '(');
    lemma_cleaned_last(s, ')');
    lemma_cleaned_last(s, '→');
    lemma_cleaned_last(s, c);
    lemma_filter_one('_');
    lemma_filter_one(c);
    let to = seq!['t', 'o'];
    assert(to.drop_last() =~= seq!['t']);
    lemma_filter_one('t');
    assert(to.filter(kept) =~= seq!['t', 'o']);
    assert(Seq::<char>::empty().filter(kept) =~= Seq::<char>::empty());
    assert(FileName::cleaned(s) + Seq::<char>::empty() =~= FileName::cleaned(s));
    assert(FileName::cleaned(s) + seq![c] =~= FileName::cleaned(s).push(c));
}

proof fn lemma_cleaned_last(s: Seq<char>, c: char)
    ensures
        FileName::cleaned(s.push(c)) == FileName::cleaned(s) + FileName::replacement(c).filter(
            |k: char| FileName::is_kept(k),
        ),
{
    assert(s.push(c).drop_last() =~= s);
}

proof fn lemma_filter_one(c: char)
    ensures
        FileName::is_kept(c) ==> seq![c].filter(|k: char| FileName::is_kept(k)) == seq![c],
        !FileName::is_kept(c) ==> seq![c].filter(|k: char| FileName::is_kept(k)) == Seq::<
            char,
        >::empty(),
{
    reveal(Seq::filter);
    let kept = |k: char| FileName::is_kept(k);
    assert(seq![c].drop_last() =~= Seq::<char>::empty());
    assert(Seq::<char>::empty().filter(kept) =~= Seq::<char>::empty());
    assert(Seq::<char>::empty().push(c) =~= seq![c]);
}

proof fn lemma_one_kept(s: Seq<char>, c: char, to: char)
    requires
        FileName::replacement(c) == seq![to],
        FileName::is_kept(to),
    ensures
        FileName::cleaned(s.push(c)) == FileName::cleaned(s).push(to),
{
    lemma_cleaned_last(s, c);
    lemma_filter_one(to);
    assert(FileName::cleaned(s) + seq![to] =~= FileName::cleaned(s).push(to));
}

/// The columns of the table, and what is told of a decision.
pub proof fn law_table(
    point: DataPoint,
    texts: PointTexts,
    action: Seq<char>,
    cpu: Seq<char>,
    mem: Seq<char>,
)
    ensures
        ({
            let row = point.csv_fields(texts, action);
            &&& row.len() == 10
            &&& row[0] == Text::decimal(point.state.time_s as nat)
            &&& row[1] == texts.rps@
            &&& row[2] == Text::decimal(point.state.waiting_requests as nat)
            &&& row[3] == Text::decimal(point.state.num_replicas as nat)
            &&& row[4] == texts.cpu_per_replica@
            &&& row[5] == texts.mem_per_replica@
            &&& row[6] == texts.cpu_util@
            &&& row[7] == texts.mem_util@
            &&& row[8] == texts.latency_ms@
            &&& row[9] == Text::replaced(action, ',', ';')
        }),
        point.action is None ==> point.action_words(cpu, mem) == "-"@,
        point.action matches Some(target) ==> point.action_words(cpu, mem) == "Scale → R:"@
            + Text::decimal(target.num_replicas as nat) + " CPU:"@ + cpu + " Mem:"@ + mem,
{
}

} // verus!
