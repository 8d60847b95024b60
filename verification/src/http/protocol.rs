use vstd::prelude::*;

use crate::http::instance::Figures;
use crate::http::service::{Counters, ProcessFigures};
use crate::text::Text;

verus! {

/// A key and a value are found again in their line.
proof fn lemma_line_read_back(key: Seq<char>, value: Seq<char>)
    requires
        Text::is_word(key),
        !key.contains('='),
        Text::is_word(value),
    ensures
        Figures::key(Counters::line(key, value)) == key,
        Figures::value(Counters::line(key, value)) == value,
        Text::is_line(Counters::line(key, value)),
{
    reveal_strlit("=");
    let line = Counters::line(key, value);
    let at = key.len() as int;
    assert(line[at] == '=');
    assert forall|i: int| 0 <= i < at implies line[i] != '=' by {
        assert(line[i] == key[i]);
        assert(key.contains(key[i]));
    }
    crate::text::lemma_position_found(line, '=', at);
    assert(line.take(at) =~= key);
    assert(line.skip(at + 1) =~= value);
    crate::text::lemma_word_trimmed(key);
    crate::text::lemma_word_trimmed(value);
    if line.contains('\n') {
        let i = choose|i: int| 0 <= i < line.len() && line[i] == '\n';
        if i < at {
            assert(key.contains(key[i]));
        } else if i > at {
            assert(value.contains(value[i - at - 1]));
        }
    }
    assert(line.last() == value.last());
}

/// The keys of a report.
spec fn is_key(key: Seq<char>) -> bool {
    ||| key == "requests_total"@
    ||| key == "in_flight"@
    ||| key == "errors_total"@
    ||| key == "avg_latency_ms"@
    ||| key == "max_concurrency"@
    ||| key == "active_count"@
    ||| key == "queue_depth"@
    ||| key == "cpu_requests"@
    ||| key == "mem_requests"@
    ||| key == "mixed_requests"@
    ||| key == "os_cpu_ticks"@
    ||| key == "rss_kb"@
}

/// The keys of a report are words without an equals sign.
proof fn lemma_keys(key: Seq<char>)
    requires
        is_key(key),
    ensures
        Text::is_word(key),
        !key.contains('='),
{
    reveal_strlit("requests_total");
    reveal_strlit("in_flight");
    reveal_strlit("errors_total");
    reveal_strlit("avg_latency_ms");
    reveal_strlit("max_concurrency");
    reveal_strlit("active_count");
    reveal_strlit("queue_depth");
    reveal_strlit("cpu_requests");
    reveal_strlit("mem_requests");
    reveal_strlit("mixed_requests");
    reveal_strlit("os_cpu_ticks");
    reveal_strlit("rss_kb");
}

/// No two keys are the same: they differ in their first character or in length.
proof fn lemma_keys_differ()
    ensures
        "requests_total"@[0] == 'r' && "requests_total"@.len() == 14,
        "in_flight"@[0] == 'i',
        "errors_total"@[0] == 'e',
        "avg_latency_ms"@[0] == 'a' && "avg_latency_ms"@.len() == 14,
        "max_concurrency"@[0] == 'm' && "max_concurrency"@.len() == 15,
        "active_count"@[0] == 'a' && "active_count"@.len() == 12,
        "queue_depth"@[0] == 'q',
        "cpu_requests"@[0] == 'c',
        "mem_requests"@[0] == 'm' && "mem_requests"@.len() == 12,
        "mixed_requests"@[0] == 'm' && "mixed_requests"@.len() == 14,
        "os_cpu_ticks"@[0] == 'o',
        "rss_kb"@[0] == 'r' && "rss_kb"@.len() == 6,
{
    reveal_strlit("requests_total");
    reveal_strlit("in_flight");
    reveal_strlit("errors_total");
    reveal_strlit("avg_latency_ms");
    reveal_strlit("max_concurrency");
    reveal_strlit("active_count");
    reveal_strlit("queue_depth");
    reveal_strlit("cpu_requests");
    reveal_strlit("mem_requests");
    reveal_strlit("mixed_requests");
    reveal_strlit("os_cpu_ticks");
    reveal_strlit("rss_kb");
}

/// What one line of a report does to the figures.
proof fn lemma_count_line_read(before: Figures, key: Seq<char>, n: nat)
    requires
        is_key(key),
        n <= u64::MAX,
    ensures
        ({
            let line = Counters::count_line(key, n);
            let after = before.with_line(line);
            &&& Text::is_line(line)
            &&& key == "requests_total"@ ==> after == Figures { total_requests: n, ..before }
            &&& key == "errors_total"@ ==> after == Figures { errors: n, ..before }
            &&& key == "max_concurrency"@ && n <= usize::MAX ==> after == Figures {
                max_concurrency: n,
                ..before
            }
            &&& key == "active_count"@ && n <= usize::MAX ==> after == Figures {
                active_count: n,
                ..before
            }
            &&& key == "queue_depth"@ && n <= usize::MAX ==> after == Figures {
                queue_depth: n,
                ..before
            }
            &&& key == "os_cpu_ticks"@ ==> after == Figures { os_cpu_ticks: n, ..before }
            &&& key == "rss_kb"@ ==> after == Figures { rss_kb: n, ..before }
            &&& key == "in_flight"@ || key == "cpu_requests"@ || key == "mem_requests"@ || key
                == "mixed_requests"@ ==> after == before
        }),
{
    lemma_keys(key);
    lemma_keys_differ();
    crate::text::lemma_decimal_word(n);
    crate::text::law_decimal_read_back(n, u64::MAX as nat);
    crate::text::law_decimal_read_back(n, usize::MAX as nat);
    lemma_line_read_back(key, Text::decimal(n));
}

/// The controller reads out of a worker's report what the worker wrote into it.
pub proof fn law_report_read_back(counters: Counters, latency: Seq<char>, figures: ProcessFigures)
    requires
        Text::is_word(latency),
    ensures
        Figures::of_lines(Text::lines(Text::ended(counters.report_lines(latency, figures)))) == (
        Figures {
            total_requests: counters.total_requests as nat,
            errors: counters.total_errors as nat,
            latency: Some(latency),
            max_concurrency: figures.max_concurrency as nat,
            active_count: figures.active as nat,
            queue_depth: counters.queue_depth as nat,
            os_cpu_ticks: figures.os_cpu_ticks as nat,
            rss_kb: figures.rss_kb as nat,
        }),
{
    let lines = counters.report_lines(latency, figures);
    let start = Figures::nothing();
    lemma_count_line_read(start, "requests_total"@, counters.total_requests as nat);
    let f1 = start.with_line(lines[0]);
    lemma_count_line_read(f1, "in_flight"@, counters.in_flight as nat);
    lemma_count_line_read(f1, "errors_total"@, counters.total_errors as nat);
    let f2 = f1.with_line(lines[2]);
    lemma_keys("avg_latency_ms"@);
    lemma_keys_differ();
    lemma_line_read_back("avg_latency_ms"@, latency);
    let f3 = f2.with_line(lines[3]);
    assert(f3 == Figures { latency: Some(latency), ..f2 });
    lemma_count_line_read(f3, "max_concurrency"@, figures.max_concurrency as nat);
    let f4 = f3.with_line(lines[4]);
    lemma_count_line_read(f4, "active_count"@, figures.active as nat);
    let f5 = f4.with_line(lines[5]);
    lemma_count_line_read(f5, "queue_depth"@, counters.queue_depth as nat);
    let f6 = f5.with_line(lines[6]);
    lemma_count_line_read(f6, "cpu_requests"@, counters.cpu_requests as nat);
    lemma_count_line_read(f6, "mem_requests"@, counters.mem_requests as nat);
    lemma_count_line_read(f6, "mixed_requests"@, counters.mixed_requests as nat);
    lemma_count_line_read(f6, "os_cpu_ticks"@, figures.os_cpu_ticks as nat);
    let f7 = f6.with_line(lines[10]);
    lemma_count_line_read(f7, "rss_kb"@, figures.rss_kb as nat);
    assert forall|i: int| 0 <= i < lines.len() implies Text::is_line(#[trigger] lines[i]) by {}
    crate::text::law_lines_read_back(lines);
    lemma_of_lines(lines, 12);
    lemma_of_lines(lines, 11);
    lemma_of_lines(lines, 10);
    lemma_of_lines(lines, 9);
    lemma_of_lines(lines, 8);
    lemma_of_lines(lines, 7);
    lemma_of_lines(lines, 6);
    lemma_of_lines(lines, 5);
    lemma_of_lines(lines, 4);
    lemma_of_lines(lines, 3);
    lemma_of_lines(lines, 2);
    lemma_of_lines(lines, 1);
    assert(lines.take(0) =~= Seq::<Seq<char>>::empty());
    assert(lines.take(12) =~= lines);
}

proof fn lemma_of_lines(lines: Seq<Seq<char>>, n: int)
    requires
        0 < n <= lines.len(),
    ensures
        Figures::of_lines(lines.take(n)) == Figures::of_lines(lines.take(n - 1)).with_line(
            lines[n - 1],
        ),
{
    assert(lines.take(n).drop_last() =~= lines.take(n - 1));
}

} // verus!
