//! What requests, addresses, reports and the files of the system say.

use vstd::prelude::*;

use crate::docker::executor::Docker;
use crate::http::executor::CgroupManager;
use crate::http::instance::Figures;
use crate::http::loadgen::{Loadgen, PatternSettings};
use crate::http::process::Process;
use crate::http::proxy::{Backend, BackendPool};
use crate::http::request::{Response, Route};
use crate::shared::workload::WorkloadPattern;
use crate::text::laws::{
    is_blank, law_beginnings, law_ends_taken_away, law_line_ends, law_trimming, law_words,
};
use crate::text::{lemma_decimal_word, lemma_position_found, lemma_word_trimmed, Text};

verus! {

/// The address in a URL is its host and port, with or without a scheme before it and a path
/// behind it.
pub proof fn law_address_of_url(host: Seq<char>, path: Seq<char>)
    requires
        !host.contains('/'),
        host != "http:"@,
    ensures
        Backend::address_of(host) == host,
        Backend::address_of(host + "/"@ + path) == host,
        Backend::address_of("http://"@ + host) == host,
        Backend::address_of("http://"@ + (host + "/"@ + path)) == host,
{
    reveal_strlit("http://");
    reveal_strlit("/");
    let n = host.len() as int;
    let scheme = "http://"@;
    let long = host + "/"@ + path;
    assert forall|i: int| 0 <= i < n implies host[i] != '/' by {
        if host[i] == '/' {
            assert(host.contains('/'));
        }
    }
    assert(!Text::begins(host, scheme)) by {
        if Text::begins(host, scheme) {
            assert(host.take(7)[5] == host[5]);
            assert(scheme[5] == '/');
        }
    }
    assert(!Text::begins(long, scheme)) by {
        if Text::begins(long, scheme) {
            assert(long.take(7)[0] == long[0] && long.take(7)[1] == long[1] && long.take(7)[2]
                == long[2] && long.take(7)[3] == long[3] && long.take(7)[4] == long[4]
                && long.take(7)[5] == long[5]);
            if n <= 4 {
                assert(long[n] == '/');
                assert(scheme[n] != '/');
                assert(long.take(7)[n] == long[n]);
            } else if n > 5 {
                assert(long[5] == host[5]);
                assert(scheme[5] == '/');
            } else {
                reveal_strlit("http:");
                assert forall|i: int| 0 <= i < 5 implies host[i] == "http:"@[i] by {
                    assert(long[i] == host[i]);
                    assert(long.take(7)[i] == scheme[i]);
                }
                assert(host =~= "http:"@);
            }
        }
    }
    law_beginnings(scheme, host, host);
    law_beginnings(scheme, long, long);
    lemma_position_found(host, '/', n);
    lemma_position_found(long, '/', n);
    assert(host.take(n) =~= host);
    assert(long.take(n) =~= host);
}

/// One slash joins a base URL and an endpoint, however many there are at the joint.
pub proof fn law_url_joined(base: Seq<char>, endpoint: Seq<char>)
    ensures
        Loadgen::url(base.push('/'), endpoint) == Loadgen::url(base, endpoint),
        Loadgen::url(base, seq!['/'] + endpoint) == Loadgen::url(base, endpoint),
        (base.len() == 0 || base.last() != '/') && (endpoint.len() == 0 || endpoint[0] != '/')
            ==> Loadgen::url(base, endpoint) == base + "/"@ + endpoint,
{
    law_ends_taken_away(base, '/');
    law_ends_taken_away(endpoint, '/');
}

/// Of base URLs that are separated by commas, each that is not blank has its URL, in their order.
pub proof fn law_urls_of_bases(bases: Seq<Seq<char>>, endpoint: Seq<char>)
    requires
        bases.len() > 0,
        forall|i: int, j: int|
            0 <= i < bases.len() && 0 <= j < bases[i].len() ==> bases[i][j] != ',',
    ensures
        Loadgen::all_urls(Text::separated(bases, seq![',']), endpoint) == Loadgen::urls(
            bases,
            endpoint,
        ),
{
    crate::text::law_fields_read_back(bases, ',');
}

/// One more base URL adds its URL, without the white space around it; a blank one adds nothing.
pub proof fn law_one_more_base(
    bases: Seq<Seq<char>>,
    before: Seq<char>,
    base: Seq<char>,
    after: Seq<char>,
    endpoint: Seq<char>,
)
    requires
        is_blank(before),
        is_blank(after),
        Text::is_word(base),
    ensures
        Loadgen::urls(Seq::empty(), endpoint) == Seq::<Seq<char>>::empty(),
        Loadgen::urls(bases.push(before + base + after), endpoint) == Loadgen::urls(
            bases,
            endpoint,
        ).push(Loadgen::url(base, endpoint)),
        Loadgen::urls(bases.push(before), endpoint) == Loadgen::urls(bases, endpoint),
{
    assert(!Text::is_space(base[0]));
    assert(!Text::is_space(base[base.len() - 1]));
    law_trimming(before, base, after);
    law_trimming(before, Seq::empty(), Seq::empty());
    assert(before + Seq::<char>::empty() + Seq::<char>::empty() =~= before);
    assert(bases.push(before + base + after).drop_last() =~= bases);
    assert(bases.push(before).drop_last() =~= bases);
}

/// Each pattern is made of its own settings, and no other name has one.
pub proof fn law_named_patterns(settings: PatternSettings, name: Seq<char>)
    ensures
        settings.named("steady"@) == Some(WorkloadPattern::Steady { rps: settings.base_rps }),
        settings.named("step"@) == Some(
            WorkloadPattern::Step {
                base: settings.base_rps,
                step_to: settings.step_to,
                step_at: settings.step_at,
            },
        ),
        settings.named("burst"@) == Some(
            WorkloadPattern::Burst {
                base: settings.base_rps,
                peak: settings.peak_rps,
                burst_start: settings.burst_start,
                burst_end: settings.burst_end,
            },
        ),
        settings.named("ramp"@) == Some(
            WorkloadPattern::Ramp {
                base: settings.base_rps,
                peak: settings.peak_rps,
                ramp_duration: settings.ramp_duration,
            },
        ),
        settings.named("sawtooth"@) == Some(
            WorkloadPattern::Sawtooth {
                base: settings.base_rps,
                peak: settings.peak_rps,
                period: settings.period,
            },
        ),
        settings.named("wave"@) == Some(
            WorkloadPattern::Wave {
                center: settings.wave_center,
                amplitude: settings.peak_rps,
                period_s: settings.period,
            },
        ),
        settings.named("double-burst"@) == Some(
            WorkloadPattern::DoubleBurst {
                base: settings.base_rps,
                peak: settings.peak_rps,
                burst1_start: settings.burst_start,
                burst1_end: settings.burst_end,
                burst2_start: settings.burst2_start,
                burst2_end: settings.burst2_end,
            },
        ),
        settings.named(name) is Some ==> name == "steady"@ || name == "step"@ || name == "burst"@
            || name == "ramp"@ || name == "sawtooth"@ || name == "wave"@ || name
            == "double-burst"@,
{
    reveal_strlit("steady");
    reveal_strlit("step");
    reveal_strlit("burst");
    reveal_strlit("ramp");
    reveal_strlit("sawtooth");
    reveal_strlit("wave");
    reveal_strlit("double-burst");
    assert("steady"@.len() == 6 && "step"@.len() == 4 && "burst"@.len() == 5);
    assert("ramp"@.len() == 4 && "sawtooth"@.len() == 8 && "wave"@.len() == 4);
    assert("double-burst"@.len() == 12);
    assert("step"@[0] != "ramp"@[0]);
    assert("step"@[0] != "wave"@[0]);
    assert("ramp"@[0] != "wave"@[0]);
}

/// A request is read by the first two words of its first line, whatever follows.
pub proof fn law_request_line(
    method: Seq<char>,
    path: Seq<char>,
    version: Seq<char>,
    rest: Seq<char>,
)
    requires
        Text::is_word(method),
        Text::is_word(path),
        !version.contains('\n'),
    ensures
        Route::line(
            method + seq![' '] + path + seq![' '] + version + seq!['\r', '\n'] + rest,
        ) == Some((method, path)),
        Route::line(method + seq!['\r', '\n'] + rest) is None,
        Route::line(Seq::empty()) is None,
{
    lemma_word_trimmed(method);
    lemma_word_trimmed(path);
    let tail = seq![' '] + version;
    let middle = seq![' '] + path + tail;
    let line = method + seq![' '] + path + seq![' '] + version;
    assert(line =~= method + middle);
    assert(line =~= Seq::<char>::empty() + method + middle);
    assert forall|i: int| 0 <= i < line.len() implies line[i] != '\n' by {
        let n = method.len() as int;
        let m = path.len() as int;
        if i < n {
            assert(line[i] == method[i]);
            assert(method.contains(method[i]));
        } else if i == n {
            assert(line[i] == ' ');
        } else if i < n + 1 + m {
            assert(line[i] == path[i - n - 1]);
            assert(path.contains(path[i - n - 1]));
        } else if i == n + 1 + m {
            assert(line[i] == ' ');
        } else {
            assert(line[i] == version[i - n - m - 2]);
            assert(version.contains(version[i - n - m - 2]));
        }
    }
    law_line_ends(line, rest);
    law_line_ends(method, rest);
    law_words(Seq::empty(), method, middle);
    assert(is_blank(seq![' ']));
    law_words(seq![' '], path, tail);
    law_words(Seq::empty(), method, Seq::empty());
    assert(Seq::<char>::empty() + method + Seq::<char>::empty() =~= method);
    assert(Text::words(Seq::<char>::empty()).len() == 0);
    let text = method + seq![' '] + path + seq![' '] + version + seq!['\r', '\n'] + rest;
    assert(Text::lines(text)[0] == line);
    assert(Text::words(line) =~= seq![method] + (seq![path] + Text::words(tail)));
    assert(Text::lines(method + seq!['\r', '\n'] + rest)[0] == method);
}

/// What a path begins with decides on its route, and only reading is allowed.
pub proof fn law_routes(method: Seq<char>, path: Seq<char>, rest: Seq<char>)
    ensures
        Route::routed("GET"@, "/metrics"@ + rest) is Metrics,
        Route::routed("GET"@, "/healthz"@ + rest) is Health,
        Route::routed("GET"@, "/cpu-heavy"@ + rest) is CpuHeavy,
        Route::routed("GET"@, "/mem-heavy"@ + rest) is MemHeavy,
        Route::routed("GET"@, "/mixed"@ + rest) is Mixed,
        (Route::routed(method, path) is NotAllowed) == (method != "GET"@),
        (Route::routed("GET"@, path) is Metrics) == Text::begins(path, "/metrics"@),
        (Route::routed("GET"@, path) is Health) == Text::begins(path, "/healthz"@),
        (Route::routed("GET"@, path) is CpuHeavy) == Text::begins(path, "/cpu-heavy"@),
        (Route::routed("GET"@, path) is MemHeavy) == Text::begins(path, "/mem-heavy"@),
        (Route::routed("GET"@, path) is Mixed) == Text::begins(path, "/mixed"@),
{
    reveal_strlit("/metrics");
    reveal_strlit("/healthz");
    reveal_strlit("/cpu-heavy");
    reveal_strlit("/mem-heavy");
    reveal_strlit("/mixed");
    lemma_begins_at("/metrics"@, path, rest);
    lemma_begins_at("/healthz"@, path, rest);
    lemma_begins_at("/cpu-heavy"@, path, rest);
    lemma_begins_at("/mem-heavy"@, path, rest);
    lemma_begins_at("/mixed"@, path, rest);
    lemma_only_one(path);
    lemma_only_one("/metrics"@ + rest);
    lemma_only_one("/healthz"@ + rest);
    lemma_only_one("/cpu-heavy"@ + rest);
    lemma_only_one("/mem-heavy"@ + rest);
    lemma_only_one("/mixed"@ + rest);
}

/// No path begins in two of the ways.
proof fn lemma_only_one(path: Seq<char>)
    ensures
        Text::begins(path, "/metrics"@) ==> !Text::begins(path, "/healthz"@) && !Text::begins(
            path,
            "/cpu-heavy"@,
        ) && !Text::begins(path, "/mem-heavy"@) && !Text::begins(path, "/mixed"@),
        Text::begins(path, "/healthz"@) ==> !Text::begins(path, "/cpu-heavy"@) && !Text::begins(
            path,
            "/mem-heavy"@,
        ) && !Text::begins(path, "/mixed"@),
        Text::begins(path, "/cpu-heavy"@) ==> !Text::begins(path, "/mem-heavy"@) && !Text::begins(
            path,
            "/mixed"@,
        ),
        Text::begins(path, "/mem-heavy"@) ==> !Text::begins(path, "/mixed"@),
{
    reveal_strlit("/metrics");
    reveal_strlit("/healthz");
    reveal_strlit("/cpu-heavy");
    reveal_strlit("/mem-heavy");
    reveal_strlit("/mixed");
    lemma_begins_at("/metrics"@, path, path);
    lemma_begins_at("/healthz"@, path, path);
    lemma_begins_at("/cpu-heavy"@, path, path);
    lemma_begins_at("/mem-heavy"@, path, path);
    lemma_begins_at("/mixed"@, path, path);
    assert("/metrics"@[1] == 'm' && "/metrics"@[2] == 'e' && "/metrics"@[3] == 't');
    assert("/healthz"@[1] == 'h');
    assert("/cpu-heavy"@[1] == 'c');
    assert("/mem-heavy"@[1] == 'm' && "/mem-heavy"@[2] == 'e' && "/mem-heavy"@[3] == 'm');
    assert("/mixed"@[1] == 'm' && "/mixed"@[2] == 'i');
}

/// A text that begins with another agrees with it there.
proof fn lemma_begins_at(prefix: Seq<char>, s: Seq<char>, rest: Seq<char>)
    ensures
        Text::begins(s, prefix) ==> s.len() >= prefix.len() && forall|i: int|
            0 <= i < prefix.len() ==> s[i] == #[trigger] prefix[i],
        Text::begins(prefix + rest, prefix),
{
    law_beginnings(prefix, rest, s);
    if Text::begins(s, prefix) {
        assert forall|i: int| 0 <= i < prefix.len() implies s[i] == #[trigger] prefix[i] by {
            assert(s.take(prefix.len() as int)[i] == s[i]);
        }
    }
}

/// An answer tells its status in its first line and its length in bytes in the second, and ends
/// with its body, after an empty line.
pub proof fn law_message(status: u16, reason: Seq<char>, body: Seq<char>)
    requires
        !reason.contains('\n'),
    ensures
        Text::lines(Response::message(status, reason, body)) == seq![
            "HTTP/1.1 "@ + Text::decimal(status as nat) + " "@ + reason,
            "Content-Length: "@ + Text::decimal(vstd::utf8::encode_utf8(body).len()),
            "Content-Type: text/plain"@,
            "Connection: close"@,
            ""@,
        ] + Text::lines(body),
{
    reveal_strlit("HTTP/1.1 ");
    reveal_strlit(" ");
    reveal_strlit("\r\nContent-Length: ");
    reveal_strlit("Content-Length: ");
    reveal_strlit("\r\nContent-Type: text/plain\r\nConnection: close\r\n\r\n");
    reveal_strlit("Content-Type: text/plain");
    reveal_strlit("Connection: close");
    reveal_strlit("");
    let end = seq!['\r', '\n'];
    let n = Text::decimal(status as nat);
    let size = Text::decimal(vstd::utf8::encode_utf8(body).len());
    let first = "HTTP/1.1 "@ + n + " "@ + reason;
    let second = "Content-Length: "@ + size;
    let third = "Content-Type: text/plain"@;
    let fourth = "Connection: close"@;
    let fifth = ""@;
    let tail = fifth + end + body;
    let after_third = fourth + end + tail;
    let after_second = third + end + after_third;
    let after_first = second + end + after_second;
    assert("\r\nContent-Length: "@ =~= end + "Content-Length: "@);
    assert("\r\nContent-Type: text/plain\r\nConnection: close\r\n\r\n"@ =~= end + third + end
        + fourth + end + fifth + end);
    assert(Response::message(status, reason, body) =~= first + end + after_first);
    lemma_decimal_word(status as nat);
    lemma_decimal_word(vstd::utf8::encode_utf8(body).len());
    lemma_word_trimmed(n);
    lemma_word_trimmed(size);
    assert(!first.contains('\n')) by {
        assert forall|i: int| 0 <= i < first.len() implies first[i] != '\n' by {
            let a = "HTTP/1.1 "@.len() as int;
            let b = n.len() as int;
            if i >= a && i < a + b {
                assert(first[i] == n[i - a]);
                assert(n.contains(n[i - a]));
            } else if i > a + b {
                assert(first[i] == reason[i - a - b - 1]);
                assert(reason.contains(reason[i - a - b - 1]));
            }
        }
    }
    assert(!second.contains('\n')) by {
        assert forall|i: int| 0 <= i < second.len() implies second[i] != '\n' by {
            let a = "Content-Length: "@.len() as int;
            if i >= a {
                assert(second[i] == size[i - a]);
                assert(size.contains(size[i - a]));
            }
        }
    }
    law_line_ends(first, after_first);
    law_line_ends(second, after_second);
    law_line_ends(third, after_third);
    law_line_ends(fourth, tail);
    law_line_ends(fifth, body);
    assert(seq![first] + (seq![second] + (seq![third] + (seq![fourth] + (seq![fifth]
        + Text::lines(body))))) =~= seq![first, second, third, fourth, fifth] + Text::lines(body));
}

/// A line of a report is read without the white space around its key and its value.
pub proof fn law_report_line(
    figures: Figures,
    a: Seq<char>,
    key: Seq<char>,
    b: Seq<char>,
    c: Seq<char>,
    value: Seq<char>,
    d: Seq<char>,
)
    requires
        is_blank(a),
        is_blank(b),
        is_blank(c),
        is_blank(d),
        Text::is_word(key),
        !key.contains('='),
        Text::is_word(value),
    ensures
        Figures::key(a + key + b + seq!['='] + (c + value + d)) == key,
        Figures::value(a + key + b + seq!['='] + (c + value + d)) == value,
        figures.with_line(a + key + b) == figures,
        figures.with_line(a + key + b + seq!['='] + c) == figures,
{
    let start = a + key + b;
    let at = start.len() as int;
    assert(!Text::is_space('='));
    assert forall|i: int| 0 <= i < start.len() implies start[i] != '=' by {
        if i < a.len() {
            assert(Text::is_space(a[i]));
        } else if i < a.len() + key.len() {
            assert(start[i] == key[i - a.len()]);
            assert(key.contains(key[i - a.len()]));
        } else {
            assert(start[i] == b[i - a.len() - key.len()]);
            assert(Text::is_space(b[i - a.len() - key.len()]));
        }
    }
    let line = start + seq!['='] + (c + value + d);
    lemma_position_found(line, '=', at);
    assert(line.take(at) =~= start);
    assert(line.skip(at + 1) =~= c + value + d);
    assert(!Text::is_space(key[0]) && !Text::is_space(key[key.len() - 1]));
    assert(!Text::is_space(value[0]) && !Text::is_space(value[value.len() - 1]));
    law_trimming(a, key, b);
    law_trimming(c, value, d);
    lemma_position_found(start, '=', at);
    let bare = start + seq!['='] + c;
    lemma_position_found(bare, '=', at);
    assert(bare.skip(at + 1) =~= c);
    law_trimming(c, Seq::empty(), Seq::empty());
    assert(c + Seq::<char>::empty() + Seq::<char>::empty() =~= c);
}

/// The CPU ticks are the twelfth and the thirteenth field after the name; without both there are
/// none.
pub proof fn law_cpu_fields(fields: Seq<Seq<char>>, user: nat, kernel: nat)
    requires
        user <= u64::MAX,
        kernel <= u64::MAX,
    ensures
        fields.len() > 12 && fields[11] == Text::decimal(user) && fields[12] == Text::decimal(
            kernel,
        ) ==> Process::cpu_fields(fields) == (user, kernel),
        fields.len() <= 12 ==> Process::cpu_fields(fields) == (0nat, 0nat),
        fields.len() > 12 && (Text::number(fields[11], u64::MAX as nat) is None || Text::number(
            fields[12],
            u64::MAX as nat,
        ) is None) ==> Process::cpu_fields(fields) == (0nat, 0nat),
{
    crate::text::law_decimal_read_back(user, u64::MAX as nat);
    crate::text::law_decimal_read_back(kernel, u64::MAX as nat);
}

/// The memory of a process stands behind its key in the first line that has it.
pub proof fn law_memory_line(
    before: Seq<Seq<char>>,
    blank: Seq<char>,
    kb: nat,
    unit: Seq<char>,
    after: Seq<Seq<char>>,
)
    requires
        kb <= u64::MAX,
        is_blank(blank),
        unit.len() > 0 ==> Text::is_space(unit[0]),
        forall|i: int| 0 <= i < before.len() ==> !Text::begins(#[trigger] before[i], "VmRSS:"@),
    ensures
        Process::rss_of_lines(
            before + seq!["VmRSS:"@ + (blank + Text::decimal(kb) + unit)] + after,
        ) == kb,
        Process::rss_of_lines(before) == 0,
    decreases before.len(),
{
    let line = "VmRSS:"@ + (blank + Text::decimal(kb) + unit);
    let lines = before + seq![line] + after;
    if before.len() == 0 {
        let rest = blank + Text::decimal(kb) + unit;
        law_beginnings("VmRSS:"@, rest, line);
        assert(lines[0] == line);
        assert(line.skip("VmRSS:"@.len() as int) =~= rest);
        lemma_decimal_word(kb);
        law_words(blank, Text::decimal(kb), unit);
        crate::text::law_decimal_read_back(kb, u64::MAX as nat);
        assert(Text::words(rest)[0] == Text::decimal(kb));
    } else {
        assert(lines[0] == before[0]);
        assert(!Text::begins(before[0], "VmRSS:"@));
        assert(lines.drop_first() =~= before.drop_first() + seq![line] + after);
        assert forall|i: int| 0 <= i < before.drop_first().len() implies !Text::begins(
            #[trigger] before.drop_first()[i],
            "VmRSS:"@,
        ) by {
            assert(!Text::begins(before[i + 1], "VmRSS:"@));
        }
        law_memory_line(before.drop_first(), blank, kb, unit, after);
    }
}

/// The control group of a process stands in the first line for the unified hierarchy.
pub proof fn law_control_group(before: Seq<Seq<char>>, path: Seq<char>, after: Seq<Seq<char>>)
    requires
        forall|i: int|
            0 <= i < before.len() ==> Text::is_line(#[trigger] before[i]) && !Text::begins(
                before[i],
                "0::"@,
            ),
        forall|i: int| 0 <= i < after.len() ==> Text::is_line(#[trigger] after[i]),
        Text::is_word(path),
    ensures
        CgroupManager::group_dir(Text::ended(before + seq!["0::"@ + path] + after)) == Some(
            "/sys/fs/cgroup"@ + path,
        ),
        CgroupManager::group_dir(Text::ended(before)) is None,
{
    let line = "0::"@ + path;
    let lines = before + seq![line] + after;
    reveal_strlit("0::");
    lemma_word_trimmed(path);
    assert(Text::is_line(line)) by {
        assert forall|i: int| 0 <= i < line.len() implies line[i] != '\n' by {
            if i >= 3 {
                assert(line[i] == path[i - 3]);
                assert(path.contains(path[i - 3]));
            }
        }
        assert(line.last() == path.last());
    }
    assert forall|i: int| 0 <= i < lines.len() implies Text::is_line(#[trigger] lines[i]) by {
        if i < before.len() {
            assert(Text::is_line(before[i]));
        } else if i > before.len() {
            assert(lines[i] == after[i - before.len() - 1]);
            assert(Text::is_line(after[i - before.len() - 1]));
        }
    }
    crate::text::law_lines_read_back(lines);
    crate::text::law_lines_read_back(before);
    lemma_first_beginning(before, line, after);
    assert(line.skip(3) =~= path);
}

proof fn lemma_first_beginning(before: Seq<Seq<char>>, line: Seq<char>, after: Seq<Seq<char>>)
    requires
        forall|i: int| 0 <= i < before.len() ==> !Text::begins(#[trigger] before[i], "0::"@),
        exists|rest: Seq<char>| line == #[trigger] ("0::"@ + rest),
    ensures
        CgroupManager::first_beginning(before + seq![line] + after, "0::"@) == Some(line),
        CgroupManager::first_beginning(before, "0::"@) is None,
    decreases before.len(),
{
    let lines = before + seq![line] + after;
    if before.len() == 0 {
        law_beginnings("0::"@, line, line);
        assert(lines[0] == line);
    } else {
        assert(lines[0] == before[0]);
        assert(!Text::begins(before[0], "0::"@));
        assert(lines.skip(1) =~= before.skip(1) + seq![line] + after);
        assert forall|i: int| 0 <= i < before.skip(1).len() implies !Text::begins(
            #[trigger] before.skip(1)[i],
            "0::"@,
        ) by {
            assert(!Text::begins(before[i + 1], "0::"@));
        }
        lemma_first_beginning(before.skip(1), line, after);
    }
}

/// The URL of a container holds the port that the client tells, whatever white space is around it.
pub proof fn law_container_url(before: Seq<char>, port: nat, after: Seq<char>)
    requires
        is_blank(before),
        is_blank(after),
    ensures
        port <= u16::MAX ==> Docker::host_url_in(before + Text::decimal(port) + after) == Some(
            "http://127.0.0.1:"@ + Text::decimal(port),
        ),
        port > u16::MAX ==> Docker::host_url_in(before + Text::decimal(port) + after) is None,
        Docker::host_url_in(before) is None,
{
    lemma_decimal_word(port);
    let text = Text::decimal(port);
    assert(!Text::is_space(text[0]) && !Text::is_space(text[text.len() - 1]));
    law_trimming(before, text, after);
    law_trimming(before, Seq::empty(), Seq::empty());
    assert(before + Seq::<char>::empty() + Seq::<char>::empty() =~= before);
    crate::text::law_decimal_read_back(port, u16::MAX as nat);
}

/// Each round of the work folds its number into what came of the rounds before, turns that by 31
/// bits and adds a constant.
pub proof fn law_rounds_of_work(rounds: nat)
    requires
        rounds <= u64::MAX,
    ensures
        Process::worked(0) == 0x517c_c1b7_2722_0a95,
        ({
            let folded = Process::worked(rounds) ^ (rounds as u64).wrapping_mul(
                0x9e37_79b9_7f4a_7c15,
            );
            Process::worked(rounds + 1) == ((folded << 31) | (folded >> 33)).wrapping_add(
                0x6c62_272e_07bb_0142,
            )
        }),
{
}

/// A connection more is counted where it is opened, a connection fewer where its ticket is, and
/// nothing else of a backend changes.
pub proof fn law_connections_are_counted(backend: Backend, ticket: u64)
    ensures
        backend.in_flight < usize::MAX ==> backend.acquired().in_flight == backend.in_flight + 1,
        backend.in_flight > 0 ==> backend.released(backend.ticket).in_flight == backend.in_flight
            - 1,
        ticket != backend.ticket ==> backend.released(ticket) == backend,
        backend.acquired().url == backend.url,
        backend.acquired().ticket == backend.ticket,
        backend.released(ticket).url == backend.url,
        backend.released(ticket).ticket == backend.ticket,
{
}

/// A request goes to a backend with the fewest connections, the first of these.
pub proof fn law_least_loaded_is_picked(pool: BackendPool, index: int, other: int)
    requires
        pool.is_least(index),
        0 <= other < pool@.len(),
    ensures
        0 <= index < pool@.len(),
        pool@[index].in_flight <= pool@[other].in_flight,
        other < index ==> pool@[index].in_flight < pool@[other].in_flight,
        pool.is_least(other) ==> other == index,
{
    if pool.is_least(other) {
        if other < index {
            assert(pool@[index].in_flight < pool@[other].in_flight);
        } else if index < other {
            assert(pool@[other].in_flight < pool@[index].in_flight);
        }
    }
}

/// A pool holds the URLs that it is given, each once and in the order in which they first come.
pub proof fn law_urls_once(urls: Seq<Seq<char>>, more: Seq<char>)
    ensures
        BackendPool::distinct(Seq::empty()) == Seq::<Seq<char>>::empty(),
        !urls.contains(more) ==> BackendPool::distinct(urls.push(more)) == BackendPool::distinct(
            urls,
        ).push(more),
        urls.contains(more) ==> BackendPool::distinct(urls.push(more)) == BackendPool::distinct(
            urls,
        ),
        BackendPool::distinct(urls).contains(more) == urls.contains(more),
    decreases urls.len(),
{
    assert(urls.push(more).drop_last() =~= urls);
    if urls.len() > 0 {
        let rest = urls.drop_last();
        law_urls_once(rest, more);
        let earlier = BackendPool::distinct(rest);
        assert(urls =~= rest.push(urls.last()));
        if urls.contains(more) {
            let i = choose|i: int| 0 <= i < urls.len() && urls[i] == more;
            if i < rest.len() {
                assert(rest[i] == more);
                assert(rest.contains(more));
            }
        }
        if rest.contains(more) {
            let i = choose|i: int| 0 <= i < rest.len() && rest[i] == more;
            assert(urls[i] == more);
        }
        let all = earlier.push(urls.last());
        assert(all.contains(more) == (earlier.contains(more) || urls.last() == more)) by {
            assert(all[all.len() - 1] == urls.last());
            if earlier.contains(more) {
                let k = choose|k: int| 0 <= k < earlier.len() && earlier[k] == more;
                assert(all[k] == more);
            }
        }
        if urls.last() == more {
            assert(urls[urls.len() - 1] == more);
        }
    }
}

/// Each URL that is neither in the pool nor among those before it is new.
pub proof fn law_newcomers_are_counted(pool: BackendPool, urls: Seq<Seq<char>>, more: Seq<char>)
    ensures
        pool.newcomers(Seq::empty()) == 0,
        !urls.contains(more) && (forall|i: int|
            0 <= i < pool@.len() ==> (#[trigger] pool@[i]).url != more) ==> pool.newcomers(
            urls.push(more),
        ) == pool.newcomers(urls) + 1,
        urls.contains(more) || (exists|i: int|
            0 <= i < pool@.len() && (#[trigger] pool@[i]).url == more) ==> pool.newcomers(
            urls.push(more),
        ) == pool.newcomers(urls),
{
    assert(urls.push(more).drop_last() =~= urls);
    law_urls_once(urls, more);
}

/// A figure that cannot be read is 0 in a report, but the slots are 1; a key that is not known
/// changes nothing.
pub proof fn law_unreadable_figures(figures: Figures, line: Seq<char>)
    requires
        Figures::value(line).len() > 0,
    ensures
        Figures::key(line) == "max_concurrency"@ && Text::number(
            Figures::value(line),
            usize::MAX as nat,
        ) is None ==> figures.with_line(line) == (Figures { max_concurrency: 1, ..figures }),
        Figures::key(line) == "requests_total"@ && Text::number(
            Figures::value(line),
            u64::MAX as nat,
        ) is None ==> figures.with_line(line) == (Figures { total_requests: 0, ..figures }),
        Figures::key(line) == "errors_total"@ && Text::number(
            Figures::value(line),
            u64::MAX as nat,
        ) is None ==> figures.with_line(line) == (Figures { errors: 0, ..figures }),
        Figures::key(line) == "active_count"@ && Text::number(
            Figures::value(line),
            usize::MAX as nat,
        ) is None ==> figures.with_line(line) == (Figures { active_count: 0, ..figures }),
        Figures::key(line) == "queue_depth"@ && Text::number(
            Figures::value(line),
            usize::MAX as nat,
        ) is None ==> figures.with_line(line) == (Figures { queue_depth: 0, ..figures }),
        Figures::key(line) == "os_cpu_ticks"@ && Text::number(
            Figures::value(line),
            u64::MAX as nat,
        ) is None ==> figures.with_line(line) == (Figures { os_cpu_ticks: 0, ..figures }),
        Figures::key(line) == "rss_kb"@ && Text::number(
            Figures::value(line),
            u64::MAX as nat,
        ) is None ==> figures.with_line(line) == (Figures { rss_kb: 0, ..figures }),
        Figures::key(line) == "in_flight"@ ==> figures.with_line(line) == figures,
{
    reveal_strlit("max_concurrency");
    reveal_strlit("requests_total");
    reveal_strlit("errors_total");
    reveal_strlit("avg_latency_ms");
    reveal_strlit("active_count");
    reveal_strlit("queue_depth");
    reveal_strlit("os_cpu_ticks");
    reveal_strlit("rss_kb");
    reveal_strlit("in_flight");
    assert("max_concurrency"@.len() == 15 && "requests_total"@.len() == 14);
    assert("errors_total"@.len() == 12 && "avg_latency_ms"@.len() == 14);
    assert("active_count"@.len() == 12 && "queue_depth"@.len() == 11);
    assert("os_cpu_ticks"@.len() == 12 && "rss_kb"@.len() == 6 && "in_flight"@.len() == 9);
    assert("requests_total"@[0] != "avg_latency_ms"@[0]);
    assert("errors_total"@[0] != "active_count"@[0]);
    assert("errors_total"@[0] != "os_cpu_ticks"@[0]);
    assert("active_count"@[0] != "os_cpu_ticks"@[0]);
}

} // verus!
