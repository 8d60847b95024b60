use vstd::prelude::*;
use vstd::slice::slice_subrange;

use crate::text::Text;

verus! {

/// What the kernel tells of a process, and the work that the service does.
pub struct Process;

impl Process {
    /// The number in a field, if there is one.
    pub open spec fn field(fields: Seq<Seq<char>>, index: int) -> Option<nat> {
        if index < fields.len() {
            Text::number(fields[index], u64::MAX as nat)
        } else {
            None
        }
    }

    /// What follows the last `)` of a text that has one.
    pub open spec fn after_parenthesis(s: Seq<char>) -> Seq<char>
        decreases s.len(),
    {
        if s.len() == 0 || s.last() == ')' {
            Seq::empty()
        } else {
            Self::after_parenthesis(s.drop_last()).push(s.last())
        }
    }

    /// The CPU ticks in user and in kernel mode, from the contents of `/proc/self/stat`.
    ///
    /// The name of the process, in parentheses, may hold spaces and parentheses itself: fields
    /// are counted after the last `)`. Where one of the two cannot be read, both are 0.
    pub open spec fn cpu_times(stat: Seq<char>) -> (nat, nat) {
        if stat.contains(')') {
            Self::cpu_fields(Text::words(Self::after_parenthesis(stat)))
        } else {
            (0, 0)
        }
    }

    /// The CPU ticks in the fields after the name.
    pub open spec fn cpu_fields(fields: Seq<Seq<char>>) -> (nat, nat) {
        match (Self::field(fields, 11), Self::field(fields, 12)) {
            (Some(user), Some(kernel)) => (user, kernel),
            _ => (0, 0),
        }
    }

    /// The resident set size in a line of `/proc/self/status` that tells it.
    pub open spec fn rss_of_line(line: Seq<char>) -> nat {
        match Self::field(Text::words(line.skip("VmRSS:"@.len() as int)), 0) {
            Some(kb) => kb,
            None => 0,
        }
    }

    /// The resident set size in kilobytes, from the lines of `/proc/self/status`: the first
    /// line that tells it counts.
    pub open spec fn rss_of_lines(lines: Seq<Seq<char>>) -> nat
        decreases lines.len(),
    {
        if lines.len() == 0 {
            0
        } else if Text::begins(lines[0], "VmRSS:"@) {
            Self::rss_of_line(lines[0])
        } else {
            Self::rss_of_lines(lines.drop_first())
        }
    }

    /// One round of the CPU-bound work.
    pub open spec fn mixed(state: u64, i: u64) -> u64 {
        let folded = state ^ i.wrapping_mul(0x9e37_79b9_7f4a_7c15);
        ((folded << 31) | (folded >> 33)).wrapping_add(0x6c62_272e_07bb_0142)
    }

    /// The state after the given number of rounds.
    pub open spec fn worked(rounds: nat) -> u64
        decreases rounds,
    {
        if rounds == 0 {
            0x517c_c1b7_2722_0a95
        } else {
            Self::mixed(Self::worked((rounds - 1) as nat), (rounds - 1) as u64)
        }
    }
}

fn number_in(fields: &Vec<Vec<char>>, index: usize) -> (r: Option<u64>)
    ensures
        Process::field(Text::contents(fields@), index as int) == (match r {
            Some(n) => Some(n as nat),
            None => None,
        }),
{
    let ghost contents = Text::contents(fields@);
    if index < fields.len() {
        assert(contents[index as int] == fields@[index as int]@);
        Text::parse(fields[index].as_slice(), u64::MAX)
    } else {
        None
    }
}

/// The CPU ticks in user and in kernel mode, from the contents of `/proc/self/stat`.
pub fn parse_cpu_times(stat: &str) -> (r: (u64, u64))
    ensures
        (r.0 as nat, r.1 as nat) == Process::cpu_times(stat@),
{
    let chars: Vec<char> = Text::chars(stat);
    let mut n: usize = chars.len();
    proof {
        assert(chars@.take(n as int) =~= chars@);
        assert(chars@.subrange(n as int, chars@.len() as int) =~= Seq::<char>::empty());
        assert(Process::after_parenthesis(chars@) =~= Process::after_parenthesis(
            chars@.take(n as int),
        ) + chars@.subrange(n as int, chars@.len() as int));
    }
    while n > 0 && chars[n - 1] != ')'
        invariant
            n <= chars@.len(),
            Process::after_parenthesis(chars@) == Process::after_parenthesis(
                chars@.take(n as int),
            ) + chars@.subrange(n as int, chars@.len() as int),
            forall|i: int| n <= i < chars@.len() ==> chars@[i] != ')',
        decreases n,
    {
        proof {
            let before = chars@.take(n as int);
            assert(before.drop_last() =~= chars@.take(n - 1));
            assert(Process::after_parenthesis(before.drop_last()).push(before.last())
                + chars@.subrange(n as int, chars@.len() as int)
                =~= Process::after_parenthesis(chars@.take(n - 1)) + chars@.subrange(
                n - 1,
                chars@.len() as int,
            ));
        }
        n = n - 1;
    }
    if n == 0 {
        return (0, 0);
    }
    let rest: &[char] = slice_subrange(chars.as_slice(), n, chars.len());
    proof {
        assert(chars@[n - 1] == ')');
        assert(Process::after_parenthesis(chars@.take(n as int)) =~= Seq::<char>::empty());
        assert(Process::after_parenthesis(chars@) =~= rest@);
    }
    let fields: Vec<Vec<char>> = Text::split_words(rest);
    match (number_in(&fields, 11), number_in(&fields, 12)) {
        (Some(user), Some(kernel)) => (user, kernel),
        _ => (0, 0),
    }
}

/// The CPU ticks of the process in both modes.
pub fn cpu_ticks(user: u64, kernel: u64) -> (r: u64)
    requires
        user + kernel <= u64::MAX,
    ensures
        r == user + kernel,
{
    user + kernel
}

/// The resident set size in kilobytes, from the contents of `/proc/self/status`.
pub fn parse_rss_kb(status: &str) -> (r: u64)
    ensures
        r == Process::rss_of_lines(Text::lines(status@)),
{
    let chars: Vec<char> = Text::chars(status);
    let lines: Vec<Vec<char>> = Text::split_lines(chars.as_slice());
    let ghost texts = Text::contents(lines@);
    let key: Vec<char> = Text::chars("VmRSS:");
    let mut i: usize = 0;
    assert(texts.skip(0) =~= texts);
    while i < lines.len()
        invariant
            i <= lines@.len(),
            texts == Text::contents(lines@),
            texts == Text::lines(status@),
            key@ == "VmRSS:"@,
            Process::rss_of_lines(texts) == Process::rss_of_lines(texts.skip(i as int)),
        decreases lines@.len() - i,
    {
        let line: &[char] = lines[i].as_slice();
        proof {
            assert(texts[i as int] == line@);
            assert(texts.skip(i as int)[0] == line@);
            assert(texts.skip(i as int).drop_first() =~= texts.skip(i + 1));
        }
        if Text::starts_with(line, key.as_slice()) {
            let rest: &[char] = slice_subrange(line, key.len(), line.len());
            assert(rest@ =~= line@.skip(key@.len() as int));
            let fields: Vec<Vec<char>> = Text::split_words(rest);
            return match number_in(&fields, 0) {
                Some(kb) => kb,
                None => 0,
            };
        }
        i = i + 1;
    }
    0
}

/// CPU-bound work: integer mixing whose result depends on every round.
pub fn do_cpu_work(iters: u64) -> (r: u64)
    ensures
        r == Process::worked(iters as nat),
{
    let mut state: u64 = 0x517c_c1b7_2722_0a95;
    let mut i: u64 = 0;
    while i < iters
        invariant
            i <= iters,
            state == Process::worked(i as nat),
        decreases iters - i,
    {
        let folded: u64 = state ^ i.wrapping_mul(0x9e37_79b9_7f4a_7c15);
        state = ((folded << 31) | (folded >> 33)).wrapping_add(0x6c62_272e_07bb_0142);
        i = i + 1;
    }
    state
}

/// Allocates `bytes` of memory and writes to every page of 4096 bytes, so that all of it is
/// resident. Dropping the vector releases it.
pub fn hold_memory(bytes: usize) -> (r: Vec<u8>)
    ensures
        r@.len() == bytes,
        forall|i: int|
            0 <= i < bytes ==> #[trigger] r@[i] == (if i % 4096 == 0 {
                1u8
            } else {
                0u8
            }),
{
    let mut v: Vec<u8> = vec![0u8; bytes];
    let mut i: usize = 0;
    while i < bytes
        invariant
            v@.len() == bytes,
            i % 4096 == 0,
            forall|j: int|
                0 <= j < bytes ==> #[trigger] v@[j] == (if j % 4096 == 0 && j < i {
                    1u8
                } else {
                    0u8
                }),
        decreases bytes - i,
    {
        v[i] = 1u8;
        if bytes - i <= 4096 {
            return v;
        }
        i = i + 4096;
    }
    v
}

/// Whatever the process is called, the fields after its name are found.
pub proof fn law_name_is_skipped(start: Seq<char>, fields: Seq<char>)
    requires
        !fields.contains(')'),
    ensures
        Process::cpu_times(start.push(')') + fields) == Process::cpu_fields(Text::words(fields)),
{
    let stat = start.push(')') + fields;
    assert(stat[start.len() as int] == ')');
    lemma_after_parenthesis(start, fields);
}

proof fn lemma_after_parenthesis(start: Seq<char>, fields: Seq<char>)
    requires
        !fields.contains(')'),
    ensures
        Process::after_parenthesis(start.push(')') + fields) == fields,
    decreases fields.len(),
{
    let stat = start.push(')') + fields;
    if fields.len() == 0 {
        assert(stat.last() == ')');
        assert(Process::after_parenthesis(stat) =~= fields);
    } else {
        let rest = fields.drop_last();
        assert(fields.contains(fields.last()));
        assert forall|i: int| 0 <= i < rest.len() implies rest[i] != ')' by {
            assert(fields.contains(fields[i]));
        }
        lemma_after_parenthesis(start, rest);
        assert(stat.drop_last() =~= start.push(')') + rest);
        assert(Process::after_parenthesis(stat) =~= rest.push(fields.last()));
        assert(rest.push(fields.last()) =~= fields);
    }
}

} // verus!
