use vstd::prelude::*;
use vstd::slice::slice_subrange;

use crate::double::{Double, Number};
use crate::http::proxy::BackendPool;
use crate::shared::types::TargetState;
use crate::text::Text;

verus! {

/// The slots of a worker whose speed is limited by a CPU quota. They only keep it from running
/// out of memory.
pub const QUOTA_CONCURRENCY: usize = 32;

/// A worker process, known by the port it listens on.
#[derive(Clone, Copy, Debug, PartialEq, Eq, Structural)]
pub struct Worker {
    pub port: u16,
}

/// The control group that the workers get sub-groups of, with a CPU quota each.
#[derive(Clone, Debug)]
pub struct CgroupManager {
    /// Path of the group's directory.
    pub dir: String,
}

impl CgroupManager {
    /// The first line that begins as given.
    pub open spec fn first_beginning(lines: Seq<Seq<char>>, prefix: Seq<char>) -> Option<Seq<char>>
        decreases lines.len(),
    {
        if lines.len() == 0 {
            None
        } else if Text::begins(lines[0], prefix) {
            Some(lines[0])
        } else {
            Self::first_beginning(lines.skip(1), prefix)
        }
    }

    /// The directory of the group that `/proc/self/cgroup` names in its unified hierarchy.
    pub open spec fn group_dir(membership: Seq<char>) -> Option<Seq<char>> {
        match Self::first_beginning(Text::lines(membership), "0::"@) {
            Some(line) => Some("/sys/fs/cgroup"@ + Text::trimmed(line.skip(3))),
            None => None,
        }
    }

    pub open spec fn worker_name(port: u16) -> Seq<char> {
        "worker-"@ + Text::decimal(port as nat)
    }

    /// The CPU time, in microseconds, of each tenth of a second: at least ten milliseconds.
    pub open spec fn quota(cpu_per_replica: Double) -> nat {
        let wanted = cpu_per_replica@.times(Number::integer(100_000)).rounded(u64::MAX as nat);
        if wanted < 10_000 {
            10_000
        } else {
            wanted
        }
    }

    /// Finds the group in the text of `/proc/self/cgroup`.
    pub fn find(membership: &str) -> (r: Option<CgroupManager>)
        ensures
            match r {
                Some(group) => Self::group_dir(membership@) == Some(group.dir@),
                None => Self::group_dir(membership@) is None,
            },
    {
        let chars: Vec<char> = Text::chars(membership);
        let prefix: Vec<char> = Text::chars("0::");
        let lines: Vec<Vec<char>> = Text::split_lines(chars.as_slice());
        let ghost texts = Text::contents(lines@);
        let mut i: usize = 0;
        assert(texts.skip(0) =~= texts);
        while i < lines.len()
            invariant
                i <= lines@.len(),
                texts == Text::contents(lines@),
                texts == Text::lines(membership@),
                prefix@ == "0::"@,
                Self::first_beginning(texts, prefix@) == Self::first_beginning(
                    texts.skip(i as int),
                    prefix@,
                ),
            decreases lines@.len() - i,
        {
            assert(texts[i as int] == lines@[i as int]@);
            assert(texts.skip(i as int)[0] == lines@[i as int]@);
            if Text::starts_with(lines[i].as_slice(), prefix.as_slice()) {
                proof {
                    reveal_strlit("0::");
                }
                let line: &[char] = lines[i].as_slice();
                let rest: &[char] = slice_subrange(line, 3, line.len());
                assert(rest@ =~= line@.skip(3));
                let name: String = Text::string(Text::trim(rest));
                return Some(
                    CgroupManager {
                        dir: String::from_str("/sys/fs/cgroup").concat(name.as_str()),
                    },
                );
            }
            assert(texts.skip(i as int).skip(1) =~= texts.skip(i + 1));
            i = i + 1;
        }
        assert(texts.skip(i as int) =~= Seq::<Seq<char>>::empty());
        None
    }

    /// The path of a file of the group itself.
    pub fn file(&self, name: &str) -> (r: String)
        ensures
            r@ == Text::joined(self.dir@, name@),
    {
        Text::join(self.dir.as_str(), name)
    }

    /// The directory of a worker's sub-group.
    pub fn worker_dir(&self, port: u16) -> (r: String)
        ensures
            r@ == Text::joined(self.dir@, Self::worker_name(port)),
    {
        let name: String = String::from_str("worker-").concat(
            Text::to_decimal(port as u64).as_str(),
        );
        Text::join(self.dir.as_str(), name.as_str())
    }

    /// The path of a file of a worker's sub-group.
    pub fn worker_file(&self, port: u16, name: &str) -> (r: String)
        ensures
            r@ == Text::joined(Text::joined(self.dir@, Self::worker_name(port)), name@),
    {
        let dir: String = self.worker_dir(port);
        Text::join(dir.as_str(), name)
    }

    /// What the file `cpu.max` is to hold: the quota and the period.
    pub fn cpu_max(cpu_per_replica: Double) -> (r: String)
        ensures
            r@ == Text::decimal(Self::quota(cpu_per_replica)) + " 100000"@,
    {
        let wanted: u64 = cpu_per_replica.mul(Double::from_u32(100_000)).round_to_u64();
        let quota: u64 = if wanted < 10_000 {
            10_000
        } else {
            wanted
        };
        Text::to_decimal(quota).concat(" 100000")
    }
}

/// How a worker is to be started.
#[derive(Clone, Copy, Debug, PartialEq, Eq, Structural)]
pub struct Launch {
    pub port: u16,
    pub max_concurrency: usize,
    pub worker_threads: usize,
}

impl Launch {
    /// The arguments of the worker's command line. The factors come as text.
    pub fn args(&self, cpu_factor: &str, mem_factor: &str) -> (r: Vec<String>)
        ensures
            Text::texts(r@) == seq![
                "service"@,
                "--port"@,
                Text::decimal(self.port as nat),
                "--cpu-factor"@,
                cpu_factor@,
                "--mem-factor"@,
                mem_factor@,
                "--max-concurrency"@,
                Text::decimal(self.max_concurrency as nat),
                "--worker-threads"@,
                Text::decimal(self.worker_threads as nat),
            ],
    {
        let r: Vec<String> = vec![
            String::from_str("service"),
            String::from_str("--port"),
            Text::to_decimal(self.port as u64),
            String::from_str("--cpu-factor"),
            String::from_str(cpu_factor),
            String::from_str("--mem-factor"),
            String::from_str(mem_factor),
            String::from_str("--max-concurrency"),
            Text::to_decimal(self.max_concurrency as u64),
            String::from_str("--worker-threads"),
            Text::to_decimal(self.worker_threads as u64),
        ];
        assert(Text::texts(r@) =~= seq![
            "service"@,
            "--port"@,
            Text::decimal(self.port as nat),
            "--cpu-factor"@,
            cpu_factor@,
            "--mem-factor"@,
            mem_factor@,
            "--max-concurrency"@,
            Text::decimal(self.max_concurrency as nat),
            "--worker-threads"@,
            Text::decimal(self.worker_threads as nat),
        ]);
        r
    }
}

/// The next thing to do so that the right number of workers runs.
#[derive(Clone, Copy, Debug, PartialEq, Eq, Structural)]
pub enum Step {
    /// As many run as should.
    Done,
    /// One more is to be started.
    Start(Launch),
    /// The last one is to be stopped.
    Stop(Worker),
}

/// What a new target means for the workers that run.
#[derive(Clone, Debug)]
pub enum Adjustment {
    /// They go on as they are.
    Keep,
    /// Their CPU quotas are to be rewritten.
    Quota { ports: Vec<u16> },
    /// They are to be stopped, in this order, and others started in their place.
    Restart { ports: Vec<u16> },
}

/// The workers of an autoscaled service, and how they are run.
#[derive(Clone, Debug)]
pub struct Executor {
    pub workers: Vec<Worker>,
    pub base_port: u16,
    /// How heavy a request is for a worker.
    pub cpu_factor: Double,
    pub mem_factor: Double,
    /// The vertical scale.
    pub cpu_per_replica: Double,
    /// The slots of each worker: its vertical scale, unless there are quotas.
    pub max_concurrency: usize,
    /// The control group, if the workers are limited by quotas.
    pub cgroup: Option<CgroupManager>,
}

impl Executor {
    /// Four slots for each CPU, one at least.
    pub open spec fn slots(cpu_per_replica: Double) -> nat {
        let wanted = cpu_per_replica@.times(Number::integer(4)).rounded(usize::MAX as nat);
        if wanted < 1 {
            1
        } else {
            wanted
        }
    }

    /// A thread for each CPU begun: one at least, and no more than there are slots.
    pub open spec fn threads(self) -> nat {
        let wanted = self.cpu_per_replica@.ceiling(usize::MAX as nat);
        let needed = if wanted < 1 {
            1
        } else {
            wanted
        };
        if needed > self.max_concurrency {
            self.max_concurrency as nat
        } else {
            needed
        }
    }

    /// The port of the worker at an index.
    pub open spec fn port_at(self, index: int) -> int {
        self.base_port + index % 0x1_0000
    }

    /// Each worker has the port of its index.
    pub open spec fn wf(self) -> bool {
        forall|i: int|
            0 <= i < self.workers@.len() ==> (#[trigger] self.workers@[i]).port == self.port_at(i)
    }

    /// Is there a port for one more worker?
    pub open spec fn has_room(self) -> bool {
        self.port_at(self.workers@.len() as int) <= u16::MAX
    }

    pub open spec fn url_of(worker: Worker) -> Seq<char> {
        "http://127.0.0.1:"@ + Text::decimal(worker.port as nat)
    }

    /// The URLs of the workers.
    pub open spec fn urls(self) -> Seq<Seq<char>> {
        self.workers@.map_values(|worker: Worker| Self::url_of(worker))
    }

    /// Is everything but the workers as it was?
    pub open spec fn same_settings(self, before: Executor) -> bool {
        self == (Executor { workers: self.workers, ..before })
    }

    /// The slots that stand for a number of CPUs.
    fn cpu_to_concurrency(cpu_per_replica: Double) -> (r: usize)
        ensures
            r == Self::slots(cpu_per_replica),
    {
        let wanted: usize = cpu_per_replica.mul(Double::from_u32(4)).round_to_usize();
        if wanted < 1 {
            1
        } else {
            wanted
        }
    }

    /// No workers yet. With a control group, they will be limited by CPU quotas; without, by
    /// their slots.
    pub fn new(
        base_port: u16,
        cpu_factor: Double,
        mem_factor: Double,
        initial_cpu_per_replica: Double,
        cgroup: Option<CgroupManager>,
    ) -> (r: Self)
        ensures
            r.wf(),
            r.workers@.len() == 0,
            r.base_port == base_port,
            r.cpu_factor == cpu_factor,
            r.mem_factor == mem_factor,
            r.cpu_per_replica == initial_cpu_per_replica,
            r.max_concurrency == (if cgroup is Some {
                QUOTA_CONCURRENCY as nat
            } else {
                Self::slots(initial_cpu_per_replica)
            }),
            r.cgroup == cgroup,
    {
        let max_concurrency: usize = match &cgroup {
            Some(_) => QUOTA_CONCURRENCY,
            None => Self::cpu_to_concurrency(initial_cpu_per_replica),
        };
        Executor {
            workers: Vec::new(),
            base_port,
            cpu_factor,
            mem_factor,
            cpu_per_replica: initial_cpu_per_replica,
            max_concurrency,
            cgroup,
        }
    }

    pub fn worker_count(&self) -> (r: usize)
        ensures
            r == self.workers@.len(),
    {
        self.workers.len()
    }

    /// The URLs of the workers, in their order.
    pub fn worker_urls(&self) -> (r: Vec<String>)
        ensures
            Text::texts(r@) == self.urls(),
    {
        let mut r: Vec<String> = Vec::new();
        let mut i: usize = 0;
        while i < self.workers.len()
            invariant
                i <= self.workers@.len(),
                Text::texts(r@) == self.urls().take(i as int),
            decreases self.workers@.len() - i,
        {
            let ghost before = r@;
            let url: String = String::from_str("http://127.0.0.1:").concat(
                Text::to_decimal(self.workers[i].port as u64).as_str(),
            );
            r.push(url);
            assert(Text::texts(r@) =~= Text::texts(before).push(url@));
            assert(self.urls().take(i + 1) =~= self.urls().take(i as int).push(
                self.urls()[i as int],
            ));
            i = i + 1;
        }
        assert(self.urls().take(i as int) =~= self.urls());
        r
    }

    /// The port and the vertical scale of each worker.
    pub fn worker_states(&self) -> (r: Vec<(u16, Double)>)
        ensures
            r@ == self.workers@.map_values(|worker: Worker| (worker.port, self.cpu_per_replica)),
    {
        let mut r: Vec<(u16, Double)> = Vec::new();
        let mut i: usize = 0;
        while i < self.workers.len()
            invariant
                i <= self.workers@.len(),
                r@.len() == i,
                forall|j: int|
                    0 <= j < i ==> #[trigger] r@[j] == (
                        self.workers@[j].port,
                        self.cpu_per_replica,
                    ),
            decreases self.workers@.len() - i,
        {
            r.push((self.workers[i].port, self.cpu_per_replica));
            i = i + 1;
        }
        assert(r@ =~= self.workers@.map_values(
            |worker: Worker| (worker.port, self.cpu_per_replica),
        ));
        r
    }

    /// Makes the pool that of the workers that run.
    pub fn sync_backends(&self, pool: &mut BackendPool)
        requires
            old(pool).wf(),
            old(pool).next_ticket + old(pool).newcomers(self.urls()) <= u64::MAX,
        ensures
            final(pool).synced(*old(pool), self.urls()),
    {
        let urls: Vec<String> = self.worker_urls();
        assert(urls@.len() == Text::texts(urls@).len());
        pool.sync_backends(&urls);
    }

    /// Is there a port for one more worker?
    pub fn can_start(&self) -> (r: bool)
        ensures
            r == self.has_room(),
    {
        let index: u16 = (self.workers.len() % 0x1_0000) as u16;
        index <= u16::MAX - self.base_port
    }

    /// Says what to do next so that exactly `target` workers run.
    pub fn ensure_workers(&self, target: usize) -> (r: Step)
        requires
            self.workers@.len() < target ==> self.has_room(),
        ensures
            if self.workers@.len() < target {
                r matches Step::Start(launch) && launch.port == self.port_at(
                    self.workers@.len() as int,
                ) && launch.max_concurrency == self.max_concurrency && launch.worker_threads
                    == self.threads()
            } else if self.workers@.len() > target {
                r == Step::Stop(self.workers@.last())
            } else {
                r is Done
            },
    {
        let count: usize = self.workers.len();
        if count < target {
            let wanted: usize = self.cpu_per_replica.ceil_to_usize();
            let needed: usize = if wanted < 1 {
                1
            } else {
                wanted
            };
            let worker_threads: usize = if needed > self.max_concurrency {
                self.max_concurrency
            } else {
                needed
            };
            let port: u16 = self.base_port + (count % 0x1_0000) as u16;
            Step::Start(Launch { port, max_concurrency: self.max_concurrency, worker_threads })
        } else if count > target {
            Step::Stop(self.workers[count - 1])
        } else {
            Step::Done
        }
    }

    /// The next worker has been started: the pool gets to know it.
    pub fn worker_started(&mut self, pool: &mut BackendPool)
        requires
            old(self).wf(),
            old(self).has_room(),
            old(pool).wf(),
            old(pool).next_ticket + old(self).workers@.len() + 1 <= u64::MAX,
        ensures
            final(self).wf(),
            final(self).same_settings(*old(self)),
            final(self).workers@.len() == old(self).workers@.len() + 1,
            final(self).workers@.drop_last() == old(self).workers@,
            final(self).workers@.last().port == old(self).port_at(old(self).workers@.len() as int),
            final(pool).synced(*old(pool), final(self).urls()),
            final(pool).next_ticket <= old(pool).next_ticket + final(self).workers@.len(),
    {
        let port: u16 = self.base_port + (self.workers.len() % 0x1_0000) as u16;
        self.workers.push(Worker { port });
        assert(self.workers@.drop_last() =~= old(self).workers@);
        proof {
            crate::http::proxy::lemma_newcomers(*old(pool), self.urls(), 0);
            assert(self.urls().len() == self.workers@.len());
        }
        self.sync_backends(pool);
    }

    /// The last worker is gone: the pool forgets it.
    pub fn worker_stopped(&mut self, pool: &mut BackendPool)
        requires
            old(self).wf(),
            old(self).workers@.len() > 0,
            old(pool).wf(),
            old(pool).next_ticket + old(self).workers@.len() <= u64::MAX,
        ensures
            final(self).wf(),
            final(self).same_settings(*old(self)),
            final(self).workers@ == old(self).workers@.drop_last(),
            final(pool).synced(*old(pool), final(self).urls()),
            final(pool).next_ticket <= old(pool).next_ticket + final(self).workers@.len(),
    {
        let _ = self.workers.pop();
        assert(self.workers@ =~= old(self).workers@.drop_last());
        proof {
            crate::http::proxy::lemma_newcomers(*old(pool), self.urls(), 0);
            assert(self.urls().len() == self.workers@.len());
        }
        self.sync_backends(pool);
    }

    /// Forgets all workers, and returns their ports, that of the last one first.
    pub fn shut_down(&mut self) -> (r: Vec<u16>)
        ensures
            final(self).workers@.len() == 0,
            final(self).same_settings(*old(self)),
            r@ == old(self).workers@.reverse().map_values(|worker: Worker| worker.port),
    {
        let ghost all = old(self).workers@;
        let mut r: Vec<u16> = Vec::new();
        while self.workers.len() > 0
            invariant
                all == old(self).workers@,
                self.same_settings(*old(self)),
                self.workers@.len() + r@.len() == all.len(),
                self.workers@ == all.take(self.workers@.len() as int),
                forall|i: int| 0 <= i < r@.len() ==> #[trigger] r@[i] == all[all.len() - 1 - i].port,
            decreases self.workers@.len(),
        {
            let last: usize = self.workers.len() - 1;
            r.push(self.workers[last].port);
            let _ = self.workers.pop();
            assert(self.workers@ =~= all.take(self.workers@.len() as int));
        }
        assert(r@ =~= all.reverse().map_values(|worker: Worker| worker.port));
        r
    }

    /// Takes over a new target. Says what the new vertical scale means for the workers that run,
    /// and how many workers are to be ensured then.
    ///
    /// With a control group the kernel applies a new quota at once. Without, a worker has to be
    /// restarted for its slots to change.
    pub fn apply_target(
        &mut self,
        target_replicas: u32,
        cpu_per_replica: Double,
        _mem_per_replica: Double,
        pool: &mut BackendPool,
    ) -> (r: (Adjustment, usize))
        requires
            old(self).wf(),
            old(pool).wf(),
        ensures
            final(self).wf(),
            final(self).cpu_per_replica == cpu_per_replica,
            final(pool).wf(),
            r.1 == target_replicas,
            if !TargetState::apart(cpu_per_replica, old(self).cpu_per_replica) {
                &&& r.0 is Keep
                &&& *final(self) == (Executor { cpu_per_replica, ..*old(self) })
                &&& *final(pool) == *old(pool)
            } else if old(self).cgroup is Some {
                &&& r.0 matches Adjustment::Quota { ports }
                &&& ports@ == old(self).workers@.map_values(|worker: Worker| worker.port)
                &&& *final(self) == (Executor { cpu_per_replica, ..*old(self) })
                &&& *final(pool) == *old(pool)
            } else {
                &&& r.0 matches Adjustment::Restart { ports }
                &&& ports@ == old(self).workers@.reverse().map_values(
                    |worker: Worker| worker.port,
                )
                &&& final(self).workers@.len() == 0
                &&& final(self).max_concurrency == Self::slots(cpu_per_replica)
                &&& *final(self) == (Executor {
                    workers: final(self).workers,
                    max_concurrency: final(self).max_concurrency,
                    cpu_per_replica,
                    ..*old(self)
                })
                &&& final(pool)@.len() == 0
                &&& final(pool).next_ticket == old(pool).next_ticket
            },
    {
        let changed: bool = TargetState::is_apart(cpu_per_replica, self.cpu_per_replica);
        self.cpu_per_replica = cpu_per_replica;
        if !changed {
            return (Adjustment::Keep, target_replicas as usize);
        }
        if self.cgroup.is_some() {
            let mut ports: Vec<u16> = Vec::new();
            let mut i: usize = 0;
            while i < self.workers.len()
                invariant
                    i <= self.workers@.len(),
                    ports@.len() == i,
                    forall|j: int| 0 <= j < i ==> #[trigger] ports@[j] == self.workers@[j].port,
                decreases self.workers@.len() - i,
            {
                ports.push(self.workers[i].port);
                i = i + 1;
            }
            assert(ports@ =~= old(self).workers@.map_values(|worker: Worker| worker.port));
            return (Adjustment::Quota { ports }, target_replicas as usize);
        }
        let ports: Vec<u16> = self.shut_down();
        self.max_concurrency = Self::cpu_to_concurrency(cpu_per_replica);
        assert(self.urls() =~= Seq::<Seq<char>>::empty());
        self.sync_backends(pool);
        proof {
            assert(pool.urls().len() == pool@.len());
        }
        (Adjustment::Restart { ports }, target_replicas as usize)
    }

    /// How many workers there are after one step towards a target.
    pub open spec fn next_count(count: nat, target: nat) -> nat {
        if count < target {
            count + 1
        } else if count > target {
            (count - 1) as nat
        } else {
            count
        }
    }

    /// How many workers there are after some steps towards a target.
    pub open spec fn count_after(count: nat, target: nat, steps: nat) -> nat
        decreases steps,
    {
        if steps == 0 {
            count
        } else {
            Self::count_after(Self::next_count(count, target), target, (steps - 1) as nat)
        }
    }
}

/// Doing what `ensure_workers` says ends with exactly the workers asked for, after as many steps
/// as there were too many or too few.
pub proof fn law_steps_reach_target(count: nat, target: nat)
    ensures
        Executor::count_after(
            count,
            target,
            if count < target {
                (target - count) as nat
            } else {
                (count - target) as nat
            },
        ) == target,
        Executor::next_count(target, target) == target,
    decreases
            if count < target {
                target - count
            } else {
                count - target
            },
{
    if count != target {
        law_steps_reach_target(Executor::next_count(count, target), target);
    }
}

/// Workers with ports of their own have URLs of their own.
proof fn lemma_urls_differ(executor: Executor)
    requires
        forall|i: int, j: int|
            0 <= i < j < executor.workers@.len() ==> (#[trigger] executor.workers@[i]).port != (
            #[trigger] executor.workers@[j]).port,
    ensures
        BackendPool::distinct(executor.urls()) == executor.urls(),
{
    let urls = executor.urls();
    assert forall|i: int, j: int| 0 <= i < j < urls.len() implies urls[i] != urls[j] by {
        assert(executor.workers@[i].port != executor.workers@[j].port);
        let a = executor.workers@[i].port as nat;
        let b = executor.workers@[j].port as nat;
        let start = "http://127.0.0.1:"@;
        if urls[i] == urls[j] {
            assert(urls[i].skip(start.len() as int) =~= Text::decimal(a));
            assert(urls[j].skip(start.len() as int) =~= Text::decimal(b));
            crate::text::lemma_decimal(a);
            crate::text::lemma_decimal(b);
        }
    }
    crate::http::proxy::lemma_distinct(urls);
}

/// Where no two workers share a port, the pool is made that of the workers, in their order and each
/// once. Those that were in it keep their connections, the others have none, and doing it again
/// changes nothing.
pub proof fn law_pool_follows_workers(
    executor: Executor,
    before: BackendPool,
    after: BackendPool,
    again: BackendPool,
)
    requires
        forall|i: int, j: int|
            0 <= i < j < executor.workers@.len() ==> (#[trigger] executor.workers@[i]).port != (
            #[trigger] executor.workers@[j]).port,
        after.synced(before, executor.urls()),
        again.synced(after, executor.urls()),
    ensures
        after.urls() == executor.urls(),
        forall|i: int|
            0 <= i < after@.len() ==> if before.has_url((#[trigger] after@[i]).url) {
                before.has(after@[i])
            } else {
                after@[i].in_flight == 0
            },
        again@ == after@,
        again.next_ticket == after.next_ticket,
{
    lemma_urls_differ(executor);
    crate::http::proxy::law_second_sync_changes_nothing(executor.urls(), before, after, again);
}

/// No two workers share a URL, so the pool has an entry for each.
pub proof fn law_each_worker_has_its_backend(executor: Executor)
    requires
        executor.wf(),
        executor.workers@.len() <= 0x1_0000,
    ensures
        BackendPool::distinct(executor.urls()) == executor.urls(),
{
    lemma_urls_differ(executor);
}

/// A worker has one thread at least, if it has slots, and never more threads than slots.
pub proof fn law_threads_within_slots(executor: Executor)
    ensures
        executor.threads() <= executor.max_concurrency,
        executor.max_concurrency > 0 ==> executor.threads() > 0,
{
}

} // verus!
