use vstd::prelude::*;

use crate::double::{Double, Number};
use crate::http::proxy::BackendPool;
use crate::shared::types::TargetState;
use crate::text::Text;

verus! {

/// The port that a worker listens on inside its container.
pub const WORKER_PORT: u16 = 8080;

/// How often the host's port of a container is asked for.
pub const PORT_ATTEMPTS: u64 = 8;

/// Identifies a running worker container.
#[derive(Clone, Debug)]
pub struct DockerWorkerInfo {
    /// Container name, such as `autoscaler-worker-0`.
    pub name: String,
    /// Full URL that is reachable from the host, such as `http://127.0.0.1:49234`.
    pub url: String,
}

impl DockerWorkerInfo {
    pub fn url(&self) -> (r: String)
        ensures
            r@ == self.url@,
    {
        self.url.clone()
    }
}

/// A worker's identity and its vertical scale.
#[derive(Clone, Debug)]
pub struct WorkerState {
    pub name: String,
    pub url: String,
    pub cpu_quota: Double,
}

/// How a container is to be started.
#[derive(Clone, Debug)]
pub struct ContainerLaunch {
    pub name: String,
    pub worker_threads: usize,
}

/// The next thing to do so that the right number of containers runs.
#[derive(Clone, Debug)]
pub enum ContainerStep {
    /// As many run as should.
    Done,
    /// One more is to be started.
    Start(ContainerLaunch),
    /// The last one is to be stopped.
    Stop(String),
}

/// The worker containers of an autoscaled service.
///
/// Horizontal scaling starts and stops containers. Vertical scaling changes their CPU quotas in
/// place.
#[derive(Clone, Debug)]
pub struct DockerExecutor {
    pub workers: Vec<DockerWorkerInfo>,
    pub image: String,
    /// How heavy a request is for a worker.
    pub cpu_factor: Double,
    pub mem_factor: Double,
    /// The vertical scale.
    pub cpu_per_replica: Double,
}

impl DockerExecutor {
    /// The name of the container at an index.
    pub open spec fn name_at(index: nat) -> Seq<char> {
        "autoscaler-worker-"@ + Text::decimal(index)
    }

    /// Each container has the name of its index.
    pub open spec fn wf(self) -> bool {
        forall|i: int|
            0 <= i < self.workers@.len() ==> (#[trigger] self.workers@[i]).name@ == Self::name_at(
                i as nat,
            )
    }

    pub open spec fn names(self) -> Seq<Seq<char>> {
        self.workers@.map_values(|worker: DockerWorkerInfo| worker.name@)
    }

    pub open spec fn urls(self) -> Seq<Seq<char>> {
        self.workers@.map_values(|worker: DockerWorkerInfo| worker.url@)
    }

    /// Is everything but the workers as it was?
    pub open spec fn same_settings(self, before: DockerExecutor) -> bool {
        self == (DockerExecutor { workers: self.workers, ..before })
    }

    /// A thread for each CPU begun, one at least.
    pub open spec fn threads(self) -> nat {
        let wanted = self.cpu_per_replica@.ceiling(usize::MAX as nat);
        if wanted < 1 {
            1
        } else {
            wanted
        }
    }

    /// No containers yet.
    pub fn new(
        image: &str,
        cpu_factor: Double,
        mem_factor: Double,
        initial_cpu_per_replica: Double,
    ) -> (r: Self)
        ensures
            r.wf(),
            r.workers@.len() == 0,
            r.image@ == image@,
            r.cpu_factor == cpu_factor,
            r.mem_factor == mem_factor,
            r.cpu_per_replica == initial_cpu_per_replica,
    {
        DockerExecutor {
            workers: Vec::new(),
            image: String::from_str(image),
            cpu_factor,
            mem_factor,
            cpu_per_replica: initial_cpu_per_replica,
        }
    }

    /// The containers, with their vertical scale.
    pub fn worker_states(&self) -> (r: Vec<WorkerState>)
        ensures
            r@.len() == self.workers@.len(),
            forall|i: int|
                0 <= i < r@.len() ==> {
                    &&& (#[trigger] r@[i]).name@ == self.workers@[i].name@
                    &&& r@[i].url@ == self.workers@[i].url@
                    &&& r@[i].cpu_quota == self.cpu_per_replica
                },
    {
        let mut r: Vec<WorkerState> = Vec::new();
        let mut i: usize = 0;
        while i < self.workers.len()
            invariant
                i <= self.workers@.len(),
                r@.len() == i,
                forall|j: int|
                    0 <= j < i ==> {
                        &&& (#[trigger] r@[j]).name@ == self.workers@[j].name@
                        &&& r@[j].url@ == self.workers@[j].url@
                        &&& r@[j].cpu_quota == self.cpu_per_replica
                    },
            decreases self.workers@.len() - i,
        {
            r.push(
                WorkerState {
                    name: self.workers[i].name.clone(),
                    url: self.workers[i].url(),
                    cpu_quota: self.cpu_per_replica,
                },
            );
            i = i + 1;
        }
        r
    }

    fn worker_names(&self) -> (r: Vec<String>)
        ensures
            Text::texts(r@) == self.names(),
    {
        let mut r: Vec<String> = Vec::new();
        let mut i: usize = 0;
        while i < self.workers.len()
            invariant
                i <= self.workers@.len(),
                r@.len() == i,
                forall|j: int| 0 <= j < i ==> (#[trigger] r@[j])@ == self.workers@[j].name@,
            decreases self.workers@.len() - i,
        {
            r.push(self.workers[i].name.clone());
            i = i + 1;
        }
        assert(Text::texts(r@) =~= self.names());
        r
    }

    /// Makes the pool that of the containers that run.
    pub fn sync_backends(&self, pool: &mut BackendPool)
        requires
            old(pool).wf(),
            old(pool).next_ticket + old(pool).newcomers(self.urls()) <= u64::MAX,
        ensures
            final(pool).synced(*old(pool), self.urls()),
    {
        let mut urls: Vec<String> = Vec::new();
        let mut i: usize = 0;
        while i < self.workers.len()
            invariant
                i <= self.workers@.len(),
                urls@.len() == i,
                forall|j: int| 0 <= j < i ==> (#[trigger] urls@[j])@ == self.workers@[j].url@,
            decreases self.workers@.len() - i,
        {
            urls.push(self.workers[i].url());
            i = i + 1;
        }
        assert(Text::texts(urls@) =~= self.urls());
        pool.sync_backends(&urls);
    }

    /// Takes over a new target. Says which containers are to get the new vertical scale as
    /// their quota, if it has changed, and how many containers are to be ensured then.
    pub fn apply_target(
        &mut self,
        target_replicas: u32,
        cpu_per_replica: Double,
        _mem_per_replica: Double,
    ) -> (r: (Vec<String>, usize))
        ensures
            *final(self) == (DockerExecutor { cpu_per_replica, ..*old(self) }),
            Text::texts(r.0@) == (if TargetState::apart(
                cpu_per_replica,
                old(self).cpu_per_replica,
            ) {
                old(self).names()
            } else {
                Seq::empty()
            }),
            r.1 == target_replicas,
    {
        let changed: bool = TargetState::is_apart(cpu_per_replica, self.cpu_per_replica);
        self.cpu_per_replica = cpu_per_replica;
        let names: Vec<String> = if changed {
            self.worker_names()
        } else {
            let none: Vec<String> = Vec::new();
            assert(Text::texts(none@) =~= Seq::<Seq<char>>::empty());
            none
        };
        (names, target_replicas as usize)
    }

    /// Says what to do next so that exactly `target` containers run.
    pub fn ensure_workers(&self, target: usize) -> (r: ContainerStep)
        ensures
            if self.workers@.len() < target {
                r matches ContainerStep::Start(launch) && launch.name@ == Self::name_at(
                    self.workers@.len(),
                ) && launch.worker_threads == self.threads()
            } else if self.workers@.len() > target {
                r matches ContainerStep::Stop(name) && name@ == self.workers@.last().name@
            } else {
                r is Done
            },
    {
        let count: usize = self.workers.len();
        if count < target {
            let wanted: usize = self.cpu_per_replica.ceil_to_usize();
            let worker_threads: usize = if wanted < 1 {
                1
            } else {
                wanted
            };
            ContainerStep::Start(ContainerLaunch { name: Self::name(count), worker_threads })
        } else if count > target {
            ContainerStep::Stop(self.workers[count - 1].name.clone())
        } else {
            ContainerStep::Done
        }
    }

    fn name(index: usize) -> (r: String)
        ensures
            r@ == Self::name_at(index as nat),
    {
        String::from_str("autoscaler-worker-").concat(Text::to_decimal(index as u64).as_str())
    }

    /// The next container has been started and is reached at the URL: the pool gets to know it.
    pub fn container_started(&mut self, url: String, pool: &mut BackendPool)
        requires
            old(self).wf(),
            old(pool).wf(),
            old(pool).next_ticket + old(self).workers@.len() + 1 <= u64::MAX,
        ensures
            final(self).wf(),
            final(self).same_settings(*old(self)),
            final(self).workers@.len() == old(self).workers@.len() + 1,
            final(self).workers@.drop_last() == old(self).workers@,
            final(self).workers@.last().url@ == url@,
            final(pool).synced(*old(pool), final(self).urls()),
            final(pool).next_ticket <= old(pool).next_ticket + final(self).workers@.len(),
    {
        let name: String = Self::name(self.workers.len());
        self.workers.push(DockerWorkerInfo { name, url });
        assert(self.workers@.drop_last() =~= old(self).workers@);
        proof {
            crate::http::proxy::lemma_newcomers(*old(pool), self.urls(), 0);
            assert(self.urls().len() == self.workers@.len());
        }
        self.sync_backends(pool);
    }

    /// The last container is gone: the pool forgets it.
    pub fn container_stopped(&mut self, pool: &mut BackendPool)
        requires
            old(self).wf(),
            old(self).workers@.len() > 0,
            old(pool).wf(),
            old(pool).next_ticket + old(self).workers@.len() <= u64::MAX,
        ensures
            final(self).wf(),
            final(self).same_settings(*old(self)),
            final(self).workers@ == old(self).workers@.drop_last(),
            final(pool).synced(*old(pool), final(self).urls()),
            final(pool).next_ticket <= old(pool).next_ticket + final(self).workers@.len(),
    {
        let _ = self.workers.pop();
        assert(self.workers@ =~= old(self).workers@.drop_last());
        proof {
            crate::http::proxy::lemma_newcomers(*old(pool), self.urls(), 0);
            assert(self.urls().len() == self.workers@.len());
        }
        self.sync_backends(pool);
    }

    /// Forgets all containers, and returns their names, that of the last one first.
    pub fn shut_down(&mut self) -> (r: Vec<String>)
        ensures
            final(self).workers@.len() == 0,
            final(self).same_settings(*old(self)),
            Text::texts(r@) == old(self).names().reverse(),
    {
        let ghost all = old(self).workers@;
        let mut r: Vec<String> = Vec::new();
        while self.workers.len() > 0
            invariant
                all == old(self).workers@,
                self.same_settings(*old(self)),
                self.workers@.len() + r@.len() == all.len(),
                self.workers@ == all.take(self.workers@.len() as int),
                forall|i: int|
                    0 <= i < r@.len() ==> (#[trigger] r@[i])@ == all[all.len() - 1 - i].name@,
            decreases self.workers@.len(),
        {
            let last: usize = self.workers.len() - 1;
            r.push(self.workers[last].name.clone());
            let _ = self.workers.pop();
            assert(self.workers@ =~= all.take(self.workers@.len() as int));
        }
        assert(Text::texts(r@) =~= old(self).names().reverse());
        r
    }
}

/// What `String::from_utf8_lossy` makes of bytes that are not UTF-8.
pub uninterp spec fn lossy_text(bytes: Seq<u8>) -> Seq<char>;

/// `String::from_utf8_lossy` gives the text of bytes that are valid UTF-8. Of other bytes the
/// result, with replacement characters in it, is named, not described.
#[verifier::external_body]
fn decode(bytes: &[u8]) -> (r: String)
    ensures
        r@ == (if vstd::utf8::valid_utf8(bytes@) {
            vstd::utf8::decode_utf8(bytes@)
        } else {
            lossy_text(bytes@)
        }),
{
    String::from_utf8_lossy(bytes).into_owned()
}

/// The command lines of the Docker client, and what it answers.
pub struct Docker;

impl Docker {
    /// What the client has written, as text.
    pub open spec fn text_of(output: Seq<u8>) -> Seq<char> {
        if vstd::utf8::valid_utf8(output) {
            vstd::utf8::decode_utf8(output)
        } else {
            lossy_text(output)
        }
    }

    /// What is told of a command that failed: what it was, and what the client has written to its
    /// standard error.
    pub fn failure(what: &str, stderr: &[u8]) -> (r: String)
        ensures
            r@ == what@ + ": "@ + Self::text_of(stderr@),
    {
        String::from_str(what).concat(": ").concat(decode(stderr).as_str())
    }

    /// Removes the containers that an earlier run has left, given what the client has written
    /// when they were listed.
    pub fn remove_listed(output: &[u8]) -> (r: Option<Vec<String>>)
        ensures
            match r {
                Some(args) => {
                    &&& Text::words(Self::text_of(output@)).len() > 0
                    &&& Text::texts(args@) == seq!["rm"@, "-f"@] + Text::words(
                        Self::text_of(output@),
                    )
                },
                None => Text::words(Self::text_of(output@)).len() == 0,
            },
    {
        Self::remove_stale(decode(output).as_str())
    }

    /// Looks up the network of the workers.
    pub fn inspect_network() -> (r: Vec<String>)
        ensures
            Text::texts(r@) == seq!["network"@, "inspect"@, "autoscaler-net"@],
    {
        let r: Vec<String> = Text::list(vec!["network", "inspect", "autoscaler-net"]);
        assert(Text::texts(r@) =~= seq!["network"@, "inspect"@, "autoscaler-net"@]);
        r
    }

    /// Creates the network of the workers.
    pub fn create_network() -> (r: Vec<String>)
        ensures
            Text::texts(r@) == seq![
                "network"@,
                "create"@,
                "--driver"@,
                "bridge"@,
                "autoscaler-net"@,
            ],
    {
        let r: Vec<String> = Text::list(
            vec!["network", "create", "--driver", "bridge", "autoscaler-net"],
        );
        assert(Text::texts(r@) =~= seq![
            "network"@,
            "create"@,
            "--driver"@,
            "bridge"@,
            "autoscaler-net"@,
        ]);
        r
    }

    /// Lists the containers that an earlier run has left.
    pub fn list_stale() -> (r: Vec<String>)
        ensures
            Text::texts(r@) == seq!["ps"@, "-a"@, "-q"@, "--filter"@, "name=autoscaler-worker"@],
    {
        let r: Vec<String> = Text::list(
            vec!["ps", "-a", "-q", "--filter", "name=autoscaler-worker"],
        );
        assert(Text::texts(r@) =~= seq![
            "ps"@,
            "-a"@,
            "-q"@,
            "--filter"@,
            "name=autoscaler-worker"@,
        ]);
        r
    }

    /// Removes the containers that an earlier run has left, given the list of their ids. There
    /// is nothing to do where the list is empty.
    pub fn remove_stale(listed: &str) -> (r: Option<Vec<String>>)
        ensures
            match r {
                Some(args) => {
                    &&& Text::words(listed@).len() > 0
                    &&& Text::texts(args@) == seq!["rm"@, "-f"@] + Text::words(listed@)
                },
                None => Text::words(listed@).len() == 0,
            },
    {
        let chars: Vec<char> = Text::chars(listed);
        let ids: Vec<Vec<char>> = Text::split_words(chars.as_slice());
        let ghost words = Text::contents(ids@);
        assert(words.len() == ids@.len());
        if ids.len() == 0 {
            return None;
        }
        let mut r: Vec<String> = Text::list(vec!["rm", "-f"]);
        let mut i: usize = 0;
        assert(Text::texts(r@) =~= seq!["rm"@, "-f"@] + words.take(0));
        while i < ids.len()
            invariant
                i <= ids@.len(),
                words == Text::contents(ids@),
                Text::texts(r@) == seq!["rm"@, "-f"@] + words.take(i as int),
            decreases ids@.len() - i,
        {
            let ghost before = r@;
            let id: String = Text::string(ids[i].as_slice());
            r.push(id);
            proof {
                assert(Text::texts(r@) =~= Text::texts(before).push(id@));
                assert(words.take(i + 1) =~= words.take(i as int).push(words[i as int]));
                assert(Text::texts(r@) =~= seq!["rm"@, "-f"@] + words.take(i + 1));
            }
            i = i + 1;
        }
        assert(words.take(i as int) =~= words);
        Some(r)
    }

    /// Removes a container of the same name, before a new one is started.
    pub fn remove_old(name: &str) -> (r: Vec<String>)
        ensures
            Text::texts(r@) == seq!["rm"@, "-f"@, name@],
    {
        let r: Vec<String> = Text::list(vec!["rm", "-f", name]);
        assert(Text::texts(r@) =~= seq!["rm"@, "-f"@, name@]);
        r
    }

    /// The memory of a container in megabytes: 512, times the memory factor, and 128 at least.
    pub open spec fn memory_mb(mem_factor: Double) -> nat {
        let wanted = Number::integer(512).times(mem_factor@).rounded(u64::MAX as nat);
        if wanted < 128 {
            128
        } else {
            wanted
        }
    }

    /// The memory of a container, as an argument.
    pub fn memory(mem_factor: Double) -> (r: String)
        ensures
            r@ == Text::decimal(Self::memory_mb(mem_factor)) + "m"@,
    {
        let wanted: u64 = Double::from_u32(512).mul(mem_factor).round_to_u64();
        let mem_mb: u64 = if wanted < 128 {
            128
        } else {
            wanted
        };
        Text::to_decimal(mem_mb).concat("m")
    }

    /// The command line that starts a container: what Docker is told, then the worker's own.
    pub open spec fn run_line(
        name: Seq<char>,
        image: Seq<char>,
        cpus: Seq<char>,
        memory: Seq<char>,
        cpu_factor: Seq<char>,
        mem_factor: Seq<char>,
        worker_threads: nat,
    ) -> Seq<Seq<char>> {
        seq![
            "run"@,
            "-d"@,
            "--name"@,
            name,
            "--network"@,
            "autoscaler-net"@,
            "--publish"@,
            "0:8080"@,
            "--cpus"@,
            cpus,
            "--memory"@,
            memory,
            "--memory-swap"@,
            memory,
            "--restart"@,
            "no"@,
            image,
            "service"@,
            "--port"@,
            Text::decimal(WORKER_PORT as nat),
            "--bind-addr"@,
            "0.0.0.0"@,
            "--cpu-factor"@,
            cpu_factor,
            "--mem-factor"@,
            mem_factor,
            "--max-concurrency"@,
            "32"@,
            "--worker-threads"@,
            Text::decimal(worker_threads),
        ]
    }

    /// Starts a container. The host picks the port under which it is reached. The factors and
    /// the number of CPUs come as text too.
    pub fn run(
        launch: &ContainerLaunch,
        image: &str,
        mem_factor: Double,
        cpus_text: &str,
        cpu_factor_text: &str,
        mem_factor_text: &str,
    ) -> (r: Vec<String>)
        ensures
            Text::texts(r@) == Self::run_line(
                launch.name@,
                image@,
                cpus_text@,
                Text::decimal(Self::memory_mb(mem_factor)) + "m"@,
                cpu_factor_text@,
                mem_factor_text@,
                launch.worker_threads as nat,
            ),
    {
        let memory: String = Self::memory(mem_factor);
        let port: String = Text::to_decimal(WORKER_PORT as u64);
        let threads: String = Text::to_decimal(launch.worker_threads as u64);
        let r: Vec<String> = Text::list(
            vec![
                "run",
                "-d",
                "--name",
                launch.name.as_str(),
                "--network",
                "autoscaler-net",
                "--publish",
                "0:8080",
                "--cpus",
                cpus_text,
                "--memory",
                memory.as_str(),
                "--memory-swap",
                memory.as_str(),
                "--restart",
                "no",
                image,
                "service",
                "--port",
                port.as_str(),
                "--bind-addr",
                "0.0.0.0",
                "--cpu-factor",
                cpu_factor_text,
                "--mem-factor",
                mem_factor_text,
                "--max-concurrency",
                "32",
                "--worker-threads",
                threads.as_str(),
            ],
        );
        assert(Text::texts(r@) =~= Self::run_line(
            launch.name@,
            image@,
            cpus_text@,
            Text::decimal(Self::memory_mb(mem_factor)) + "m"@,
            cpu_factor_text@,
            mem_factor_text@,
            launch.worker_threads as nat,
        ));
        r
    }

    /// Asks for the host's port of a container.
    pub fn inspect_port(name: &str) -> (r: Vec<String>)
        ensures
            Text::texts(r@) == seq![
                "inspect"@,
                "--format"@,
                "{{(index (index .NetworkSettings.Ports \""@ + Text::decimal(WORKER_PORT as nat)
                    + "/tcp\") 0).HostPort}}"@,
                name@,
            ],
    {
        let format: String = String::from_str(
            "{{(index (index .NetworkSettings.Ports \"",
        ).concat(Text::to_decimal(WORKER_PORT as u64).as_str()).concat("/tcp\") 0).HostPort}}");
        let r: Vec<String> = Text::list(vec!["inspect", "--format", format.as_str(), name]);
        assert(Text::texts(r@) =~= seq![
            "inspect"@,
            "--format"@,
            "{{(index (index .NetworkSettings.Ports \""@ + Text::decimal(WORKER_PORT as nat)
                + "/tcp\") 0).HostPort}}"@,
            name@,
        ]);
        r
    }

    /// The URL of a container, from the answer about its port.
    pub open spec fn host_url_in(answer: Seq<char>) -> Option<Seq<char>> {
        match Text::number(Text::trimmed(answer), u16::MAX as nat) {
            Some(port) => Some("http://127.0.0.1:"@ + Text::decimal(port)),
            None => None,
        }
    }

    /// The URL of a container, from the answer about its port.
    pub fn host_url(answer: &str) -> (r: Option<String>)
        ensures
            match r {
                Some(url) => Self::host_url_in(answer@) == Some(url@),
                None => Self::host_url_in(answer@) is None,
            },
    {
        let chars: Vec<char> = Text::chars(answer);
        match Text::parse(Text::trim(chars.as_slice()), u16::MAX as u64) {
            Some(port) => Some(
                String::from_str("http://127.0.0.1:").concat(Text::to_decimal(port).as_str()),
            ),
            None => None,
        }
    }

    /// Changes the quota of a container that runs.
    pub fn update_cpus(name: &str, cpus_text: &str) -> (r: Vec<String>)
        ensures
            Text::texts(r@) == seq!["update"@, "--cpus"@, cpus_text@, name@],
    {
        let r: Vec<String> = Text::list(vec!["update", "--cpus", cpus_text, name]);
        assert(Text::texts(r@) =~= seq!["update"@, "--cpus"@, cpus_text@, name@]);
        r
    }

    /// Stops a container.
    pub fn stop(name: &str) -> (r: Vec<String>)
        ensures
            Text::texts(r@) == seq!["stop"@, "--time"@, "5"@, name@],
    {
        let r: Vec<String> = Text::list(vec!["stop", "--time", "5", name]);
        assert(Text::texts(r@) =~= seq!["stop"@, "--time"@, "5"@, name@]);
        r
    }

    /// Removes a container that has been stopped.
    pub fn remove(name: &str) -> (r: Vec<String>)
        ensures
            Text::texts(r@) == seq!["rm"@, name@],
    {
        let r: Vec<String> = Text::list(vec!["rm", name]);
        assert(Text::texts(r@) =~= seq!["rm"@, name@]);
        r
    }
}

/// What to do after asking for the host's port of a container.
#[derive(Clone, Debug)]
pub enum PortProbe {
    /// The container is reached there.
    Found(String),
    /// Wait, then ask again.
    Again { delay_ms: u64 },
    /// Wait, then give up.
    GiveUp { delay_ms: u64 },
}

impl PortProbe {
    /// What to do after an attempt, given whether the client succeeded and what it has written.
    pub fn after_output(attempt: u64, success: bool, output: &[u8]) -> (r: PortProbe)
        requires
            attempt < PORT_ATTEMPTS,
        ensures
            ({
                let url = Docker::host_url_in(Docker::text_of(output@));
                if success && url is Some {
                    r matches PortProbe::Found(found) && url == Some(found@)
                } else if attempt + 1 < PORT_ATTEMPTS {
                    r == (PortProbe::Again { delay_ms: (300 * (attempt + 1)) as u64 })
                } else {
                    r == (PortProbe::GiveUp { delay_ms: (300 * (attempt + 1)) as u64 })
                }
            }),
    {
        let answer: Option<String> = if success {
            Some(decode(output))
        } else {
            None
        };
        Self::after(attempt, answer)
    }

    /// What to do after an attempt, counted from zero. The answer is there if the client
    /// succeeded. Each wait is longer than the one before, as the port may lag the start.
    pub fn after(attempt: u64, answer: Option<String>) -> (r: PortProbe)
        requires
            attempt < PORT_ATTEMPTS,
        ensures
            if answer is Some && Docker::host_url_in(answer->0@) is Some {
                r matches PortProbe::Found(url) && Docker::host_url_in(answer->0@) == Some(url@)
            } else if attempt + 1 < PORT_ATTEMPTS {
                r == (PortProbe::Again { delay_ms: (300 * (attempt + 1)) as u64 })
            } else {
                r == (PortProbe::GiveUp { delay_ms: (300 * (attempt + 1)) as u64 })
            },
    {
        match answer {
            Some(text) => match Docker::host_url(text.as_str()) {
                Some(url) => {
                    return PortProbe::Found(url);
                },
                None => {},
            },
            None => {},
        }
        let delay_ms: u64 = 300 * (attempt + 1);
        if attempt + 1 < PORT_ATTEMPTS {
            PortProbe::Again { delay_ms }
        } else {
            PortProbe::GiveUp { delay_ms }
        }
    }
}

} // verus!
