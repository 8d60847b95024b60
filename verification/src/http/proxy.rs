use vstd::prelude::*;

use crate::text::Text;

verus! {

/// The requests that the proxy forwards at once.
pub const MAX_PROXY_CONCURRENCY: usize = 512;

/// One entry in the backend pool, with the count of its connections in flight.
///
/// The ticket tells an entry from a later one with the same URL.
#[derive(Clone, Debug)]
pub struct BackendEntry {
    pub url: String,
    pub in_flight: usize,
    pub ticket: u64,
}

/// The backends that the proxy forwards to.
#[derive(Clone, Debug)]
pub struct BackendPool {
    pub entries: Vec<BackendEntry>,
    pub next_ticket: u64,
}

/// A connection to a backend.
#[derive(Clone, Debug)]
pub struct Lease {
    pub ticket: u64,
    /// Host and port of the backend.
    pub address: String,
}

/// An entry as a value.
pub struct Backend {
    pub url: Seq<char>,
    pub in_flight: usize,
    pub ticket: u64,
}

impl View for BackendEntry {
    type V = Backend;

    open spec fn view(&self) -> Backend {
        Backend { url: self.url@, in_flight: self.in_flight, ticket: self.ticket }
    }
}

impl View for BackendPool {
    type V = Seq<Backend>;

    open spec fn view(&self) -> Seq<Backend> {
        self.entries@.map_values(|entry: BackendEntry| entry@)
    }
}

impl Backend {
    /// Host and port in a URL: what stands before the first `/`, past `http://`.
    pub open spec fn address_of(url: Seq<char>) -> Seq<char> {
        let rest = Text::without_prefixes(url, "http://"@);
        rest.take(Text::position(rest, '/') as int)
    }

    /// The entry with one connection more.
    pub open spec fn acquired(self) -> Backend {
        Backend { in_flight: self.in_flight.wrapping_add(1), ..self }
    }

    /// The entry with one connection fewer, where the ticket is its own.
    pub open spec fn released(self, ticket: u64) -> Backend {
        if self.ticket == ticket {
            Backend { in_flight: self.in_flight.wrapping_sub(1), ..self }
        } else {
            self
        }
    }
}

impl BackendPool {
    /// No URL and no ticket occurs twice, and no ticket to come is in use.
    pub open spec fn wf(self) -> bool {
        &&& forall|i: int, j: int|
            0 <= i < j < self@.len() ==> (#[trigger] self@[i]).url != (#[trigger] self@[j]).url
                && self@[i].ticket != self@[j].ticket
        &&& forall|i: int| 0 <= i < self@.len() ==> (#[trigger] self@[i]).ticket < self.next_ticket
    }

    /// The URLs that occur, each where it first does.
    pub open spec fn distinct(urls: Seq<Seq<char>>) -> Seq<Seq<char>>
        decreases urls.len(),
    {
        if urls.len() == 0 {
            Seq::empty()
        } else {
            let earlier = Self::distinct(urls.drop_last());
            if earlier.contains(urls.last()) {
                earlier
            } else {
                earlier.push(urls.last())
            }
        }
    }

    /// How many of the URLs are new to the pool, each counted once?
    pub open spec fn newcomers(self, urls: Seq<Seq<char>>) -> nat
        decreases urls.len(),
    {
        if urls.len() == 0 {
            0
        } else {
            let earlier = self.newcomers(urls.drop_last());
            if Self::distinct(urls.drop_last()).contains(urls.last()) || self.has_url(
                urls.last(),
            ) {
                earlier
            } else {
                earlier + 1
            }
        }
    }

    /// Is this what the pool `before` becomes when it is made that of the workers with the given
    /// URLs?
    pub open spec fn synced(self, before: BackendPool, urls: Seq<Seq<char>>) -> bool {
        &&& self.wf()
        &&& self.urls() == Self::distinct(urls)
        &&& self.follows(before)
        &&& self.next_ticket == before.next_ticket + before.newcomers(urls)
    }

    /// Does the pool hold the entry?
    pub open spec fn has(self, backend: Backend) -> bool {
        exists|i: int| 0 <= i < self@.len() && #[trigger] self@[i] == backend
    }

    pub open spec fn has_url(self, url: Seq<char>) -> bool {
        exists|i: int| 0 <= i < self@.len() && (#[trigger] self@[i]).url == url
    }

    /// Are the entries that were there before kept as they were, and the others new?
    pub open spec fn follows(self, before: BackendPool) -> bool {
        forall|i: int|
            0 <= i < self@.len() ==> {
                let entry = #[trigger] self@[i];
                if before.has_url(entry.url) {
                    before.has(entry)
                } else {
                    entry.in_flight == 0 && entry.ticket >= before.next_ticket
                }
            }
    }

    pub open spec fn urls(self) -> Seq<Seq<char>> {
        self@.map_values(|backend: Backend| backend.url)
    }

    /// Is `index` the first of the entries with the fewest connections?
    pub open spec fn is_least(self, index: int) -> bool {
        &&& 0 <= index < self@.len()
        &&& forall|j: int|
            0 <= j < self@.len() ==> self@[index].in_flight <= (#[trigger] self@[j]).in_flight
        &&& forall|j: int|
            0 <= j < index ==> self@[index].in_flight < (#[trigger] self@[j]).in_flight
    }

    /// Are there tickets for so many new entries?
    pub fn has_tickets(&self, count: usize) -> (r: bool)
        ensures
            r == (self.next_ticket + count <= u64::MAX),
    {
        u64::MAX - self.next_ticket >= count as u64
    }

    pub fn new() -> (r: Self)
        ensures
            r.wf(),
            r@ == Seq::<Backend>::empty(),
            r.next_ticket == 0,
    {
        let r: BackendPool = BackendPool { entries: Vec::new(), next_ticket: 0 };
        assert(r@ =~= Seq::<Backend>::empty());
        r
    }

    fn find_url(&self, url: &String) -> (r: Option<usize>)
        ensures
            match r {
                Some(i) => i < self@.len() && self@[i as int].url == url@,
                None => !self.has_url(url@),
            },
    {
        let mut i: usize = 0;
        while i < self.entries.len()
            invariant
                i <= self.entries@.len(),
                forall|j: int| 0 <= j < i ==> (#[trigger] self@[j]).url != url@,
            decreases self.entries@.len() - i,
        {
            if self.entries[i].url == *url {
                assert(self@[i as int].url == url@);
                return Some(i);
            }
            assert(self@[i as int].url != url@);
            i = i + 1;
        }
        None
    }

    /// Makes the pool that of the given workers, in their order. An entry whose worker stays is
    /// kept, with its connections; a new worker has none.
    pub fn sync_backends(&mut self, urls: &Vec<String>)
        requires
            old(self).wf(),
            old(self).next_ticket + old(self).newcomers(Text::texts(urls@)) <= u64::MAX,
        ensures
            final(self).synced(*old(self), Text::texts(urls@)),
    {
        let ghost before: BackendPool = *self;
        let ghost texts = Text::texts(urls@);
        let mut next: BackendPool = BackendPool {
            entries: Vec::new(),
            next_ticket: self.next_ticket,
        };
        let mut i: usize = 0;
        proof {
            assert(texts.take(0) =~= Seq::<Seq<char>>::empty());
            assert(next.urls() =~= Self::distinct(texts.take(0)));
        }
        while i < urls.len()
            invariant
                i <= urls@.len(),
                texts == Text::texts(urls@),
                *self == before,
                before.wf(),
                before.next_ticket + before.newcomers(texts) <= u64::MAX,
                next.wf(),
                next.next_ticket == before.next_ticket + before.newcomers(texts.take(i as int)),
                next.urls() == Self::distinct(texts.take(i as int)),
                next.follows(before),
            decreases urls@.len() - i,
        {
            let url: &String = &urls[i];
            let ghost prior: BackendPool = next;
            proof {
                assert(texts.take(i + 1).drop_last() =~= texts.take(i as int));
                assert(texts.take(i + 1).last() == url@);
                lemma_newcomers(before, texts, i + 1);
                assert forall|k: int| 0 <= k < next@.len() implies next.urls()[k]
                    == #[trigger] next@[k].url by {}
            }
            match next.find_url(url) {
                Some(k) => {
                    assert(next.urls()[k as int] == url@);
                },
                None => {
                    proof {
                        if next.urls().contains(url@) {
                            let k = choose|k: int|
                                0 <= k < next.urls().len() && next.urls()[k] == url@;
                            assert(next@[k].url == url@);
                        }
                    }
                    let entry: BackendEntry = match self.find_url(url) {
                        Some(k) => BackendEntry {
                            url: url.clone(),
                            in_flight: self.entries[k].in_flight,
                            ticket: self.entries[k].ticket,
                        },
                        None => {
                            let ticket: u64 = next.next_ticket;
                            next.next_ticket = ticket + 1;
                            BackendEntry { url: url.clone(), in_flight: 0, ticket }
                        },
                    };
                    let ghost added = entry@;
                    next.entries.push(entry);
                    proof {
                        assert(next@ =~= prior@.push(added));
                        assert(next.urls() =~= prior.urls().push(url@));
                        if before.has_url(url@) {
                            assert(before.has(added));
                        }
                        lemma_pool_grown(before, prior, next, added);
                    }
                },
            }
            i = i + 1;
        }
        assert(texts.take(i as int) =~= texts);
        *self = next;
    }

    /// Opens a connection to the backend with the fewest, the first of those where several have
    /// as few. There is none in an empty pool.
    pub fn acquire(&mut self) -> (r: Option<Lease>)
        requires
            old(self).wf(),
        ensures
            final(self).wf(),
            final(self).next_ticket == old(self).next_ticket,
            match r {
                None => old(self)@.len() == 0 && final(self)@ == old(self)@,
                Some(lease) => exists|index: int| #[trigger] old(self).is_least(index)
                    && lease.ticket == old(self)@[index].ticket && lease.address@
                    == Backend::address_of(old(self)@[index].url) && final(self)@ == old(
                    self,
                )@.update(index, old(self)@[index].acquired()),
            },
    {
        let ghost before: BackendPool = *self;
        if self.entries.len() == 0 {
            return None;
        }
        let mut least: usize = 0;
        let mut i: usize = 1;
        while i < self.entries.len()
            invariant
                *self == before,
                least < i <= self.entries@.len(),
                forall|j: int|
                    0 <= j < i ==> self@[least as int].in_flight <= (#[trigger] self@[j]).in_flight,
                forall|j: int|
                    0 <= j < least ==> self@[least as int].in_flight < (
                    #[trigger] self@[j]).in_flight,
            decreases self.entries@.len() - i,
        {
            assert(self@[i as int].in_flight == self.entries@[i as int].in_flight);
            assert(self@[least as int].in_flight == self.entries@[least as int].in_flight);
            if self.entries[i].in_flight < self.entries[least].in_flight {
                least = i;
            }
            i = i + 1;
        }
        assert(before.is_least(least as int));
        let url: String = self.entries[least].url.clone();
        let ticket: u64 = self.entries[least].ticket;
        let in_flight: usize = self.entries[least].in_flight.wrapping_add(1);
        let address: String = address(url.as_str());
        self.entries[least] = BackendEntry { url, in_flight, ticket };
        proof {
            assert(self@ =~= before@.update(least as int, before@[least as int].acquired()));
            assert(self.wf());
        }
        Some(Lease { ticket, address })
    }

    /// A connection is over. Its backend may have left the pool: then nothing changes.
    pub fn release(&mut self, ticket: u64)
        requires
            old(self).wf(),
        ensures
            final(self).wf(),
            final(self).next_ticket == old(self).next_ticket,
            final(self)@ == old(self)@.map_values(|backend: Backend| backend.released(ticket)),
    {
        let ghost before: BackendPool = *self;
        let mut i: usize = 0;
        while i < self.entries.len()
            invariant
                *self == before,
                before == *old(self),
                before.wf(),
                i <= self.entries@.len(),
                forall|j: int| 0 <= j < i ==> (#[trigger] self@[j]).ticket != ticket,
            decreases self.entries@.len() - i,
        {
            assert(self@[i as int].ticket == self.entries@[i as int].ticket);
            if self.entries[i].ticket == ticket {
                let url: String = self.entries[i].url.clone();
                let in_flight: usize = self.entries[i].in_flight.wrapping_sub(1);
                self.entries[i] = BackendEntry { url, in_flight, ticket };
                proof {
                    assert(self@ =~= before@.update(
                        i as int,
                        Backend { in_flight, ..before@[i as int] },
                    ));
                    assert forall|j: int| 0 <= j < before@.len() implies self@[j]
                        == before@[j].released(ticket) by {
                        if j < i {
                            assert(before@[j].ticket != ticket);
                        } else if j > i {
                            assert(before@[i as int].ticket != before@[j].ticket);
                        }
                    }
                    assert(self@ =~= before@.map_values(
                        |backend: Backend| backend.released(ticket),
                    ));
                    assert(self.wf());
                }
                return;
            }
            i = i + 1;
        }
        assert(self@ =~= before@.map_values(|backend: Backend| backend.released(ticket)));
    }
}

/// There are no more newcomers than URLs, and no fewer among more of them.
pub proof fn lemma_newcomers(pool: BackendPool, urls: Seq<Seq<char>>, n: int)
    requires
        0 <= n <= urls.len(),
    ensures
        pool.newcomers(urls) <= urls.len(),
        pool.newcomers(urls.take(n)) <= pool.newcomers(urls),
    decreases urls.len(),
{
    if n < urls.len() {
        assert(urls.drop_last().take(n) =~= urls.take(n));
        lemma_newcomers(pool, urls.drop_last(), n);
    } else {
        assert(urls.take(n) =~= urls);
        if n > 0 {
            lemma_newcomers(pool, urls.drop_last(), n - 1);
        }
    }
}

/// Each URL is among the distinct ones.
proof fn lemma_all_among_distinct(urls: Seq<Seq<char>>, i: int)
    requires
        0 <= i < urls.len(),
    ensures
        BackendPool::distinct(urls).contains(urls[i]),
    decreases urls.len(),
{
    let earlier = BackendPool::distinct(urls.drop_last());
    if i < urls.len() - 1 {
        lemma_all_among_distinct(urls.drop_last(), i);
        assert(earlier.contains(urls[i]));
        let k = choose|k: int| 0 <= k < earlier.len() && earlier[k] == urls[i];
        assert(BackendPool::distinct(urls)[k] == urls[i]);
    } else if !earlier.contains(urls.last()) {
        assert(BackendPool::distinct(urls)[earlier.len() as int] == urls[i]);
    }
}

/// A pool that holds all of the URLs has no newcomers among them.
proof fn lemma_no_newcomers(pool: BackendPool, urls: Seq<Seq<char>>)
    requires
        forall|i: int| 0 <= i < urls.len() ==> pool.has_url(#[trigger] urls[i]),
    ensures
        pool.newcomers(urls) == 0,
    decreases urls.len(),
{
    if urls.len() > 0 {
        assert(pool.has_url(urls[urls.len() - 1]));
        assert forall|i: int| 0 <= i < urls.drop_last().len() implies pool.has_url(
            #[trigger] urls.drop_last()[i],
        ) by {
            assert(pool.has_url(urls[i]));
        }
        lemma_no_newcomers(pool, urls.drop_last());
    }
}

/// URLs that all differ are all kept.
pub proof fn lemma_distinct(urls: Seq<Seq<char>>)
    requires
        forall|i: int, j: int| 0 <= i < j < urls.len() ==> urls[i] != urls[j],
    ensures
        BackendPool::distinct(urls) == urls,
    decreases urls.len(),
{
    if urls.len() > 0 {
        lemma_distinct(urls.drop_last());
        if urls.drop_last().contains(urls.last()) {
            let i = choose|i: int|
                0 <= i < urls.len() - 1 && urls.drop_last()[i] == urls.last();
            assert(urls[i] != urls[urls.len() - 1]);
        }
        assert(urls.drop_last().push(urls.last()) =~= urls);
    }
}

/// Adding an entry with a new URL keeps a pool well-formed.
proof fn lemma_pool_grown(before: BackendPool, prior: BackendPool, next: BackendPool, added: Backend)
    requires
        before.wf(),
        prior.wf(),
        next@ == prior@.push(added),
        !prior.has_url(added.url),
        before.next_ticket <= prior.next_ticket,
        prior.follows(before),
        if before.has_url(added.url) {
            before.has(added) && next.next_ticket == prior.next_ticket
        } else {
            added.ticket == prior.next_ticket && next.next_ticket == prior.next_ticket + 1
        },
    ensures
        next.wf(),
{
    assert forall|i: int, j: int| 0 <= i < j < next@.len() implies (#[trigger] next@[i]).url != (
    #[trigger] next@[j]).url && next@[i].ticket != next@[j].ticket by {
        if j == prior@.len() {
            assert(next@[j] == added);
            assert(next@[i] == prior@[i]);
            assert(prior@[i].url != added.url);
            if before.has_url(added.url) {
                let b = choose|b: int| 0 <= b < before@.len() && #[trigger] before@[b] == added;
                assert(before@[b].ticket < before.next_ticket);
                if before.has_url(prior@[i].url) {
                    let a = choose|a: int|
                        0 <= a < before@.len() && #[trigger] before@[a] == prior@[i];
                    assert(before@[a].url != before@[b].url);
                    assert(a != b);
                }
            } else {
                assert(prior@[i].ticket < prior.next_ticket);
            }
        } else {
            assert(next@[i] == prior@[i] && next@[j] == prior@[j]);
        }
    }
    assert forall|i: int| 0 <= i < next@.len() implies (#[trigger] next@[i]).ticket
        < next.next_ticket by {
        if i == prior@.len() {
            if before.has_url(added.url) {
                let b = choose|b: int| 0 <= b < before@.len() && #[trigger] before@[b] == added;
                assert(before@[b].ticket < before.next_ticket);
            }
        } else {
            assert(next@[i] == prior@[i]);
        }
    }
}

/// Host and port in a URL.
pub fn address(url: &str) -> (r: String)
    ensures
        r@ == Backend::address_of(url@),
{
    let chars: Vec<char> = Text::chars(url);
    let scheme: Vec<char> = Text::chars("http://");
    let rest: &[char] = Text::trim_prefixes(chars.as_slice(), scheme.as_slice());
    let end: usize = Text::find(rest, '/');
    let host: &[char] = vstd::slice::slice_subrange(rest, 0, end);
    assert(host@ =~= rest@.take(end as int));
    Text::string(host)
}

/// Limits how many requests the proxy forwards at once. It turns away what it has no permit for.
#[derive(Clone, Copy, Debug)]
pub struct Semaphore {
    permits: usize,
}

impl Semaphore {
    /// The permits that are left.
    pub closed spec fn left(self) -> nat {
        self.permits as nat
    }

    pub fn new(max: usize) -> (r: Self)
        ensures
            r.left() == max,
    {
        Semaphore { permits: max }
    }

    /// Takes a permit, if one is left.
    pub fn try_acquire(&mut self) -> (r: bool)
        ensures
            r == (old(self).left() > 0),
            final(self).left() == (if r {
                (old(self).left() - 1) as nat
            } else {
                old(self).left()
            }),
    {
        if self.permits > 0 {
            self.permits = self.permits - 1;
            true
        } else {
            false
        }
    }

    /// Gives a permit back.
    pub fn release(&mut self)
        requires
            old(self).left() < usize::MAX,
        ensures
            final(self).left() == old(self).left() + 1,
    {
        self.permits = self.permits + 1;
    }
}

/// Why the proxy answers a client itself.
#[derive(Clone, Copy, Debug, PartialEq, Eq, Structural)]
pub enum Refusal {
    /// All permits are taken.
    AtCapacity,
    /// The pool is empty.
    NoBackends,
    /// The backend cannot be reached.
    BadGateway,
}

impl Refusal {
    /// What the client is sent.
    pub fn message(self) -> (r: String)
        ensures
            r@ == (match self {
                Refusal::AtCapacity =>
                    "HTTP/1.1 503 Service Unavailable\r\nContent-Length: 17\r\nConnection: close\r\n\r\nproxy at capacity\n"@,
                Refusal::NoBackends =>
                    "HTTP/1.1 503 Service Unavailable\r\nContent-Length: 16\r\nConnection: close\r\n\r\nno backends yet\n"@,
                Refusal::BadGateway =>
                    "HTTP/1.1 502 Bad Gateway\r\nContent-Length: 12\r\nConnection: close\r\n\r\nbad gateway\n"@,
            }),
    {
        match self {
            Refusal::AtCapacity => String::from_str(
                "HTTP/1.1 503 Service Unavailable\r\nContent-Length: 17\r\nConnection: close\r\n\r\nproxy at capacity\n",
            ),
            Refusal::NoBackends => String::from_str(
                "HTTP/1.1 503 Service Unavailable\r\nContent-Length: 16\r\nConnection: close\r\n\r\nno backends yet\n",
            ),
            Refusal::BadGateway => String::from_str(
                "HTTP/1.1 502 Bad Gateway\r\nContent-Length: 12\r\nConnection: close\r\n\r\nbad gateway\n",
            ),
        }
    }
}

/// What is to be done about a client that has sent a request.
#[derive(Clone, Debug)]
pub enum Forwarding {
    /// Nothing came: the connection ends.
    Close,
    /// The client is told why not.
    Refuse(Refusal),
    /// The request goes to a backend. The connection is to be released in the end.
    Connect(Lease),
}

/// Lets a client in, or says why not.
pub fn let_in(permits: &mut Semaphore) -> (r: Option<Refusal>)
    ensures
        r == (if old(permits).left() > 0 {
            None
        } else {
            Some(Refusal::AtCapacity)
        }),
        final(permits).left() == (if old(permits).left() > 0 {
            (old(permits).left() - 1) as nat
        } else {
            0
        }),
{
    if permits.try_acquire() {
        None
    } else {
        Some(Refusal::AtCapacity)
    }
}

/// Decides where a request goes. `received` counts the bytes of it, if they could be read.
pub fn forward(pool: &mut BackendPool, received: Option<usize>) -> (r: Forwarding)
    requires
        old(pool).wf(),
    ensures
        final(pool).wf(),
        final(pool).next_ticket == old(pool).next_ticket,
        if received is None || received == Some(0usize) {
            r is Close && final(pool)@ == old(pool)@
        } else if old(pool)@.len() == 0 {
            r == Forwarding::Refuse(Refusal::NoBackends) && final(pool)@ == old(pool)@
        } else {
            r matches Forwarding::Connect(lease) && exists|index: int| #[trigger]
                old(pool).is_least(index) && lease.ticket == old(pool)@[index].ticket
                && lease.address@ == Backend::address_of(old(pool)@[index].url) && final(pool)@
                == old(pool)@.update(index, old(pool)@[index].acquired())
        },
{
    match received {
        None => Forwarding::Close,
        Some(n) => {
            if n == 0 {
                return Forwarding::Close;
            }
            match pool.acquire() {
                None => Forwarding::Refuse(Refusal::NoBackends),
                Some(lease) => Forwarding::Connect(lease),
            }
        },
    }
}

/// What a client is told once the backend has been tried: nothing where it was reached.
pub fn connected(reached: bool) -> (r: Option<Refusal>)
    ensures
        r == (if reached {
            None
        } else {
            Some(Refusal::BadGateway)
        }),
{
    if reached {
        None
    } else {
        Some(Refusal::BadGateway)
    }
}

/// Releasing a connection undoes acquiring it.
pub proof fn law_release_undoes_acquire(pool: BackendPool, index: int)
    requires
        pool.wf(),
        pool.is_least(index),
    ensures
        pool@.update(index, pool@[index].acquired()).map_values(
            |backend: Backend| backend.released(pool@[index].ticket),
        ) == pool@,
{
    let ticket = pool@[index].ticket;
    let opened = pool@.update(index, pool@[index].acquired());
    let closed = opened.map_values(|backend: Backend| backend.released(ticket));
    assert forall|j: int| 0 <= j < pool@.len() implies closed[j] == pool@[j] by {
        if j < index {
            assert(pool@[j].ticket != pool@[index].ticket);
        } else if j > index {
            assert(pool@[index].ticket != pool@[j].ticket);
        }
    }
    assert(closed =~= pool@);
}

/// A backend is picked again only when every other has as many connections: as long as no
/// count wraps around, the picked one does not come to have two more than another.
pub proof fn law_load_is_spread(pool: BackendPool, index: int, other: int)
    requires
        pool.wf(),
        pool.is_least(index),
        0 <= other < pool@.len(),
        pool@[index].in_flight < usize::MAX,
    ensures
        pool@[index].acquired().in_flight <= pool@[other].in_flight + 1,
{
}

/// A pool that is made that of the workers it has already does not change.
pub proof fn law_sync_of_same_workers(before: BackendPool, after: BackendPool)
    requires
        before.wf(),
        after.urls() == before.urls(),
        after.follows(before),
    ensures
        after@ == before@,
{
    assert(after.urls().len() == after@.len());
    assert(before.urls().len() == before@.len());
    assert forall|i: int| 0 <= i < before@.len() implies after@[i] == before@[i] by {
        assert(after.urls()[i] == before.urls()[i]);
        assert(after@[i].url == before@[i].url);
        assert(before.has_url(after@[i].url));
        let k = choose|k: int| 0 <= k < before@.len() && #[trigger] before@[k] == after@[i];
        if k < i {
            assert(before@[k].url != before@[i].url);
        } else if i < k {
            assert(before@[i].url != before@[k].url);
        }
    }
    assert(after@ =~= before@);
}

/// Making a pool that of the same workers a second time changes nothing, and takes no ticket.
pub proof fn law_second_sync_changes_nothing(
    urls: Seq<Seq<char>>,
    before: BackendPool,
    after: BackendPool,
    again: BackendPool,
)
    requires
        after.synced(before, urls),
        again.synced(after, urls),
    ensures
        after.newcomers(urls) == 0,
        again@ == after@,
        again.next_ticket == after.next_ticket,
{
    assert forall|i: int| 0 <= i < urls.len() implies after.has_url(#[trigger] urls[i]) by {
        lemma_all_among_distinct(urls, i);
        let k = choose|k: int| 0 <= k < after.urls().len() && after.urls()[k] == urls[i];
        assert(after@[k].url == urls[i]);
    }
    lemma_no_newcomers(after, urls);
    law_sync_of_same_workers(after, again);
}

/// A worker that leaves and comes back starts with no connections, under a ticket of its own: a
/// connection to the one that left does not count against it.
pub proof fn law_ticket_is_not_used_again(before: BackendPool, after: BackendPool, i: int, j: int)
    requires
        before.wf(),
        after.follows(before),
        0 <= i < before@.len(),
        0 <= j < after@.len(),
        !before.has_url(after@[j].url),
    ensures
        after@[j].ticket != before@[i].ticket,
        after@[j].released(before@[i].ticket) == after@[j],
{
}

} // verus!
