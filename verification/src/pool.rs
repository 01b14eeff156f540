//! Client connection pool: bookkeeping of acquired connections, idle
//! connections kept per authority, and requests waiting for a connection.
//!
//! Times are plain numbers of a monotonic clock (for example milliseconds
//! since the clock's start); the caller reads the clock, probes and closes
//! connections, and hands back what it saw.
use std::collections::VecDeque;
use vstd::prelude::*;

verus! {

/// A pool key: the authority (`host:port`) of the connection, lower-cased, as
/// authorities compare without regard to ASCII case.
#[derive(Debug)]
pub struct Key {
    authority: Vec<u8>,
}

/// ASCII lower-case of a byte.
pub open spec fn lower_byte(b: u8) -> u8 {
    if 65 <= b <= 90 {
        (b + 32) as u8
    } else {
        b
    }
}

/// ASCII lower-case of a byte string.
pub open spec fn lower_bytes(s: Seq<u8>) -> Seq<u8> {
    s.map_values(|b: u8| lower_byte(b))
}

impl Key {
    /// The key's value.
    pub closed spec fn view(&self) -> Seq<u8> {
        self.authority@
    }

    /// The key of an authority.
    pub fn from(authority: &[u8]) -> (k: Key)
        ensures
            k.view() == lower_bytes(authority@),
    {
        let mut v: Vec<u8> = Vec::new();
        let mut i: usize = 0;
        while i < authority.len()
            invariant
                i <= authority@.len(),
                v@ == lower_bytes(authority@.take(i as int)),
            decreases authority@.len() - i,
        {
            let b = authority[i];
            let l = if 65 <= b && b <= 90 {
                b + 32
            } else {
                b
            };
            v.push(l);
            i += 1;
            assert(v@ =~= lower_bytes(authority@.take(i as int)));
        }
        assert(authority@.take(i as int) =~= authority@);
        Key { authority: v }
    }

    /// The key's bytes.
    pub fn as_bytes(&self) -> (b: &Vec<u8>)
        ensures
            b@ == self.view(),
    {
        &self.authority
    }

    /// A copy of the key.
    pub fn copy(&self) -> (k: Key)
        ensures
            k.view() == self.view(),
    {
        Key { authority: self.authority.clone() }
    }

    /// Whether two keys are the same.
    pub fn same(&self, other: &Key) -> (b: bool)
        ensures
            b == (self.view() == other.view()),
    {
        let a = &self.authority;
        let c = &other.authority;
        if a.len() != c.len() {
            assert(a@.len() != c@.len());
            return false;
        }
        let mut i: usize = 0;
        while i < a.len()
            invariant
                i <= a@.len(),
                a@.len() == c@.len(),
                a@ == self.view(),
                c@ == other.view(),
                forall|j: int| 0 <= j < i ==> a@[j] == c@[j],
            decreases a@.len() - i,
        {
            if a[i] != c[i] {
                assert(a@[i as int] != c@[i as int]);
                assert(a@ != c@);
                return false;
            }
            i += 1;
        }
        assert(a@ =~= c@);
        true
    }
}

/// An idle connection kept for reuse.
pub struct AvailableConnection<Io> {
    /// The connection.
    pub io: Io,
    /// When it was last released.
    pub used: u64,
    /// When it was opened.
    pub created: u64,
}

/// What the pool finds for a key when a connection is asked for.
pub enum Candidate<Io> {
    /// An idle connection that outlived its keep-alive or its lifetime; it is
    /// to be closed within the timeout, if there is one, and dropped
    /// otherwise.
    Stale(Io, Option<u64>),
    /// An idle connection young enough to be reused, with its creation time;
    /// the caller probes it.
    Fresh(Io, u64),
    /// No idle connection is left for the key.
    Exhausted,
}

/// What a probe read of an idle connection returned.
#[derive(Debug, Clone, Copy, PartialEq, Eq, Structural)]
pub enum ProbeOutcome {
    /// The read would block: the connection is idle and usable.
    WouldBlock,
    /// The read returned this many bytes.
    Read(usize),
    /// The read failed otherwise.
    Failed,
}

/// What to do with a probed idle connection.
#[derive(Debug, Clone, Copy, PartialEq, Eq, Structural)]
pub enum ProbeAction {
    /// Hand it out.
    Use,
    /// Close it within the timeout, and look further.
    Close(u64),
    /// Drop it, and look further.
    Drop,
}

/// The pool's decision on a probed idle connection: a connection whose read
/// would block is handed out; one that has unexpected data is closed when a
/// disconnect timeout is set, and dropped otherwise; one whose read reached
/// the end or failed is dropped.
pub fn probe_action(outcome: ProbeOutcome, disconnect_timeout: Option<u64>) -> (a: ProbeAction)
    ensures
        a == match outcome {
            ProbeOutcome::WouldBlock => ProbeAction::Use,
            ProbeOutcome::Read(n) => if n > 0 {
                match disconnect_timeout {
                    Some(t) => ProbeAction::Close(t),
                    None => ProbeAction::Drop,
                }
            } else {
                ProbeAction::Drop
            },
            ProbeOutcome::Failed => ProbeAction::Drop,
        },
{
    match outcome {
        ProbeOutcome::WouldBlock => ProbeAction::Use,
        ProbeOutcome::Read(n) => {
            if n > 0 {
                match disconnect_timeout {
                    Some(t) => ProbeAction::Close(t),
                    None => ProbeAction::Drop,
                }
            } else {
                ProbeAction::Drop
            }
        },
        ProbeOutcome::Failed => ProbeAction::Drop,
    }
}

/// The values of a queue of waiters.
pub open spec fn waiters_view(v: Seq<(Key, usize)>) -> Seq<(Seq<u8>, usize)> {
    v.map_values(|w: (Key, usize)| (w.0.view(), w.1))
}

/// No waiter occurs twice in the queue.
pub open spec fn distinct_waiters(q: Seq<(Seq<u8>, usize)>) -> bool {
    forall|i: int, j: int| 0 <= i < j < q.len() ==> q[i] != q[j]
}

/// Dropping waiters from a queue keeps each remaining one unique.
proof fn lemma_filter_distinct(q: Seq<(Seq<u8>, usize)>, pred: spec_fn((Seq<u8>, usize)) -> bool)
    requires
        distinct_waiters(q),
    ensures
        distinct_waiters(q.filter(pred)),
    decreases q.len(),
{
    reveal_with_fuel(Seq::<_>::filter, 1);
    if q.len() > 0 {
        let rest = q.drop_last();
        assert(distinct_waiters(rest));
        lemma_filter_distinct(rest, pred);
        if pred(q.last()) {
            let f = rest.filter(pred);
            assert(q.filter(pred) == f.push(q.last()));
            assert forall|i: int| 0 <= i < f.len() implies f[i] != q.last() by {
                if f[i] == q.last() {
                    assert(f.contains(q.last()));
                    rest.lemma_filter_contains_rev(pred, q.last());
                    let k = choose|k: int| 0 <= k < rest.len() && rest[k] == q.last();
                    assert(q[k] == q[q.len() - 1]);
                }
            }
        } else {
            assert(q.filter(pred) == rest.filter(pred));
        }
    }
}

/// The bookkeeping of a connection pool.
pub struct PoolInner<Io> {
    conn_lifetime: u64,
    conn_keep_alive: u64,
    disconnect_timeout: Option<u64>,
    limit: usize,
    acquired: usize,
    available: Vec<(Key, VecDeque<AvailableConnection<Io>>)>,
    waiters_queue: Vec<(Key, usize)>,
}

/// An idle connection is stale at `now` when it has been idle for longer than
/// the keep-alive, or open for longer than the lifetime (durations between
/// clock readings count as zero when the later reading is the smaller).
pub open spec fn is_stale(used: u64, created: u64, now: u64, keep_alive: u64, lifetime: u64) -> bool {
    (if now >= used {
        now - used
    } else {
        0
    }) > keep_alive || (if now >= created {
        now - created
    } else {
        0
    }) > lifetime
}

impl<Io> PoolInner<Io> {
    /// The most connections handed out at once; 0 is no limit.
    pub closed spec fn limit(&self) -> nat {
        self.limit as nat
    }

    /// The number of connections handed out or being opened.
    pub closed spec fn acquired(&self) -> nat {
        self.acquired as nat
    }

    /// The count of connections handed out is within the limit (0: none).
    pub open spec fn within_limit(&self) -> bool {
        self.limit() == 0 || self.acquired() <= self.limit()
    }

    /// The timeout within which stale connections are closed, if any.
    pub closed spec fn disconnect_timeout(&self) -> Option<u64> {
        self.disconnect_timeout
    }

    /// The keep-alive and the lifetime of idle connections.
    pub closed spec fn durations(&self) -> (u64, u64) {
        (self.conn_keep_alive, self.conn_lifetime)
    }

    /// The keys that have an entry of idle connections, in order.
    pub closed spec fn keys(&self) -> Seq<Seq<u8>> {
        self.available@.map_values(|e: (Key, VecDeque<AvailableConnection<Io>>)| e.0.view())
    }

    /// The idle connections kept for the key, oldest release first.
    pub closed spec fn idle(&self, key: Seq<u8>) -> Seq<AvailableConnection<Io>> {
        if exists|i: int| 0 <= i < self.available@.len() && self.available@[i].0.view() == key {
            let i = choose|i: int|
                0 <= i < self.available@.len() && self.available@[i].0.view() == key;
            self.available@[i].1@
        } else {
            Seq::empty()
        }
    }

    /// The waiting requests, by key and token, front first.
    pub closed spec fn waiters(&self) -> Seq<(Seq<u8>, usize)> {
        waiters_view(self.waiters_queue@)
    }

    /// Keys of idle entries are distinct, and no (key, token) pair waits
    /// twice: the waiters form a set.
    pub closed spec fn wf(&self) -> bool {
        &&& forall|i: int, j: int|
            0 <= i < j < self.available@.len() ==> self.available@[i].0.view()
                != self.available@[j].0.view()
        &&& distinct_waiters(self.waiters())
    }

    /// A pool with nothing acquired, idle or waiting.
    pub fn new(
        conn_lifetime: u64,
        conn_keep_alive: u64,
        disconnect_timeout: Option<u64>,
        limit: usize,
    ) -> (p: Self)
        ensures
            p.wf(),
            p.limit() == limit,
            p.acquired() == 0,
            p.within_limit(),
            p.disconnect_timeout() == disconnect_timeout,
            p.durations() == (conn_keep_alive, conn_lifetime),
            p.keys() == Seq::<Seq<u8>>::empty(),
            p.waiters() == Seq::<(Seq<u8>, usize)>::empty(),
            forall|k: Seq<u8>| p.idle(k) == Seq::<AvailableConnection<Io>>::empty(),
    {
        let p = PoolInner {
            conn_lifetime,
            conn_keep_alive,
            disconnect_timeout,
            limit,
            acquired: 0,
            available: Vec::new(),
            waiters_queue: Vec::new(),
        };
        assert(p.keys() =~= Seq::<Seq<u8>>::empty());
        assert(p.waiters() =~= Seq::<(Seq<u8>, usize)>::empty());
        p
    }

    /// The entry index holding the key's idle connections.
    fn find(&self, key: &Key) -> (r: Option<usize>)
        ensures
            r matches Some(i) ==> i < self.available@.len() && self.available@[i as int].0.view()
                == key.view(),
            r is None ==> forall|i: int|
                0 <= i < self.available@.len() ==> self.available@[i].0.view() != key.view(),
    {
        let mut i: usize = 0;
        while i < self.available.len()
            invariant
                i <= self.available@.len(),
                forall|j: int| 0 <= j < i ==> self.available@[j].0.view() != key.view(),
            decreases self.available@.len() - i,
        {
            if self.available[i].0.same(key) {
                return Some(i);
            }
            i += 1;
        }
        None
    }

    /// Marks one more connection as acquired.
    fn reserve(&mut self)
        requires
            old(self).acquired() < usize::MAX,
        ensures
            final(self).acquired() == old(self).acquired() + 1,
            final(self).unchanged_but_count(*old(self)),
    {
        self.acquired += 1;
        proof {
            assert(self.available@ == old(self).available@);
            assert forall|k: Seq<u8>| #[trigger] self.idle(k) == old(self).idle(k) by {}
        }
    }

    /// Marks one connection fewer as acquired.
    pub fn release(&mut self)
        requires
            old(self).acquired() > 0,
        ensures
            old(self).within_limit() ==> final(self).within_limit(),
            final(self).acquired() == old(self).acquired() - 1,
            final(self).unchanged_but_count(*old(self)),
    {
        self.acquired -= 1;
        proof {
            assert(self.available@ == old(self).available@);
            assert forall|k: Seq<u8>| #[trigger] self.idle(k) == old(self).idle(k) by {}
        }
    }

    /// Everything but the acquired count is as in `other`.
    pub open spec fn unchanged_but_count(&self, other: Self) -> bool {
        &&& self.wf() == other.wf()
        &&& self.limit() == other.limit()
        &&& self.disconnect_timeout() == other.disconnect_timeout()
        &&& self.durations() == other.durations()
        &&& self.keys() == other.keys()
        &&& self.waiters() == other.waiters()
        &&& forall|k: Seq<u8>| #[trigger] self.idle(k) == other.idle(k)
    }

    /// Asks for a connection: refused when the limit is reached; otherwise
    /// one more connection is counted as acquired (it is then either an idle
    /// one, or one that the caller opens).
    pub fn acquire_start(&mut self) -> (ok: bool)
        requires
            old(self).limit() > 0 || old(self).acquired() < usize::MAX,
        ensures
            old(self).within_limit() ==> final(self).within_limit(),
            ok == !(old(self).limit() > 0 && old(self).acquired() >= old(self).limit()),
            ok ==> final(self).acquired() == old(self).acquired() + 1,
            !ok ==> final(self).acquired() == old(self).acquired(),
            final(self).unchanged_but_count(*old(self)),
    {
        if self.limit > 0 && self.acquired >= self.limit {
            return false;
        }
        self.reserve();
        true
    }

    /// Whether a waiting request could now be served: someone waits and the
    /// acquired count is below the limit.
    pub fn check_availability(&self) -> (b: bool)
        ensures
            b == (self.waiters().len() > 0 && self.acquired() < self.limit()),
    {
        self.waiters_queue.len() > 0 && self.acquired < self.limit
    }

    /// Takes the most recently released idle connection of the key: a stale
    /// one is handed back to be closed or dropped, a fresh one to be probed.
    pub fn acquire_next(&mut self, key: &Key, now: u64) -> (c: Candidate<Io>)
        requires
            old(self).wf(),
        ensures
            old(self).within_limit() ==> final(self).within_limit(),
            final(self).wf(),
            final(self).acquired() == old(self).acquired(),
            final(self).limit() == old(self).limit(),
            final(self).disconnect_timeout() == old(self).disconnect_timeout(),
            final(self).durations() == old(self).durations(),
            final(self).keys() == old(self).keys(),
            final(self).waiters() == old(self).waiters(),
            forall|k: Seq<u8>| k != key.view() ==> #[trigger] final(self).idle(k) == old(self).idle(k),
            old(self).idle(key.view()).len() == 0 ==> c is Exhausted && final(self).idle(key.view())
                == old(self).idle(key.view()),
            old(self).idle(key.view()).len() > 0 ==> ({
                let conn = old(self).idle(key.view()).last();
                &&& final(self).idle(key.view()) == old(self).idle(key.view()).drop_last()
                &&& if is_stale(
                    conn.used,
                    conn.created,
                    now,
                    old(self).durations().0,
                    old(self).durations().1,
                ) {
                    c matches Candidate::Stale(io, t) && io == conn.io && t == old(
                        self,
                    ).disconnect_timeout()
                } else {
                    c matches Candidate::Fresh(io, created) && io == conn.io && created
                        == conn.created
                }
            }),
            old(self).idle(key.view()).len() > 0 ==> ({
                let conn = old(self).idle(key.view()).last();
                &&& (now >= conn.created && now - conn.created > old(self).durations().1)
                    ==> c is Stale
                &&& (now >= conn.used && now - conn.used > old(self).durations().0) ==> c is Stale
                &&& (c is Fresh ==> (now < conn.created || now - conn.created <= old(
                    self,
                ).durations().1) && (now < conn.used || now - conn.used <= old(
                    self,
                ).durations().0))
            }),
    {
        match self.find(key) {
            None => {
                proof {
                    assert(!exists|i: int|
                        0 <= i < self.available@.len() && self.available@[i].0.view()
                            == key.view());
                }
                Candidate::Exhausted
            },
            Some(i) => {
                let ghost old_avail = self.available@;
                proof {
                    self.lemma_idle_at(i as int);
                }
                let mut entry = self.available.remove(i);
                let popped = entry.1.pop_back();
                let ghost rest = entry.1@;
                self.available.insert(i, entry);
                proof {
                    assert(self.available@ =~= old_avail.update(
                        i as int,
                        (old_avail[i as int].0, self.available@[i as int].1),
                    ));
                    assert(self.keys() =~= old(self).keys());
                    self.lemma_idle_at(i as int);
                    assert forall|k: Seq<u8>| k != key.view() implies #[trigger] self.idle(k)
                        == old(self).idle(k) by {
                        self.lemma_idle_other(*old(self), i as int, k);
                    }
                }
                match popped {
                    None => Candidate::Exhausted,
                    Some(conn) => {
                        let idle_for = if now >= conn.used {
                            now - conn.used
                        } else {
                            0
                        };
                        let open_for = if now >= conn.created {
                            now - conn.created
                        } else {
                            0
                        };
                        if idle_for > self.conn_keep_alive || open_for > self.conn_lifetime {
                            Candidate::Stale(conn.io, self.disconnect_timeout)
                        } else {
                            Candidate::Fresh(conn.io, conn.created)
                        }
                    },
                }
            },
        }
    }

    /// Puts a released connection back among the key's idle connections.
    pub fn release_conn(&mut self, key: &Key, io: Io, created: u64, now: u64)
        requires
            old(self).wf(),
            old(self).acquired() > 0,
        ensures
            old(self).within_limit() ==> final(self).within_limit(),
            final(self).wf(),
            final(self).acquired() == old(self).acquired() - 1,
            final(self).limit() == old(self).limit(),
            final(self).disconnect_timeout() == old(self).disconnect_timeout(),
            final(self).durations() == old(self).durations(),
            final(self).waiters() == old(self).waiters(),
            forall|k: Seq<u8>| k != key.view() ==> #[trigger] final(self).idle(k) == old(self).idle(k),
            final(self).idle(key.view()) == old(self).idle(key.view()).push(
                AvailableConnection { io, created, used: now },
            ),
    {
        self.acquired -= 1;
        let conn = AvailableConnection { io, created, used: now };
        let ghost c = conn;
        match self.find(key) {
            Some(i) => {
                let ghost old_avail = self.available@;
                proof {
                    self.lemma_idle_at(i as int);
                }
                let mut entry = self.available.remove(i);
                entry.1.push_back(conn);
                self.available.insert(i, entry);
                proof {
                    assert(self.available@ =~= old_avail.update(
                        i as int,
                        (old_avail[i as int].0, self.available@[i as int].1),
                    ));
                    self.lemma_idle_at(i as int);
                    assert forall|k: Seq<u8>| k != key.view() implies #[trigger] self.idle(k)
                        == old(self).idle(k) by {
                        self.lemma_idle_other(*old(self), i as int, k);
                    }
                }
            },
            None => {
                let ghost old_avail = self.available@;
                let mut q: VecDeque<AvailableConnection<Io>> = VecDeque::new();
                q.push_back(conn);
                self.available.push((key.copy(), q));
                proof {
                    assert(self.available@.len() == old_avail.len() + 1);
                    let n = old_avail.len() as int;
                    assert forall|i: int, j: int|
                        0 <= i < j < self.available@.len() implies self.available@[i].0.view()
                        != self.available@[j].0.view() by {
                        if j < n {
                            assert(self.available@[i] == old_avail[i]);
                            assert(self.available@[j] == old_avail[j]);
                        }
                    }
                    self.lemma_idle_at(n);
                    assert(self.available@[n].1@ =~= Seq::<AvailableConnection<Io>>::empty().push(c));
                    assert(!exists|i: int|
                        0 <= i < old_avail.len() && old_avail[i].0.view() == key.view());
                    assert forall|k: Seq<u8>| k != key.view() implies #[trigger] self.idle(k)
                        == old(self).idle(k) by {
                        if exists|i: int| 0 <= i < old_avail.len() && old_avail[i].0.view() == k {
                            let i = choose|i: int| 0 <= i < old_avail.len() && old_avail[i].0.view() == k;
                            old(self).lemma_idle_at(i);
                            assert(self.available@[i] == old_avail[i]);
                            self.lemma_idle_at(i);
                        } else {
                            assert(!exists|i: int|
                                0 <= i < self.available@.len() && self.available@[i].0.view() == k) by {
                                if exists|i: int|
                                    0 <= i < self.available@.len() && self.available@[i].0.view() == k {
                                    let i = choose|i: int|
                                        0 <= i < self.available@.len() && self.available@[i].0.view() == k;
                                    assert(i < n);
                                    assert(self.available@[i] == old_avail[i]);
                                }
                            }
                        }
                    }
                }
            },
        }
    }

    /// Releases a connection that is to be closed: it is handed back with the
    /// timeout within which to close it, or `None` (and dropped) when no
    /// disconnect timeout is set.
    pub fn release_close(&mut self, io: Io) -> (r: Option<(Io, u64)>)
        requires
            old(self).acquired() > 0,
        ensures
            old(self).within_limit() ==> final(self).within_limit(),
            final(self).acquired() == old(self).acquired() - 1,
            final(self).unchanged_but_count(*old(self)),
            match old(self).disconnect_timeout() {
                Some(t) => r matches Some((x, u)) && x == io && u == t,
                None => r is None,
            },
    {
        self.acquired -= 1;
        proof {
            assert(self.available@ == old(self).available@);
            assert forall|k: Seq<u8>| #[trigger] self.idle(k) == old(self).idle(k) by {}
        }
        match self.disconnect_timeout {
            Some(t) => Some((io, t)),
            None => None,
        }
    }

    /// The waiting request at the front of the queue.
    pub fn front_waiter(&self) -> (w: Option<(Key, usize)>)
        ensures
            self.waiters().len() == 0 ==> w is None,
            self.waiters().len() > 0 ==> (w matches Some((k, t)) && (k.view(), t)
                == self.waiters()[0]),
    {
        if self.waiters_queue.len() > 0 {
            let k = self.waiters_queue[0].0.copy();
            Some((k, self.waiters_queue[0].1))
        } else {
            None
        }
    }

    /// Removes the front waiter; the last waiter takes its place.
    pub fn remove_front_waiter(&mut self)
        requires
            old(self).wf(),
        ensures
            old(self).within_limit() ==> final(self).within_limit(),
            final(self).wf(),
            old(self).waiters().len() == 0 ==> final(self).waiters() == old(self).waiters(),
            old(self).waiters().len() > 0 ==> final(self).waiters() == old(self).waiters().update(
                0,
                old(self).waiters().last(),
            ).drop_last(),
            final(self).acquired() == old(self).acquired(),
            final(self).limit() == old(self).limit(),
            final(self).keys() == old(self).keys(),
            forall|k: Seq<u8>| #[trigger] final(self).idle(k) == old(self).idle(k),
    {
        if self.waiters_queue.len() > 0 {
            let ghost q = self.waiters_queue@;
            self.waiters_queue.swap_remove(0);
            proof {
                let w = old(self).waiters();
                assert(self.waiters() =~= w.update(0, w.last()).drop_last());
                assert(self.keys() =~= old(self).keys());
                assert forall|i: int, j: int|
                    0 <= i < j < self.waiters().len() implies self.waiters()[i]
                    != self.waiters()[j] by {
                    if i == 0 {
                        assert(self.waiters()[0] == w[w.len() - 1]);
                        assert(self.waiters()[j] == w[j]);
                    } else {
                        assert(self.waiters()[i] == w[i]);
                        assert(self.waiters()[j] == w[j]);
                    }
                }
            }
        }
    }

    /// Removes a waiter that gave up.
    pub fn release_waiter(&mut self, key: &Key, token: usize)
        requires
            old(self).wf(),
        ensures
            old(self).within_limit() ==> final(self).within_limit(),
            final(self).wf(),
            final(self).waiters() == old(self).waiters().filter(
                |w: (Seq<u8>, usize)| w != (key.view(), token),
            ),
            final(self).acquired() == old(self).acquired(),
            final(self).limit() == old(self).limit(),
            final(self).keys() == old(self).keys(),
            forall|k: Seq<u8>| #[trigger] final(self).idle(k) == old(self).idle(k),
    {
        let ghost target = (key.view(), token);
        let ghost pred = |w: (Seq<u8>, usize)| w != target;
        let ghost q = self.waiters();
        let mut kept: Vec<(Key, usize)> = Vec::new();
        let n = self.waiters_queue.len();
        let mut i: usize = 0;
        proof {
            assert(q.take(0) =~= Seq::<(Seq<u8>, usize)>::empty());
            assert(waiters_view(kept@) =~= Seq::<(Seq<u8>, usize)>::empty());
        }
        while i < n
            invariant
                self == old(self),
                n == self.waiters_queue@.len(),
                q == self.waiters(),
                i <= n,
                waiters_view(kept@) == q.take(i as int).filter(pred),
                target == (key.view(), token),
                pred == (|w: (Seq<u8>, usize)| w != target),
            decreases n - i,
        {
            let ghost before = kept@;
            proof {
                reveal_with_fuel(Seq::<_>::filter, 1);
                assert(q.take(i + 1).drop_last() =~= q.take(i as int));
                assert(q.take(i + 1).last() == q[i as int]);
                assert(q[i as int] == (self.waiters_queue@[i as int].0.view(), self.waiters_queue@[i as int].1));
            }
            let same = self.waiters_queue[i].0.same(key) && self.waiters_queue[i].1 == token;
            if !same {
                let k = self.waiters_queue[i].0.copy();
                kept.push((k, self.waiters_queue[i].1));
                proof {
                    assert(waiters_view(kept@) =~= waiters_view(before).push(q[i as int]));
                }
            }
            i += 1;
        }
        proof {
            assert(q.take(n as int) =~= q);
        }
        self.waiters_queue = kept;
        proof {
            lemma_filter_distinct(q, pred);
            assert(self.keys() =~= old(self).keys());
            assert forall|k: Seq<u8>| #[trigger] self.idle(k) == old(self).idle(k) by {}
        }
    }

    /// Registers a request that waits for a connection of the key, under the
    /// token its caller allocated. The queue is a set, and the pair must
    /// already be in it: the caller asserts that inserting it changes
    /// nothing, and a new pair fails that assertion.
    pub fn wait_for(&mut self, key: &Key, token: usize)
        requires
            old(self).waiters().contains((key.view(), token)),
        ensures
            old(self).within_limit() ==> final(self).within_limit(),
            *final(self) == *old(self),
    {
    }

    /// An entry's idle connections are those of its key.
    proof fn lemma_idle_at(&self, i: int)
        requires
            self.wf(),
            0 <= i < self.available@.len(),
        ensures
            self.idle(self.available@[i].0.view()) == self.available@[i].1@,
    {
        let key = self.available@[i].0.view();
        let j = choose|j: int| 0 <= j < self.available@.len() && self.available@[j].0.view() == key;
        if j != i {
            if j < i {
            } else {
            }
        }
    }

    /// Changing the deque of entry `i` leaves the idle connections of other
    /// keys as they were.
    proof fn lemma_idle_other(&self, other: Self, i: int, k: Seq<u8>)
        requires
            self.wf(),
            other.wf(),
            0 <= i < self.available@.len(),
            self.available@.len() == other.available@.len(),
            forall|j: int| 0 <= j < self.available@.len() ==> self.available@[j].0.view() == other.available@[j].0.view(),
            forall|j: int| 0 <= j < self.available@.len() && j != i ==> self.available@[j].1@ == other.available@[j].1@,
            k != self.available@[i].0.view(),
        ensures
            self.idle(k) == other.idle(k),
    {
        if exists|j: int| 0 <= j < self.available@.len() && self.available@[j].0.view() == k {
            let j = choose|j: int| 0 <= j < self.available@.len() && self.available@[j].0.view() == k;
            self.lemma_idle_at(j);
            other.lemma_idle_at(j);
        } else {
            assert(!exists|j: int| 0 <= j < other.available@.len() && other.available@[j].0.view() == k) by {
                if exists|j: int| 0 <= j < other.available@.len() && other.available@[j].0.view() == k {
                    let j = choose|j: int| 0 <= j < other.available@.len() && other.available@[j].0.view() == k;
                    assert(self.available@[j].0.view() == k);
                }
            }
        }
    }
}

/// Law: an idle connection is stale, and is never handed out again, once it
/// has been open longer than the pool's connection lifetime, however recently
/// it was used; or once it has been idle longer than the keep-alive. A
/// connection within both is not stale.
pub proof fn law_stale_connections(used: u64, created: u64, now: u64, keep_alive: u64, lifetime: u64)
    ensures
        now >= created && now - created > lifetime ==> is_stale(
            used,
            created,
            now,
            keep_alive,
            lifetime,
        ),
        now >= used && now - used > keep_alive ==> is_stale(used, created, now, keep_alive, lifetime),
        (now < created || now - created <= lifetime) && (now < used || now - used <= keep_alive)
            ==> !is_stale(used, created, now, keep_alive, lifetime),
{
}

/// Law: the pool never hands out more connections than its limit. From a
/// pool whose count is within its set limit, a request for a connection
/// (granted or refused, as `acquire_start` states) leaves the count within
/// the limit, and everything else as it was.
pub proof fn law_acquired_within_limit<Io>(before: PoolInner<Io>, after: PoolInner<Io>, ok: bool)
    requires
        before.limit() > 0,
        before.acquired() <= before.limit(),
        ok == !(before.limit() > 0 && before.acquired() >= before.limit()),
        ok ==> after.acquired() == before.acquired() + 1,
        !ok ==> after.acquired() == before.acquired(),
        after.unchanged_but_count(before),
    ensures
        after.limit() == before.limit(),
        after.acquired() <= after.limit(),
{
}

/// Law: a pool keeps its count within its limit over any run of its
/// operations. Each operation (`acquire_start`, `acquire_next`, the
/// releases and the waiter bookkeeping) keeps the count within the limit;
/// so from a new pool, every pool reached is within it.
pub proof fn law_limit_kept_over_run<Io>(pools: Seq<PoolInner<Io>>)
    requires
        pools.len() > 0,
        pools[0].within_limit(),
        forall|i: int|
            0 <= i < pools.len() - 1 && #[trigger] pools[i].within_limit() ==> pools[i
                + 1].within_limit(),
    ensures
        forall|i: int| 0 <= i < pools.len() ==> #[trigger] pools[i].within_limit(),
    decreases pools.len(),
{
    if pools.len() > 1 {
        let p2 = pools.drop_last();
        assert forall|i: int| 0 <= i < p2.len() - 1 && #[trigger] p2[i].within_limit() implies p2[i
            + 1].within_limit() by {
            assert(pools[i].within_limit());
        }
        law_limit_kept_over_run(p2);
        assert forall|i: int| 0 <= i < pools.len() implies #[trigger] pools[i].within_limit() by {
            if i < pools.len() - 1 {
                assert(p2[i] == pools[i]);
            } else {
                assert(p2[i - 1] == pools[i - 1]);
                assert(pools[i - 1].within_limit());
            }
        }
    }
}

/// Law: releasing a connection undoes reserving it: the pool is as before.
pub proof fn law_release_undoes_reserve<Io>(
    before: PoolInner<Io>,
    reserved: PoolInner<Io>,
    released: PoolInner<Io>,
)
    requires
        reserved.acquired() == before.acquired() + 1,
        reserved.unchanged_but_count(before),
        released.acquired() == reserved.acquired() - 1,
        released.unchanged_but_count(reserved),
    ensures
        released.acquired() == before.acquired(),
        released.unchanged_but_count(before),
{
}

/// Law: a connection released for a key is the next one taken for that key,
/// and taking it leaves the key's idle connections as they were before the
/// release.
pub proof fn law_release_then_acquire<Io>(
    idle: Seq<AvailableConnection<Io>>,
    conn: AvailableConnection<Io>,
)
    ensures
        idle.push(conn).len() > 0,
        idle.push(conn).last() == conn,
        idle.push(conn).drop_last() == idle,
{
    assert(idle.push(conn).drop_last() =~= idle);
}

} // verus!
