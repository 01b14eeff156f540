//! A new connection: telling HTTP/1 from HTTP/2 by the first bytes, and the
//! registry of live connections that a server walks when it shuts down.
use vstd::prelude::*;

verus! {

/// The length of the HTTP/2 connection preface's first line.
pub const HTTP2_PREFACE_LEN: usize = 14;

/// The first line of the HTTP/2 connection preface: `PRI * HTTP/2.0`.
pub open spec fn http2_preface() -> Seq<u8> {
    seq![80u8, 82u8, 73u8, 32u8, 42u8, 32u8, 72u8, 84u8, 84u8, 80u8, 47u8, 50u8, 46u8, 48u8]
}

/// The protocol a connection speaks.
#[derive(PartialEq, Eq, Structural, Debug, Clone, Copy)]
pub enum ProtocolKind {
    /// HTTP/1.x
    Http1,
    /// HTTP/2
    Http2,
}

/// The protocol of a connection by the bytes read so far: none until there
/// are enough to tell, HTTP/2 when they start with the preface.
pub open spec fn protocol_of(buf: Seq<u8>) -> Option<ProtocolKind> {
    if buf.len() < HTTP2_PREFACE_LEN {
        None
    } else if buf.subrange(0, HTTP2_PREFACE_LEN as int) == http2_preface() {
        Some(ProtocolKind::Http2)
    } else {
        Some(ProtocolKind::Http1)
    }
}

/// Tells the protocol of a connection by the bytes read so far.
pub fn detect_protocol(buf: &[u8]) -> (k: Option<ProtocolKind>)
    ensures
        k == protocol_of(buf@),
{
    if buf.len() < HTTP2_PREFACE_LEN {
        return None;
    }
    let preface: [u8; 14] = [80u8, 82u8, 73u8, 32u8, 42u8, 32u8, 72u8, 84u8, 84u8, 80u8, 47u8, 50u8, 46u8, 48u8];
    assert(preface@ =~= http2_preface());
    let mut i: usize = 0;
    while i < HTTP2_PREFACE_LEN
        invariant
            i <= HTTP2_PREFACE_LEN,
            buf@.len() >= HTTP2_PREFACE_LEN,
            preface@ == http2_preface(),
            forall|j: int| 0 <= j < i ==> buf@[j] == http2_preface()[j],
        decreases HTTP2_PREFACE_LEN - i,
    {
        if buf[i] != preface[i] {
            assert(buf@.subrange(0, HTTP2_PREFACE_LEN as int)[i as int] != http2_preface()[i as int]);
            return Some(ProtocolKind::Http1);
        }
        i += 1;
    }
    assert(buf@.subrange(0, HTTP2_PREFACE_LEN as int) =~= http2_preface());
    Some(ProtocolKind::Http2)
}

/// What reading a new connection gave.
#[derive(PartialEq, Eq, Structural, Debug, Clone, Copy)]
pub enum ReadOutcome {
    /// Whether anything was read, and whether the stream closed.
    Ready(bool, bool),
    /// Nothing now.
    NotReady,
    /// Reading failed.
    Failed,
}

/// What a new connection does next.
#[derive(PartialEq, Eq, Structural, Debug, Clone, Copy)]
pub enum ChannelStep {
    /// Drop the connection quietly: the peer left before sending anything.
    Close,
    /// Fail with the read error.
    Fail,
    /// Wait for more bytes.
    Wait,
    /// Hand the connection to the dispatcher of this protocol; the flag tells
    /// whether the stream is at its end.
    Start(ProtocolKind, bool),
}

/// Decides what a new connection does after a read, from what the read gave
/// and all bytes read so far: a peer that closed without sending is let go,
/// a failed read fails, and once the protocol can be told the connection
/// starts speaking it.
pub fn on_first_read(read: ReadOutcome, buf: &[u8]) -> (step: ChannelStep)
    ensures
        step == match read {
            ReadOutcome::Ready(some, closed) if closed && !some => ChannelStep::Close,
            ReadOutcome::Failed => ChannelStep::Fail,
            _ => match protocol_of(buf@) {
                None => ChannelStep::Wait,
                Some(k) => ChannelStep::Start(
                    k,
                    match read {
                        ReadOutcome::Ready(_, closed) => closed,
                        _ => false,
                    },
                ),
            },
        },
{
    let mut eof = false;
    match read {
        ReadOutcome::Ready(some, closed) => {
            eof = closed;
            if closed && !some {
                return ChannelStep::Close;
            }
        },
        ReadOutcome::Failed => {
            return ChannelStep::Fail;
        },
        ReadOutcome::NotReady => {},
    }
    match detect_protocol(buf) {
        None => ChannelStep::Wait,
        Some(k) => ChannelStep::Start(k, eof),
    }
}

/// A value kept in the registry of live connections, with the key it is
/// registered under.
pub struct Node<T> {
    element: T,
    key: u64,
}

impl<T> Node<T> {
    /// The value.
    pub closed spec fn element(&self) -> T {
        self.element
    }

    /// The key the node is registered under.
    pub closed spec fn key(&self) -> u64 {
        self.key
    }

    /// A node holding `element`, to be registered under `key`.
    pub fn new(element: T, key: u64) -> (n: Self)
        ensures
            n.element() == element,
            n.key() == key,
    {
        Node { element, key }
    }

    /// The value.
    pub fn get_mut(&mut self) -> (e: &mut T)
        ensures
            *e == old(self).element(),
            final(self).element() == *final(e),
            final(self).key() == old(self).key(),
    {
        &mut self.element
    }

    /// The key the node is registered under.
    pub fn get_key(&self) -> (k: u64)
        ensures
            k == self.key(),
    {
        self.key
    }
}

/// The registry of live connections: their keys, most recently registered
/// first, each at most once.
pub struct Registry {
    keys: Vec<u64>,
}

impl Registry {
    /// The keys, most recently registered first.
    pub closed spec fn view(&self) -> Seq<u64> {
        self.keys@
    }

    /// No key occurs twice.
    pub open spec fn wf(&self) -> bool {
        self.view().no_duplicates()
    }

    /// An empty registry: the head that connections register after.
    pub fn head() -> (r: Self)
        ensures
            r.view() == Seq::<u64>::empty(),
            r.wf(),
    {
        Registry { keys: Vec::new() }
    }

    /// Registers a node right after the head, unless its key is registered.
    pub fn insert<T>(&mut self, node: &Node<T>)
        requires
            old(self).wf(),
        ensures
            final(self).wf(),
            final(self).view() == if old(self).view().contains(node.key()) {
                old(self).view()
            } else {
                seq![node.key()] + old(self).view()
            },
    {
        let k = node.key;
        if self.contains(k) {
            return;
        }
        let mut v: Vec<u64> = Vec::new();
        v.push(k);
        let mut i: usize = 0;
        while i < self.keys.len()
            invariant
                i <= self.keys@.len(),
                v@ == seq![k] + self.keys@.take(i as int),
            decreases self.keys@.len() - i,
        {
            v.push(self.keys[i]);
            i += 1;
            assert(v@ =~= seq![k] + self.keys@.take(i as int));
        }
        assert(self.keys@.take(i as int) =~= self.keys@);
        proof {
            assert forall|a: int, b: int|
                0 <= a < b < v@.len() implies v@[a] != v@[b] by {
                if a == 0 {
                    assert(v@[b] == self.keys@[b - 1]);
                }
            }
        }
        self.keys = v;
    }

    /// Whether a key is registered.
    pub fn contains(&self, key: u64) -> (b: bool)
        ensures
            b == self.view().contains(key),
    {
        let mut i: usize = 0;
        while i < self.keys.len()
            invariant
                i <= self.keys@.len(),
                forall|j: int| 0 <= j < i ==> self.keys@[j] != key,
            decreases self.keys@.len() - i,
        {
            if self.keys[i] == key {
                assert(self.keys@[i as int] == key);
                return true;
            }
            i += 1;
        }
        false
    }

    /// Unregisters a node: the keys around it become neighbours.
    pub fn remove<T>(&mut self, node: &Node<T>)
        requires
            old(self).wf(),
        ensures
            final(self).wf(),
            final(self).view() == old(self).view().filter(|x: u64| x != node.key()),
    {
        let k = node.key;
        let ghost f = |x: u64| x != k;
        let mut v: Vec<u64> = Vec::new();
        let mut i: usize = 0;
        while i < self.keys.len()
            invariant
                i <= self.keys@.len(),
                f == (|x: u64| x != k),
                v@ == self.keys@.take(i as int).filter(f),
            decreases self.keys@.len() - i,
        {
            proof {
                reveal(Seq::filter);
                assert(self.keys@.take(i + 1).drop_last() =~= self.keys@.take(i as int));
            }
            if self.keys[i] != k {
                v.push(self.keys[i]);
            }
            i += 1;
        }
        assert(self.keys@.take(i as int) =~= self.keys@);
        proof {
            assert forall|a: int, b: int| 0 <= a < b < v@.len() implies v@[a] != v@[b] by {
                lemma_filter_keeps_distinct(self.keys@, f, a, b);
            }
        }
        self.keys = v;
    }

    /// The keys of the live connections, most recently registered first.
    pub fn traverse(&self) -> (keys: Vec<u64>)
        ensures
            keys@ == self.view(),
    {
        self.keys.clone()
    }
}

proof fn lemma_filter_from_source(s: Seq<u64>, f: spec_fn(u64) -> bool, i: int)
    requires
        0 <= i < s.filter(f).len(),
    ensures
        exists|j: int| 0 <= j < s.len() && s[j] == s.filter(f)[i],
    decreases s.len(),
{
    reveal(Seq::filter);
    if s.len() > 0 {
        let t = s.drop_last();
        if f(s.last()) && i == t.filter(f).len() {
            assert(s[s.len() - 1] == s.filter(f)[i]);
        } else {
            assert(s.filter(f)[i] == t.filter(f)[i]);
            lemma_filter_from_source(t, f, i);
            let j = choose|j: int| 0 <= j < t.len() && t[j] == t.filter(f)[i];
            assert(s[j] == t[j]);
        }
    }
}

proof fn lemma_filter_keeps_distinct(s: Seq<u64>, f: spec_fn(u64) -> bool, a: int, b: int)
    requires
        s.no_duplicates(),
        0 <= a < b < s.filter(f).len(),
    ensures
        s.filter(f)[a] != s.filter(f)[b],
    decreases s.len(),
{
    reveal(Seq::filter);
    if s.len() > 0 {
        let t = s.drop_last();
        assert(t.no_duplicates());
        if f(s.last()) {
            assert(s.filter(f) == t.filter(f).push(s.last()));
            if b < t.filter(f).len() {
                lemma_filter_keeps_distinct(t, f, a, b);
            } else {
                lemma_filter_from_source(t, f, a);
                let j = choose|j: int| 0 <= j < t.len() && t[j] == t.filter(f)[a];
                assert(s[j] == t[j]);
            }
        } else {
            assert(s.filter(f) == t.filter(f));
            lemma_filter_keeps_distinct(t, f, a, b);
        }
    }
}

/// Law: removing a node undoes registering it, when its key was not
/// registered before.
pub proof fn law_remove_undoes_insert(before: Seq<u64>, key: u64)
    requires
        before.no_duplicates(),
        !before.contains(key),
    ensures
        (seq![key] + before).filter(|x: u64| x != key) == before,
{
    let f = |x: u64| x != key;
    lemma_filter_all(before, key);
    before.lemma_filter_prepend(key, f);
    assert(Seq::<u64>::empty() + before.filter(f) =~= before);
}

proof fn lemma_filter_all(s: Seq<u64>, key: u64)
    requires
        !s.contains(key),
    ensures
        s.filter(|x: u64| x != key) == s,
    decreases s.len(),
{
    reveal(Seq::filter);
    if s.len() > 0 {
        assert(!s.drop_last().contains(key)) by {
            if s.drop_last().contains(key) {
                let j = choose|j: int| 0 <= j < s.drop_last().len() && s.drop_last()[j] == key;
                assert(s[j] == key);
            }
        }
        lemma_filter_all(s.drop_last(), key);
        assert(s.drop_last().push(s.last()) =~= s);
        assert(s.last() != key) by {
            assert(s[s.len() - 1] == s.last());
        }
    } else {
        assert(s.filter(|x: u64| x != key) =~= s);
    }
}

/// How polling a connection's HTTP/1 dispatcher ended.
#[derive(PartialEq, Eq, Structural, Debug, Clone, Copy)]
pub enum H1Outcome {
    /// The connection is done.
    Done,
    /// The connection switches to HTTP/2.
    Switch,
    /// Not yet.
    NotReady,
    /// The dispatcher failed.
    Failed,
}

/// What a live connection does after a poll of its protocol.
#[derive(PartialEq, Eq, Structural, Debug, Clone, Copy)]
pub enum ChannelAction {
    /// The connection ends, well (`true`) or failed; it leaves the count of
    /// live connections.
    Finish(bool),
    /// Wait.
    Wait,
    /// Hand the connection to an HTTP/2 dispatcher and poll again.
    UpgradeH2,
}

/// Decides what a connection speaking HTTP/1 does after a poll.
pub fn on_h1_poll(outcome: H1Outcome) -> (a: ChannelAction)
    ensures
        a == match outcome {
            H1Outcome::Done => ChannelAction::Finish(true),
            H1Outcome::Switch => ChannelAction::UpgradeH2,
            H1Outcome::NotReady => ChannelAction::Wait,
            H1Outcome::Failed => ChannelAction::Finish(false),
        },
{
    match outcome {
        H1Outcome::Done => ChannelAction::Finish(true),
        H1Outcome::Switch => ChannelAction::UpgradeH2,
        H1Outcome::NotReady => ChannelAction::Wait,
        H1Outcome::Failed => ChannelAction::Finish(false),
    }
}

/// Decides what a connection speaking HTTP/2 does after a poll: done
/// (`Some(true)`), failed (`Some(false)`) or not yet (`None`).
pub fn on_h2_poll(outcome: Option<bool>) -> (a: ChannelAction)
    ensures
        a == match outcome {
            Some(ok) => ChannelAction::Finish(ok),
            None => ChannelAction::Wait,
        },
{
    match outcome {
        Some(ok) => ChannelAction::Finish(ok),
        None => ChannelAction::Wait,
    }
}

/// The number of live connections of a worker.
pub struct ChannelCounter {
    n: usize,
}

impl ChannelCounter {
    /// The number of live connections.
    pub closed spec fn view(&self) -> nat {
        self.n as nat
    }

    /// No live connection.
    pub fn new() -> (c: Self)
        ensures
            c.view() == 0,
    {
        ChannelCounter { n: 0 }
    }

    /// A connection starts.
    pub fn add_channel(&mut self)
        requires
            old(self).view() < usize::MAX,
        ensures
            final(self).view() == old(self).view() + 1,
    {
        self.n += 1;
    }

    /// A connection ends.
    pub fn remove_channel(&mut self)
        requires
            old(self).view() > 0,
        ensures
            final(self).view() == old(self).view() - 1,
    {
        self.n -= 1;
    }

    /// The number of live connections.
    pub fn num_channels(&self) -> (n: usize)
        ensures
            n == self.view(),
    {
        self.n
    }
}

/// What a new connection does when its slow-request timer fires.
#[derive(PartialEq, Eq, Structural, Debug, Clone, Copy)]
pub enum SlowRequest {
    /// Answer `408 Request Timeout` over HTTP/1 with the bytes read so far,
    /// then close.
    AnswerTimeout,
    /// Close the connection.
    Close,
}

/// Decides on a fired slow-request timer: a connection whose protocol is
/// not told yet is answered with a timeout; otherwise it is closed.
pub fn on_slow_request(protocol_unknown: bool) -> (a: SlowRequest)
    ensures
        a == if protocol_unknown {
            SlowRequest::AnswerTimeout
        } else {
            SlowRequest::Close
        },
{
    if protocol_unknown {
        SlowRequest::AnswerTimeout
    } else {
        SlowRequest::Close
    }
}

} // verus!
