//! The decisions of an HTTP/2 connection: routing each stream to a handler,
//! the life of each stream's task, dropping finished streams, and the bytes
//! read ahead while telling the protocol, which are handed out first.
use std::collections::VecDeque;
use vstd::prelude::*;

verus! {

/// Whether `prefix` starts `path`.
pub open spec fn starts_with(path: Seq<char>, prefix: Seq<char>) -> bool {
    prefix.len() <= path.len() && path.subrange(0, prefix.len() as int) == prefix
}

/// The first handler whose prefix starts the path, if any.
pub open spec fn route_of(path: Seq<char>, prefixes: Seq<Seq<char>>) -> Option<int> {
    if exists|i: int| 0 <= i < prefixes.len() && starts_with(path, #[trigger] prefixes[i]) {
        Some(
            choose|i: int|
                0 <= i < prefixes.len() && starts_with(path, #[trigger] prefixes[i]) && forall|
                    j: int,
                | 0 <= j < i ==> !starts_with(path, #[trigger] prefixes[j]),
        )
    } else {
        None
    }
}

fn str_starts_with(path: &Vec<char>, prefix: &Vec<char>) -> (b: bool)
    ensures
        b == starts_with(path@, prefix@),
{
    if prefix.len() > path.len() {
        return false;
    }
    let mut i: usize = 0;
    while i < prefix.len()
        invariant
            i <= prefix@.len(),
            prefix@.len() <= path@.len(),
            forall|j: int| 0 <= j < i ==> path@[j] == prefix@[j],
        decreases prefix@.len() - i,
    {
        if path[i] != prefix[i] {
            assert(path@.subrange(0, prefix@.len() as int)[i as int] != prefix@[i as int]);
            return false;
        }
        i += 1;
    }
    assert(path@.subrange(0, prefix@.len() as int) =~= prefix@);
    true
}

/// Picks the handler of a request: the first whose prefix starts its path;
/// none when no prefix does (the request is then answered 404).
pub fn route(path: &str, prefixes: &Vec<String>) -> (r: Option<usize>)
    ensures
        match r {
            Some(i) => route_of(path@, prefixes@.map_values(|p: String| p@)) == Some(i as int),
            None => route_of(path@, prefixes@.map_values(|p: String| p@)) is None,
        },
{
    let ghost ps = prefixes@.map_values(|p: String| p@);
    let chars = crate::router::str_chars(path);
    let mut i: usize = 0;
    while i < prefixes.len()
        invariant
            i <= prefixes@.len(),
            ps == prefixes@.map_values(|p: String| p@),
            chars@ == path@,
            forall|j: int| 0 <= j < i ==> !starts_with(path@, #[trigger] ps[j]),
        decreases prefixes@.len() - i,
    {
        let p = crate::router::str_chars(prefixes[i].as_str());
        if str_starts_with(&chars, &p) {
            assert(starts_with(path@, ps[i as int]));
            proof {
                let c = choose|k: int|
                    0 <= k < ps.len() && starts_with(path@, #[trigger] ps[k]) && forall|j: int|
                        0 <= j < k ==> !starts_with(path@, #[trigger] ps[j]);
                if c < i {
                } else if c > i {
                    assert(!starts_with(path@, ps[i as int]));
                }
            }
            return Some(i);
        }
        i += 1;
    }
    None
}

/// The state of a stream's task.
#[derive(PartialEq, Eq, Structural, Debug, Clone, Copy)]
pub struct EntryState {
    /// The response is written.
    pub eof: bool,
    /// The task is done.
    pub finished: bool,
    /// The task failed.
    pub error: bool,
}

/// What to poll for a stream.
#[derive(PartialEq, Eq, Structural, Debug, Clone, Copy)]
pub enum EntryAction {
    /// Poll the task to write its response.
    PollIo,
    /// Poll the task to its end.
    PollTask,
    /// Nothing.
    Nothing,
}

/// What polling gave.
#[derive(PartialEq, Eq, Structural, Debug, Clone, Copy)]
pub enum PollResult {
    /// Ready; for writing the response, whether the task is done with it.
    Ready(bool),
    /// Not yet.
    NotReady,
    /// It failed.
    Failed,
}

impl EntryState {
    /// A stream that has just come in.
    pub fn new() -> (e: Self)
        ensures
            e == (EntryState { eof: false, finished: false, error: false }),
    {
        EntryState { eof: false, finished: false, error: false }
    }

    /// What to poll: the response until it is written, then the task until
    /// it is done.
    pub fn action(&self) -> (a: EntryAction)
        ensures
            a == if !self.eof {
                EntryAction::PollIo
            } else if !self.finished {
                EntryAction::PollTask
            } else {
                EntryAction::Nothing
            },
    {
        if !self.eof {
            EntryAction::PollIo
        } else if !self.finished {
            EntryAction::PollTask
        } else {
            EntryAction::Nothing
        }
    }

    /// Takes what writing the response gave. Returns whether something
    /// happened, and whether the stream is to be reset for an internal error.
    pub fn on_io(&mut self, r: PollResult) -> (progress_reset: (bool, bool))
        requires
            !old(self).eof,
        ensures
            match r {
                PollResult::Ready(done) => progress_reset == (true, false) && *final(self) == (
                EntryState { eof: true, finished: old(self).finished || done, ..*old(self) }),
                PollResult::NotReady => progress_reset == (false, false) && *final(self) == *old(self),
                PollResult::Failed => progress_reset == (false, true) && *final(self) == (
                EntryState { eof: true, error: true, ..*old(self) }),
            },
    {
        match r {
            PollResult::Ready(done) => {
                self.eof = true;
                if done {
                    self.finished = true;
                }
                (true, false)
            },
            PollResult::NotReady => (false, false),
            PollResult::Failed => {
                self.eof = true;
                self.error = true;
                (false, true)
            },
        }
    }

    /// Takes what polling the task to its end gave; returns whether it
    /// ended well.
    pub fn on_task(&mut self, r: PollResult) -> (progress: bool)
        requires
            old(self).eof,
            !old(self).finished,
        ensures
            match r {
                PollResult::Ready(_) => progress && *final(self) == (EntryState {
                    finished: true,
                    ..*old(self)
                }),
                PollResult::NotReady => !progress && *final(self) == *old(self),
                PollResult::Failed => !progress && *final(self) == (EntryState {
                    finished: true,
                    error: true,
                    ..*old(self)
                }),
            },
    {
        match r {
            PollResult::Ready(_) => {
                self.finished = true;
                true
            },
            PollResult::NotReady => false,
            PollResult::Failed => {
                self.error = true;
                self.finished = true;
                false
            },
        }
    }

    /// Whether the stream can be dropped: written and done, or failed.
    pub fn is_done(&self) -> (b: bool)
        ensures
            b == (self.eof && self.finished || self.error),
    {
        self.eof && self.finished || self.error
    }
}

/// The number of streams at the front that can be dropped.
pub open spec fn done_prefix(tasks: Seq<EntryState>) -> nat
    decreases tasks.len(),
{
    if tasks.len() == 0 {
        0
    } else if tasks[0].eof && tasks[0].finished || tasks[0].error {
        1 + done_prefix(tasks.drop_first())
    } else {
        0
    }
}

/// Drops the streams at the front that can be dropped, stopping at the
/// first that cannot; the streams after it stay even when done.
pub fn cleanup<T>(tasks: &mut VecDeque<(EntryState, T)>)
    ensures
        final(tasks)@ == old(tasks)@.skip(
            done_prefix(old(tasks)@.map_values(|e: (EntryState, T)| e.0)) as int,
        ),
{
    let ghost st0 = old(tasks)@.map_values(|e: (EntryState, T)| e.0);
    let ghost mut k: int = 0;
    proof {
        lemma_done_prefix_bound(st0);
    }
    while tasks.len() > 0
        invariant
            st0 == old(tasks)@.map_values(|e: (EntryState, T)| e.0),
            0 <= k <= done_prefix(st0),
            done_prefix(st0) <= st0.len(),
            done_prefix(st0) == k + done_prefix(st0.skip(k)),
            tasks@ == old(tasks)@.skip(k),
        ensures
            0 <= k <= done_prefix(st0),
            done_prefix(st0) == k + done_prefix(st0.skip(k)),
            tasks@ == old(tasks)@.skip(k),
            tasks@.len() == 0 || done_prefix(st0.skip(k)) == 0,
        decreases tasks@.len(),
    {
        let done = tasks[0].0.eof && tasks[0].0.finished || tasks[0].0.error;
        proof {
            assert(st0.skip(k)[0] == tasks@[0].0);
            assert(st0.skip(k).drop_first() =~= st0.skip(k + 1));
        }
        if done {
            tasks.pop_front();
            proof {
                k = k + 1;
                assert(tasks@ =~= old(tasks)@.skip(k));
            }
        } else {
            break;
        }
    }
    proof {
        if tasks@.len() == 0 {
            assert(st0.skip(k) =~= Seq::<EntryState>::empty());
        }
        assert(k == done_prefix(st0));
    }
}

proof fn lemma_done_prefix_bound(s: Seq<EntryState>)
    ensures
        done_prefix(s) <= s.len(),
        done_prefix(s) == 0 + done_prefix(s.skip(0)),
    decreases s.len(),
{
    assert(s.skip(0) =~= s);
    if s.len() > 0 {
        lemma_done_prefix_bound(s.drop_first());
    }
}

/// Whether a stream is done: ended and finished, or failed.
pub open spec fn stream_done(e: EntryState) -> bool {
    e.eof && e.finished || e.error
}

/// Law: streams leave the connection from the front only, and only when
/// done. The streams that a cleanup drops are all done, the first stream it
/// keeps is not, and the streams kept are the rest, in order.
pub proof fn law_streams_leave_from_front(tasks: Seq<EntryState>)
    ensures
        done_prefix(tasks) <= tasks.len(),
        forall|i: int| 0 <= i < done_prefix(tasks) ==> stream_done(#[trigger] tasks[i]),
        done_prefix(tasks) < tasks.len() ==> !stream_done(tasks[done_prefix(tasks) as int]),
    decreases tasks.len(),
{
    lemma_done_prefix_bound(tasks);
    if tasks.len() > 0 && stream_done(tasks[0]) {
        let rest = tasks.drop_first();
        law_streams_leave_from_front(rest);
        assert forall|i: int| 0 <= i < done_prefix(tasks) implies stream_done(#[trigger] tasks[i]) by {
            if i > 0 {
                assert(tasks[i] == rest[i - 1]);
            }
        }
        if done_prefix(tasks) < tasks.len() {
            assert(tasks[done_prefix(tasks) as int] == rest[done_prefix(rest) as int]);
        }
    }
}

/// The states of a queue of streams.
pub open spec fn stream_states<T>(tasks: Seq<(EntryState, T)>) -> Seq<EntryState> {
    tasks.map_values(|e: (EntryState, T)| e.0)
}

/// What identifies the streams of a queue, in order.
pub open spec fn stream_ids<T>(tasks: Seq<(EntryState, T)>) -> Seq<T> {
    tasks.map_values(|e: (EntryState, T)| e.1)
}

/// Law: over a whole run of polls of a connection, streams leave in the
/// order they arrived, and each only when done. Between two cleanups the
/// streams may progress and new streams may join at the back; each cleanup
/// drops the done streams at the front. Then the streams that left, in the
/// order they left, followed by those still in flight, are the streams at
/// the start followed by every stream that arrived, in order; and every
/// stream that left was done when it left.
pub proof fn law_streams_leave_in_order<T>(
    lines: Seq<Seq<(EntryState, T)>>,
    arrived: Seq<Seq<T>>,
    left: Seq<Seq<T>>,
)
    requires
        lines.len() == arrived.len() + 1,
        left.len() == arrived.len(),
        forall|i: int|
            0 <= i < arrived.len() ==> #[trigger] left[i] == stream_ids(lines[i]).take(
                done_prefix(stream_states(lines[i])) as int,
            ),
        forall|i: int|
            0 <= i < arrived.len() ==> stream_ids(#[trigger] lines[i + 1]) == stream_ids(
                lines[i],
            ).skip(done_prefix(stream_states(lines[i])) as int) + arrived[i],
    ensures
        left.flatten() + stream_ids(lines.last()) == stream_ids(lines[0]) + arrived.flatten(),
        forall|i: int, j: int|
            0 <= i < arrived.len() && 0 <= j < done_prefix(stream_states(lines[i])) ==> stream_done(
                #[trigger] lines[i][j].0,
            ),
    decreases arrived.len(),
{
    assert forall|i: int, j: int|
        0 <= i < arrived.len() && 0 <= j < done_prefix(stream_states(lines[i])) implies stream_done(
        #[trigger] lines[i][j].0,
    ) by {
        law_streams_leave_from_front(stream_states(lines[i]));
        assert(stream_states(lines[i])[j] == lines[i][j].0);
    }
    let n = arrived.len() as int;
    if n == 0 {
        assert(left.flatten() =~= Seq::<T>::empty());
        assert(arrived.flatten() =~= Seq::<T>::empty());
        assert(Seq::<T>::empty() + stream_ids(lines.last()) =~= stream_ids(lines[0]) + Seq::<
            T,
        >::empty());
    } else {
        let l2 = lines.drop_last();
        let a2 = arrived.drop_last();
        let t2 = left.drop_last();
        assert forall|i: int| 0 <= i < a2.len() implies #[trigger] t2[i] == stream_ids(l2[i]).take(
            done_prefix(stream_states(l2[i])) as int,
        ) by {
            assert(left[i] == stream_ids(lines[i]).take(done_prefix(stream_states(lines[i])) as int));
        }
        assert forall|i: int| 0 <= i < a2.len() implies stream_ids(#[trigger] l2[i + 1]) == stream_ids(
            l2[i],
        ).skip(done_prefix(stream_states(l2[i])) as int) + a2[i] by {
            assert(stream_ids(lines[i + 1]) == stream_ids(lines[i]).skip(
                done_prefix(stream_states(lines[i])) as int,
            ) + arrived[i]);
        }
        law_streams_leave_in_order(l2, a2, t2);
        assert(left =~= t2.push(left[n - 1]));
        assert(arrived =~= a2.push(arrived[n - 1]));
        t2.lemma_flatten_push(left[n - 1]);
        a2.lemma_flatten_push(arrived[n - 1]);
        let ids = stream_ids(lines[n - 1]);
        let k = done_prefix(stream_states(lines[n - 1])) as int;
        lemma_done_prefix_bound(stream_states(lines[n - 1]));
        assert(left[n - 1] == ids.take(k));
        assert(stream_ids(lines[n]) == ids.skip(k) + arrived[n - 1]);
        assert(ids =~= ids.take(k) + ids.skip(k));
        assert(l2.last() == lines[n - 1]);
        assert(left.flatten() + stream_ids(lines.last()) =~= t2.flatten() + (left[n - 1]
            + stream_ids(lines[n])));
        assert(stream_ids(lines[0]) + arrived.flatten() =~= (stream_ids(lines[0]) + a2.flatten())
            + arrived[n - 1]);
    }
}

/// What polling the connection for a new stream gave.
#[derive(PartialEq, Eq, Structural, Debug, Clone, Copy)]
pub enum ServerEvent {
    /// Nothing now.
    NotReady,
    /// The connection failed.
    Failed,
    /// The peer closed the connection.
    Closed,
    /// A new stream.
    Stream,
}

/// Takes what polling the connection gave (nothing is polled once it is
/// disconnected). Returns whether something happened and whether it is now
/// disconnected; on close, every task is told so.
pub fn on_server_event(disconnected: bool, ev: ServerEvent) -> (r: (bool, bool))
    ensures
        disconnected ==> r == (false, true),
        !disconnected ==> r == match ev {
            ServerEvent::NotReady => (false, false),
            ServerEvent::Failed => (false, true),
            ServerEvent::Closed => (true, true),
            ServerEvent::Stream => (true, false),
        },
{
    if disconnected {
        return (false, true);
    }
    match ev {
        ServerEvent::NotReady => (false, false),
        ServerEvent::Failed => (false, true),
        ServerEvent::Closed => (true, true),
        ServerEvent::Stream => (true, false),
    }
}

/// How a round of polling ends: when nothing happened, the connection is
/// done if no stream is left and it is disconnected, else it waits; when
/// something happened it goes round again (`None`).
pub fn round_outcome(progress: bool, no_tasks: bool, disconnected: bool) -> (r: Option<bool>)
    ensures
        r == if progress {
            None
        } else {
            Some(no_tasks && disconnected)
        },
{
    if progress {
        None
    } else {
        Some(no_tasks && disconnected)
    }
}

/// Flow-control capacity to release: the payload's capacity when it
/// changed since the last release.
pub fn capacity_to_release(released: usize, capacity: usize) -> (r: Option<usize>)
    ensures
        r == if released != capacity {
            Some(capacity)
        } else {
            None::<usize>
        },
{
    if released != capacity {
        Some(capacity)
    } else {
        None
    }
}

/// Bytes read while telling the protocol, handed out before anything is
/// read from the connection.
pub struct Unread {
    bytes: Option<Vec<u8>>,
}

impl Unread {
    /// The bytes still to hand out, if any.
    pub closed spec fn view(&self) -> Option<Seq<u8>> {
        match self.bytes {
            Some(b) => Some(b@),
            None => None,
        }
    }

    /// Keeps `bytes` to hand out first.
    pub fn new(bytes: Vec<u8>) -> (u: Self)
        ensures
            u.view() == Some(bytes@),
    {
        Unread { bytes: Some(bytes) }
    }

    /// Hands out at most `max` of the kept bytes, or none when nothing is
    /// kept (the connection is read then). What is left is kept, unless
    /// nothing is left.
    pub fn read(&mut self, max: usize) -> (r: Option<Vec<u8>>)
        ensures
            match old(self).view() {
                None => r is None && final(self).view() is None,
                Some(b) => {
                    let n = if max < b.len() {
                        max as int
                    } else {
                        b.len() as int
                    };
                    &&& r is Some
                    &&& r->0@ == b.take(n)
                    &&& final(self).view() == if b.len() > n {
                        Some(b.skip(n))
                    } else {
                        None::<Seq<u8>>
                    }
                },
            },
    {
        let taken = self.bytes.take();
        match taken {
            None => None,
            Some(b) => {
                let n = if max < b.len() {
                    max
                } else {
                    b.len()
                };
                let mut head: Vec<u8> = Vec::new();
                let mut rest: Vec<u8> = Vec::new();
                let mut i: usize = 0;
                while i < b.len()
                    invariant
                        i <= b@.len(),
                        n <= b@.len(),
                        head@ == b@.take(if i < n { i as int } else { n as int }),
                        rest@ == if i <= n { Seq::<u8>::empty() } else { b@.subrange(n as int, i as int) },
                    decreases b@.len() - i,
                {
                    if i < n {
                        head.push(b[i]);
                    } else {
                        rest.push(b[i]);
                    }
                    i += 1;
                    assert(head@ =~= b@.take(if i < n { i as int } else { n as int }));
                    assert(rest@ =~= if i <= n { Seq::<u8>::empty() } else { b@.subrange(n as int, i as int) });
                }
                if b.len() > n {
                    assert(rest@ =~= b@.skip(n as int));
                    self.bytes = Some(rest);
                }
                Some(head)
            },
        }
    }
}

} // verus!
