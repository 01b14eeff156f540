//! The life of an actor that produces a response stream: started, running,
//! stopping, stopped, what each poll of its context does, and the queue of
//! frames the context hands out.
use std::collections::VecDeque;
use vstd::prelude::*;

verus! {

/// The lifecycle state of an actor.
#[derive(PartialEq, Eq, Structural, Debug, Clone, Copy)]
pub enum ActorState {
    /// Created, not yet started.
    Started,
    /// Running.
    Running,
    /// Asked to stop.
    Stopping,
    /// Stopped.
    Stopped,
}

/// The actor hook to run at the start of a poll.
#[derive(PartialEq, Eq, Structural, Debug, Clone, Copy)]
pub enum Hook {
    /// None.
    Nothing,
    /// `started`.
    Started,
    /// `stopping`.
    Stopping,
}

/// What a poll of the context does next, once its futures are polled and
/// none changed anything.
#[derive(PartialEq, Eq, Structural, Debug, Clone, Copy)]
pub enum ContextAction {
    /// Hand out the next frame of the stream.
    Frame,
    /// Run the actor's `stopped` hook and end the stream.
    End,
    /// Run the actor's `stopping` hook and poll again.
    Stopping,
    /// Poll the futures again.
    Again,
    /// Wait.
    Wait,
}

/// The hook a poll starts with, and the state after it: a fresh actor is
/// started and runs; a stopping one is told it is stopping.
pub open spec fn poll_start_spec(state: ActorState) -> (Hook, ActorState) {
    match state {
        ActorState::Started => (Hook::Started, ActorState::Running),
        ActorState::Stopping => (Hook::Stopping, ActorState::Stopping),
        s => (Hook::Nothing, s),
    }
}

/// The hook a poll starts with, and the state after it.
pub fn poll_start(state: ActorState) -> (r: (Hook, ActorState))
    ensures
        r == poll_start_spec(state),
{
    match state {
        ActorState::Started => (Hook::Started, ActorState::Running),
        ActorState::Stopping => (Hook::Stopping, ActorState::Stopping),
        s => (Hook::Nothing, s),
    }
}

/// One decision of a poll: a waiting frame is handed out first. Otherwise a
/// stopped actor ends the stream; a stopping actor is told so once, and
/// after that it runs again while its address is connected or it has work,
/// or ends the stream; a running actor with no address connected and no
/// work starts stopping. Returns the action, the new state and whether the
/// actor was already told it is stopping.
pub open spec fn poll_step_spec(
    state: ActorState,
    prep_stop: bool,
    frame_ready: bool,
    connected: bool,
    items_empty: bool,
) -> (ContextAction, ActorState, bool) {
    if frame_ready {
        (ContextAction::Frame, state, prep_stop)
    } else {
        match state {
            ActorState::Stopped => (ContextAction::End, ActorState::Stopped, prep_stop),
            ActorState::Stopping => if prep_stop {
                if connected || !items_empty {
                    (ContextAction::Again, ActorState::Running, prep_stop)
                } else {
                    (ContextAction::End, ActorState::Stopped, prep_stop)
                }
            } else {
                (ContextAction::Stopping, ActorState::Stopping, true)
            },
            ActorState::Running => if !connected && items_empty {
                (ContextAction::Stopping, ActorState::Stopping, true)
            } else {
                (ContextAction::Wait, ActorState::Running, prep_stop)
            },
            ActorState::Started => (ContextAction::Wait, ActorState::Started, prep_stop),
        }
    }
}

/// One decision of a poll: the action, the new state and whether the actor
/// was already told it is stopping.
pub fn poll_step(
    state: ActorState,
    prep_stop: bool,
    frame_ready: bool,
    connected: bool,
    items_empty: bool,
) -> (r: (ContextAction, ActorState, bool))
    ensures
        r == poll_step_spec(state, prep_stop, frame_ready, connected, items_empty),
{
    if frame_ready {
        return (ContextAction::Frame, state, prep_stop);
    }
    match state {
        ActorState::Stopped => (ContextAction::End, ActorState::Stopped, prep_stop),
        ActorState::Stopping => {
            if prep_stop {
                if connected || !items_empty {
                    (ContextAction::Again, ActorState::Running, prep_stop)
                } else {
                    (ContextAction::End, ActorState::Stopped, prep_stop)
                }
            } else {
                (ContextAction::Stopping, ActorState::Stopping, true)
            }
        },
        ActorState::Running => {
            if !connected && items_empty {
                (ContextAction::Stopping, ActorState::Stopping, true)
            } else {
                (ContextAction::Wait, ActorState::Running, prep_stop)
            }
        },
        ActorState::Started => (ContextAction::Wait, ActorState::Started, prep_stop),
    }
}

/// The state after a stop request: a running actor starts stopping; any
/// other keeps its state. (The stream is then ended.)
pub open spec fn stop_spec(state: ActorState) -> ActorState {
    if state == ActorState::Running {
        ActorState::Stopping
    } else {
        state
    }
}

/// The state after a stop request.
pub fn stop(state: ActorState) -> (s: ActorState)
    ensures
        s == stop_spec(state),
{
    if state == ActorState::Running {
        ActorState::Stopping
    } else {
        state
    }
}

/// The state after a terminate request: stopped.
pub fn terminate(state: ActorState) -> (s: ActorState)
    ensures
        s == ActorState::Stopped,
{
    ActorState::Stopped
}

/// A frame of a response stream: the response head, a chunk of body, or
/// (`Payload(None)`) the end of the body.
pub enum Frame<M> {
    /// The response.
    Message(M),
    /// A chunk of body, or the end of the body.
    Payload(Option<Vec<u8>>),
}

/// The context of an actor that writes a response: its state and the frames
/// queued for the stream, front first.
pub struct HttpContext<M> {
    actor: bool,
    state: ActorState,
    stream: VecDeque<Frame<M>>,
}

/// One step on a context's queue of frames: the frames handed out, followed
/// by the queue after the step, are the queue before it followed by the
/// frames queued in the step.
pub open spec fn frame_step<M>(
    before: Seq<Frame<M>>,
    after: Seq<Frame<M>>,
    queued: Seq<Frame<M>>,
    handed: Seq<Frame<M>>,
) -> bool {
    handed + after == before + queued
}

impl<M> HttpContext<M> {
    /// The frames queued, front first.
    pub closed spec fn frames(&self) -> Seq<Frame<M>> {
        self.stream@
    }

    /// The actor's state.
    pub closed spec fn actor_state(&self) -> ActorState {
        self.state
    }

    /// Whether the actor is set.
    pub closed spec fn has_actor(&self) -> bool {
        self.actor
    }

    /// A context with nothing queued and no actor yet, the actor to be
    /// started.
    pub fn new() -> (c: Self)
        ensures
            c.frames() == Seq::<Frame<M>>::empty(),
            c.actor_state() == ActorState::Started,
            !c.has_actor(),
    {
        HttpContext { actor: false, state: ActorState::Started, stream: VecDeque::new() }
    }

    /// Sets the actor: polls now run it.
    pub fn set_actor(&mut self)
        ensures
            final(self).has_actor(),
            final(self).frames() == old(self).frames(),
            final(self).actor_state() == old(self).actor_state(),
    {
        self.actor = true;
    }

    /// The actor's state.
    pub fn state(&self) -> (s: ActorState)
        ensures
            s == self.actor_state(),
    {
        self.state
    }

    /// Queues the response.
    pub fn start(&mut self, response: M)
        ensures
            frame_step(old(self).frames(), final(self).frames(), seq![Frame::Message(response)], Seq::empty()),
            final(self).has_actor() == old(self).has_actor(),
            final(self).frames() == old(self).frames().push(Frame::Message(response)),
            final(self).actor_state() == old(self).actor_state(),
    {
        let ghost f = Frame::Message(response);
        self.stream.push_back(Frame::Message(response));
        assert(Seq::<Frame<M>>::empty() + self.frames() =~= old(self).frames() + seq![f]);
    }

    /// Queues a chunk of body.
    pub fn write(&mut self, data: Vec<u8>)
        ensures
            frame_step(old(self).frames(), final(self).frames(), seq![Frame::Payload(Some(data))], Seq::empty()),
            final(self).has_actor() == old(self).has_actor(),
            final(self).frames() == old(self).frames().push(Frame::Payload(Some(data))),
            final(self).actor_state() == old(self).actor_state(),
    {
        let ghost f = Frame::Payload(Some(data));
        self.stream.push_back(Frame::Payload(Some(data)));
        assert(Seq::<Frame<M>>::empty() + self.frames() =~= old(self).frames() + seq![f]);
    }

    /// Queues the end of the body.
    pub fn write_eof(&mut self)
        ensures
            frame_step(old(self).frames(), final(self).frames(), seq![Frame::Payload(None)], Seq::empty()),
            final(self).has_actor() == old(self).has_actor(),
            final(self).frames() == old(self).frames().push(Frame::Payload(None)),
            final(self).actor_state() == old(self).actor_state(),
    {
        let ghost f = Frame::<M>::Payload(None);
        self.stream.push_back(Frame::Payload(None));
        assert(Seq::<Frame<M>>::empty() + self.frames() =~= old(self).frames() + seq![f]);
    }

    /// Asks the actor to stop: a running actor starts stopping, and the end
    /// of the body is queued.
    pub fn stop(&mut self)
        ensures
            frame_step(old(self).frames(), final(self).frames(), seq![Frame::Payload(None)], Seq::empty()),
            final(self).has_actor() == old(self).has_actor(),
            final(self).frames() == old(self).frames().push(Frame::Payload(None)),
            final(self).actor_state() == stop_spec(old(self).actor_state()),
    {
        self.state = stop(self.state);
        self.write_eof();
    }

    /// Stops the actor at once.
    pub fn terminate(&mut self)
        ensures
            final(self).has_actor() == old(self).has_actor(),
            final(self).frames() == old(self).frames(),
            final(self).actor_state() == ActorState::Stopped,
    {
        self.state = terminate(self.state);
    }

    /// The hook a poll starts with; the state moves on as `poll_start` says.
    pub fn poll_start(&mut self) -> (h: Hook)
        ensures
            old(self).has_actor() ==> (h, final(self).actor_state()) == poll_start_spec(
                old(self).actor_state(),
            ),
            !old(self).has_actor() ==> h == Hook::Nothing && final(self).actor_state() == old(
                self,
            ).actor_state(),
            final(self).frames() == old(self).frames(),
            final(self).has_actor() == old(self).has_actor(),
    {
        if !self.actor {
            return Hook::Nothing;
        }
        let (h, st) = poll_start(self.state);
        self.state = st;
        h
    }

    /// One decision of a poll, once the actor's futures are polled: the
    /// oldest queued frame is handed out when there is one; otherwise the
    /// state moves on as `poll_step` says (the stream ends, the actor is told
    /// it is stopping, it runs again, or the poll waits). Returns the action,
    /// the frame handed out, and whether the actor was told it is stopping.
    pub fn poll_frame(&mut self, prep_stop: bool, connected: bool, items_empty: bool) -> (r: (
        ContextAction,
        Option<Frame<M>>,
        bool,
    ))
        ensures
            final(self).has_actor() == old(self).has_actor(),
            !old(self).has_actor() ==> {
                &&& r.0 == ContextAction::Wait
                &&& r.1 is None
                &&& r.2 == prep_stop
                &&& final(self).frames() == old(self).frames()
                &&& final(self).actor_state() == old(self).actor_state()
            },
            old(self).has_actor() ==> ({
                let (a, st, p) = poll_step_spec(
                    old(self).actor_state(),
                    prep_stop,
                    old(self).frames().len() > 0,
                    connected,
                    items_empty,
                );
                &&& r.0 == a
                &&& r.2 == p
                &&& final(self).actor_state() == st
            }),
            old(self).has_actor() && old(self).frames().len() > 0 ==> {
                &&& r.1 == Some(old(self).frames()[0])
                &&& final(self).frames() == old(self).frames().drop_first()
                &&& frame_step(
                    old(self).frames(),
                    final(self).frames(),
                    Seq::empty(),
                    seq![old(self).frames()[0]],
                )
            },
            old(self).has_actor() && old(self).frames().len() == 0 ==> {
                &&& r.1 is None
                &&& final(self).frames() == old(self).frames()
            },
    {
        if !self.actor {
            return (ContextAction::Wait, None, prep_stop);
        }
        let ready = self.stream.len() > 0;
        let (a, st, p) = poll_step(self.state, prep_stop, ready, connected, items_empty);
        self.state = st;
        let f = self.stream.pop_front();
        proof {
            if old(self).frames().len() > 0 {
                assert(seq![old(self).frames()[0]] + self.frames() =~= old(self).frames() + Seq::<
                    Frame<M>,
                >::empty());
            }
        }
        (a, f, p)
    }
}

/// Law: a context hands out its frames in the order they were queued. Over
/// any run of steps, each queueing frames at the back or handing out the
/// frame at the front, the frames handed out, in order, followed by those
/// still queued, are the queue at the start followed by every frame queued.
pub proof fn law_frames_in_order<M>(
    queues: Seq<Seq<Frame<M>>>,
    queued: Seq<Seq<Frame<M>>>,
    handed: Seq<Seq<Frame<M>>>,
)
    requires
        queues.len() == queued.len() + 1,
        handed.len() == queued.len(),
        forall|i: int|
            0 <= i < queued.len() ==> frame_step(
                #[trigger] queues[i],
                queues[i + 1],
                queued[i],
                handed[i],
            ),
    ensures
        handed.flatten() + queues.last() == queues[0] + queued.flatten(),
    decreases queued.len(),
{
    let n = queued.len() as int;
    if n == 0 {
        assert(handed.flatten() =~= Seq::<Frame<M>>::empty());
        assert(queued.flatten() =~= Seq::<Frame<M>>::empty());
        assert(Seq::<Frame<M>>::empty() + queues.last() =~= queues[0] + Seq::<Frame<M>>::empty());
    } else {
        let q2 = queues.drop_last();
        let a2 = queued.drop_last();
        let h2 = handed.drop_last();
        assert forall|i: int| 0 <= i < a2.len() implies frame_step(
            #[trigger] q2[i],
            q2[i + 1],
            a2[i],
            h2[i],
        ) by {
            assert(frame_step(queues[i], queues[i + 1], queued[i], handed[i]));
        }
        law_frames_in_order(q2, a2, h2);
        assert(handed =~= h2.push(handed[n - 1]));
        assert(queued =~= a2.push(queued[n - 1]));
        h2.lemma_flatten_push(handed[n - 1]);
        a2.lemma_flatten_push(queued[n - 1]);
        assert(frame_step(queues[n - 1], queues[n], queued[n - 1], handed[n - 1]));
        assert(handed.flatten() + queues.last() =~= h2.flatten() + (handed[n - 1] + queues[n]));
        assert(queues[0] + queued.flatten() =~= (queues[0] + a2.flatten()) + queued[n - 1]);
    }
}

/// Law: the stream ends only when no frame is queued and the actor is
/// stopped: a poll whose decision is `End` hands out no frame, found the
/// queue empty, and leaves the actor stopped.
pub proof fn law_end_after_frames(
    state: ActorState,
    prep_stop: bool,
    frame_ready: bool,
    connected: bool,
    items_empty: bool,
)
    ensures
        poll_step_spec(state, prep_stop, frame_ready, connected, items_empty).0 == ContextAction::End
            ==> !frame_ready && poll_step_spec(state, prep_stop, frame_ready, connected, items_empty).1
            == ActorState::Stopped,
{
}

/// Law: a running actor stops on its own only when its address is no longer
/// held and it has no pending work. With no frame waiting, a running actor
/// that is still connected or still has work keeps running and the poll
/// waits; one with neither is told it is stopping.
pub proof fn law_running_actor_stops_only_when_idle(
    prep_stop: bool,
    connected: bool,
    items_empty: bool,
)
    ensures
        connected || !items_empty ==> poll_step_spec(
            ActorState::Running,
            prep_stop,
            false,
            connected,
            items_empty,
        ) == (ContextAction::Wait, ActorState::Running, prep_stop),
        !connected && items_empty ==> poll_step_spec(
            ActorState::Running,
            prep_stop,
            false,
            connected,
            items_empty,
        ) == (ContextAction::Stopping, ActorState::Stopping, true),
        forall|frame_ready: bool|
            poll_step_spec(ActorState::Running, prep_stop, frame_ready, connected, items_empty).1
                == ActorState::Stopping ==> !connected && items_empty,
{
}

} // verus!
