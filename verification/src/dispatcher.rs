//! The decisions of the HTTP/1 connection dispatcher.
//!
//! The dispatcher reads requests from a connection, hands them to a service,
//! writes the responses back, and keeps the connection alive or closes it.
//! This module holds its state and decides, from each thing that happened on
//! the connection (a message read, a response sent, a timer fired), what
//! changes and what is to be done next. Reading and writing the connection,
//! calling the service and running the timer are done by its driver, which
//! hands back what came of each action.
use std::collections::VecDeque;
use vstd::prelude::*;

verus! {

/// The most requests read ahead and not yet handled.
pub const MAX_PIPELINED_MESSAGES: usize = 16;

/// Status of a response sent for a malformed request.
pub const BAD_REQUEST: u16 = 400;

/// Status of a response sent when the first request came too slowly.
pub const REQUEST_TIMEOUT: u16 = 408;

/// Status of a response sent on an internal error.
pub const INTERNAL_SERVER_ERROR: u16 = 500;

/// Incoming request type
#[derive(PartialEq, Eq, Structural, Debug, Clone, Copy)]
pub enum MessageType {
    /// A request with no payload.
    NoPayload,
    /// A request followed by a payload.
    Payload,
    /// A request the dispatcher does not handle (it is handed on).
    Unhandled,
}

/// Flags of a connection.
#[derive(PartialEq, Eq, Structural, Debug, Clone, Copy)]
pub struct Flags {
    /// A request was read.
    pub started: bool,
    /// Keep-alive is enabled for the server.
    pub keepalive_enabled: bool,
    /// The last response keeps the connection alive.
    pub keepalive: bool,
    /// Polled once.
    pub polled: bool,
    /// Everything written is flushed.
    pub flushed: bool,
    /// The connection is shutting down.
    pub shutdown: bool,
    /// The peer is gone, or the connection is to be closed.
    pub disconnected: bool,
}

/// How a body is sent.
#[derive(PartialEq, Eq, Structural, Debug, Clone, Copy)]
pub enum BodyKind {
    /// No body.
    Empty,
    /// Bytes, sent as one chunk.
    Binary,
    /// A stream, sent chunk by chunk.
    Streaming,
}

/// The response being sent.
#[derive(PartialEq, Eq, Structural, Debug, Clone, Copy)]
pub enum Outgoing {
    /// The response of the service.
    Service,
    /// A response made by the dispatcher, with this status and no body.
    Error(u16),
}

/// What the dispatcher is doing with the current response.
#[derive(PartialEq, Eq, Structural, Debug, Clone, Copy)]
pub enum State {
    /// Nothing.
    Idle,
    /// Waiting for the service.
    ServiceCall,
    /// Sending the response head.
    SendResponse(Outgoing, BodyKind),
    /// Sending the body: whether a stream is still open, and whether a chunk
    /// is waiting to be sent.
    SendPayload { stream: bool, chunk: bool },
}

/// A message read ahead.
pub enum Message<R> {
    /// A request.
    Item(R),
    /// An error response with this status.
    Error(u16),
}

/// Why a connection failed.
#[derive(PartialEq, Eq, Structural, Debug, Clone, Copy)]
pub enum DispatchError {
    /// The service failed.
    Service,
    /// Reading or writing the connection failed.
    Io,
    /// A request could not be parsed.
    Parse,
    /// A payload chunk or end came with no request to take it.
    InternalError,
    /// The response was written while the request payload was not read.
    PayloadIsNotConsumed,
    /// The peer did not close in time during shutdown.
    DisconnectTimeout,
    /// A timer or body stream failed.
    Unknown,
}

/// An error to set on the request payload.
#[derive(PartialEq, Eq, Structural, Debug, Clone, Copy)]
pub enum PayloadError {
    /// The connection ended before the payload did.
    Incomplete,
    /// The payload's encoding is broken.
    EncodingCorrupted,
}

impl PayloadError {
    /// The error's message.
    pub fn message(&self) -> (m: &'static str)
        ensures
            m@ == match *self {
                PayloadError::Incomplete => "A payload reached EOF, but is not complete."@,
                PayloadError::EncodingCorrupted => "Can not decode content-encoding."@,
            },
    {
        match self {
            PayloadError::Incomplete => "A payload reached EOF, but is not complete.",
            PayloadError::EncodingCorrupted => "Can not decode content-encoding.",
        }
    }
}

/// What reading the connection gave.
pub enum Incoming<R> {
    /// A request, and whether a payload follows it.
    Message(R, bool),
    /// A chunk of payload.
    Chunk,
    /// The end of the payload.
    Eof,
    /// The peer closed the connection.
    Closed,
    /// Nothing more to read now.
    NotReady,
    /// Reading failed.
    IoError,
    /// The request is malformed.
    ParseError,
}

/// What to do with the request payload.
#[derive(PartialEq, Eq, Structural, Debug, Clone, Copy)]
pub enum Feed {
    /// Nothing.
    Nothing,
    /// Feed it the chunk read.
    Data,
    /// Feed it its end, and let it go.
    Eof,
    /// Set this error on it, and let it go.
    Error(PayloadError),
}

/// What the driver does after a read.
pub struct ReadStep<R> {
    /// A request to hand to the service now.
    pub handle: Option<R>,
    /// What to do with the request payload.
    pub feed: Feed,
    /// Whether to go on reading.
    pub more: bool,
}

/// What came of calling or polling the service.
#[derive(PartialEq, Eq, Structural, Debug, Clone, Copy)]
pub enum ServiceOutcome {
    /// The response is ready, with this kind of body.
    Ready(BodyKind),
    /// Not yet.
    NotReady,
    /// The service failed.
    Failed,
}

/// What came of handing a message to the connection.
#[derive(PartialEq, Eq, Structural, Debug, Clone, Copy)]
pub enum SinkOutcome {
    /// Taken.
    Ready,
    /// Not taken now; to be handed again.
    NotReady,
    /// Writing failed.
    Failed,
}

/// What polling the body stream gave.
#[derive(PartialEq, Eq, Structural, Debug, Clone, Copy)]
pub enum StreamOutcome {
    /// A chunk, with what came of handing it to the connection.
    Chunk(SinkOutcome),
    /// The end of the stream.
    End,
    /// Not yet.
    NotReady,
    /// The stream failed.
    Failed,
}

/// The next thing the driver does for the response.
pub enum ResponseAction<R> {
    /// Nothing to send: read more or stop.
    Nothing,
    /// Call the service with this request, then report with `on_service`.
    CallService(R),
    /// Poll the service, then report with `on_service`.
    PollService,
    /// Send the response head, then report with `on_response_sent`.
    SendResponse(Outgoing),
    /// Send the waiting chunk, then report with `on_chunk_sent`.
    SendChunk,
    /// Poll the body stream, then report with `on_stream`.
    PollStream,
}

/// How a step of sending ended.
#[derive(PartialEq, Eq, Structural, Debug, Clone, Copy)]
pub enum Step {
    /// Go on.
    Progress,
    /// Stop until the connection is ready again.
    Wait,
    /// Fail the connection; the flag tells whether the request payload is to
    /// get the `Incomplete` error.
    Fail(DispatchError, bool),
}

/// What the keep-alive timer gave.
#[derive(PartialEq, Eq, Structural, Debug, Clone, Copy)]
pub enum TimerEvent {
    /// It fired; its deadline.
    Fired(u64),
    /// Not yet.
    NotReady,
    /// The timer failed.
    Failed,
}

/// What to do with the keep-alive timer.
#[derive(PartialEq, Eq, Structural, Debug, Clone, Copy)]
pub enum TimerAction {
    /// Leave it.
    Keep,
    /// Reset it to this deadline.
    Reset(u64),
}

/// How a poll of the connection ends.
#[derive(PartialEq, Eq, Structural, Debug, Clone, Copy)]
pub enum PollOutcome {
    /// The connection failed.
    Failed(DispatchError),
    /// The connection is done.
    Done,
    /// Shut the connection down: poll again, now in shutdown.
    Shutdown,
    /// Wait for more to happen.
    Pending,
}

/// The state after the connection took, refused or failed the item being
/// sent: the response head, or a chunk of its body. A refused or failed item
/// stays; a taken head is followed by its body, a taken chunk by the rest of
/// the stream, or by nothing.
pub open spec fn after_send(state: State, outcome: SinkOutcome) -> State {
    match outcome {
        SinkOutcome::Ready => match state {
            State::SendResponse(_, body) => match body {
                BodyKind::Empty => State::Idle,
                BodyKind::Binary => State::SendPayload { stream: false, chunk: true },
                BodyKind::Streaming => State::SendPayload { stream: true, chunk: false },
            },
            State::SendPayload { stream, chunk: true } => if stream {
                State::SendPayload { stream: true, chunk: false }
            } else {
                State::Idle
            },
            _ => state,
        },
        _ => state,
    }
}

/// The state after handing the item being sent to the connection once for
/// each outcome, in order.
pub open spec fn send_run(state: State, outcomes: Seq<SinkOutcome>) -> State
    decreases outcomes.len(),
{
    if outcomes.len() == 0 {
        state
    } else {
        send_run(after_send(state, outcomes[0]), outcomes.drop_first())
    }
}

/// One step on the line of messages: the messages `taken` for handling (in
/// order), followed by the line after the step, are the line before it
/// followed by the messages `read` in the step.
pub open spec fn fifo_step<R>(
    before: Seq<Message<R>>,
    after: Seq<Message<R>>,
    read: Seq<Message<R>>,
    taken: Seq<Message<R>>,
) -> bool {
    taken + after == before + read
}

/// What a read adds to the line of messages: a request, or the error
/// response of a payload event that no request takes or of a malformed
/// request.
pub open spec fn read_messages<R>(ev: Incoming<R>, has_payload: bool) -> Seq<Message<R>> {
    match ev {
        Incoming::Message(req, _) => seq![Message::Item(req)],
        Incoming::Chunk => if has_payload {
            Seq::empty()
        } else {
            seq![Message::Error(INTERNAL_SERVER_ERROR)]
        },
        Incoming::Eof => if has_payload {
            Seq::empty()
        } else {
            seq![Message::Error(INTERNAL_SERVER_ERROR)]
        },
        Incoming::ParseError => seq![Message::Error(BAD_REQUEST)],
        _ => Seq::empty(),
    }
}

/// What a read hands straight to the service: a request read while nothing
/// is being done.
pub open spec fn read_handled<R>(ev: Incoming<R>, state: State) -> Seq<Message<R>> {
    match ev {
        Incoming::Message(req, _) => if state == State::Idle {
            seq![Message::Item(req)]
        } else {
            Seq::empty()
        },
        _ => Seq::empty(),
    }
}

/// What `response_action` takes from the line: the oldest message, when
/// nothing is being done.
pub open spec fn action_taken<R>(state: State, line: Seq<Message<R>>) -> Seq<Message<R>> {
    if state == State::Idle && line.len() > 0 {
        seq![line[0]]
    } else {
        Seq::empty()
    }
}

/// The state of an HTTP/1 connection.
pub struct Dispatcher<R> {
    flags: Flags,
    state: State,
    payload: bool,
    messages: VecDeque<Message<R>>,
    error: Option<DispatchError>,
    ka_expire: u64,
    ka_timer: bool,
}

impl<R> Dispatcher<R> {
    /// The connection's flags.
    pub closed spec fn flags(&self) -> Flags {
        self.flags
    }

    /// What is being done with the current response.
    pub closed spec fn state(&self) -> State {
        self.state
    }

    /// Whether a request payload is being read.
    pub closed spec fn has_payload(&self) -> bool {
        self.payload
    }

    /// The messages read ahead, oldest first.
    pub closed spec fn messages(&self) -> Seq<Message<R>> {
        self.messages@
    }

    /// The error the connection ends with.
    pub closed spec fn error(&self) -> Option<DispatchError> {
        self.error
    }

    /// When the connection expires if nothing is read.
    pub closed spec fn ka_expire(&self) -> u64 {
        self.ka_expire
    }

    /// Whether the connection has a keep-alive timer.
    pub closed spec fn has_timer(&self) -> bool {
        self.ka_timer
    }

    /// A chunk is waiting whenever no stream is left to send.
    pub closed spec fn wf(&self) -> bool {
        self.state matches State::SendPayload { stream, chunk } ==> (stream || chunk)
    }

    /// A dispatcher for a new connection. With keep-alive enabled the
    /// connection starts keep-alive; the timer is the slow-request timer when
    /// given, else the keep-alive timer when the server has one, else none,
    /// and the connection expires at its deadline (at `now` without one).
    pub fn with_timeout(
        keep_alive_enabled: bool,
        timeout: Option<u64>,
        keep_alive_timer: Option<u64>,
        now: u64,
    ) -> (d: Self)
        ensures
            d.wf(),
            d.flags() == (Flags {
                started: false,
                keepalive_enabled: keep_alive_enabled,
                keepalive: keep_alive_enabled,
                polled: false,
                flushed: true,
                shutdown: false,
                disconnected: false,
            }),
            d.state() == State::Idle,
            !d.has_payload(),
            d.messages().len() == 0,
            d.error() is None,
            d.has_timer() == (timeout is Some || keep_alive_timer is Some),
            d.ka_expire() == match timeout {
                Some(t) => t,
                None => match keep_alive_timer {
                    Some(k) => k,
                    None => now,
                },
            },
    {
        let flags = Flags {
            started: false,
            keepalive_enabled: keep_alive_enabled,
            keepalive: keep_alive_enabled,
            polled: false,
            flushed: true,
            shutdown: false,
            disconnected: false,
        };
        let (ka_expire, ka_timer) = if let Some(t) = timeout {
            (t, true)
        } else if let Some(k) = keep_alive_timer {
            (k, true)
        } else {
            (now, false)
        };
        Dispatcher {
            flags,
            state: State::Idle,
            payload: false,
            messages: VecDeque::new(),
            error: None,
            ka_expire,
            ka_timer,
        }
    }

    /// A dispatcher for a new connection without a slow-request timer.
    pub fn new(keep_alive_enabled: bool, keep_alive_timer: Option<u64>, now: u64) -> (d: Self)
        ensures
            d.wf(),
            d.flags() == (Flags {
                started: false,
                keepalive_enabled: keep_alive_enabled,
                keepalive: keep_alive_enabled,
                polled: false,
                flushed: true,
                shutdown: false,
                disconnected: false,
            }),
            d.state() == State::Idle,
            !d.has_payload(),
            d.messages().len() == 0,
            d.error() is None,
            d.has_timer() == keep_alive_timer is Some,
            d.ka_expire() == match keep_alive_timer {
                Some(k) => k,
                None => now,
            },
    {
        Self::with_timeout(keep_alive_enabled, None, keep_alive_timer, now)
    }

    /// The connection's flags.
    pub fn get_flags(&self) -> (f: Flags)
        ensures
            f == self.flags(),
    {
        self.flags
    }

    /// What is being done with the current response.
    pub fn get_state(&self) -> (s: State)
        ensures
            s == self.state(),
    {
        self.state
    }

    /// The number of messages read ahead.
    pub fn queued(&self) -> (n: usize)
        ensures
            n == self.messages().len(),
    {
        self.messages.len()
    }

    /// Whether the connection can be read: the peer is there, and a request
    /// payload being read (if any) wants more.
    pub fn can_read(&self, payload_wants_more: bool) -> (b: bool)
        ensures
            b == (!self.flags().disconnected && (self.has_payload() ==> payload_wants_more)),
    {
        if self.flags.disconnected {
            return false;
        }
        if self.payload {
            payload_wants_more
        } else {
            true
        }
    }

    /// The peer is gone: the connection is marked disconnected and the
    /// request payload, if one is read, is let go. Tells whether there was
    /// one, which is then to get the `Incomplete` error.
    pub fn client_disconnected(&mut self) -> (had_payload: bool)
        requires
            old(self).wf(),
        ensures
            final(self).wf(),
            had_payload == old(self).has_payload(),
            !final(self).has_payload(),
            final(self).flags() == (Flags { disconnected: true, ..old(self).flags() }),
            final(self).state() == old(self).state(),
            final(self).messages() == old(self).messages(),
            final(self).error() == old(self).error(),
            final(self).ka_expire() == old(self).ka_expire(),
            final(self).has_timer() == old(self).has_timer(),
    {
        self.flags.disconnected = true;
        let had = self.payload;
        self.payload = false;
        had
    }

    /// Whether the connection has output to flush.
    pub fn needs_flush(&self) -> (b: bool)
        ensures
            b == !self.flags().flushed,
    {
        !self.flags.flushed
    }

    /// Takes what flushing the connection gave. Once all is written the
    /// connection is flushed, unless the response is done while the request
    /// payload is not read: the connection cannot be used then.
    pub fn on_flush(&mut self, outcome: SinkOutcome) -> (r: Result<bool, DispatchError>)
        requires
            old(self).wf(),
        ensures
            final(self).wf(),
            r == match outcome {
                SinkOutcome::NotReady => Ok(false),
                SinkOutcome::Failed => Err(DispatchError::Io),
                SinkOutcome::Ready => if old(self).has_payload() && old(self).state() == State::Idle {
                    Err(DispatchError::PayloadIsNotConsumed)
                } else {
                    Ok(true)
                },
            },
            final(self).flags() == if r == Ok::<bool, DispatchError>(true) {
                Flags { flushed: true, ..old(self).flags() }
            } else {
                old(self).flags()
            },
            final(self).state() == old(self).state(),
            final(self).has_payload() == old(self).has_payload(),
            final(self).messages() == old(self).messages(),
            final(self).error() == old(self).error(),
            final(self).ka_expire() == old(self).ka_expire(),
            final(self).has_timer() == old(self).has_timer(),
    {
        match outcome {
            SinkOutcome::NotReady => Ok(false),
            SinkOutcome::Failed => Err(DispatchError::Io),
            SinkOutcome::Ready => {
                if self.payload && self.state == State::Idle {
                    return Err(DispatchError::PayloadIsNotConsumed);
                }
                self.flags.flushed = true;
                Ok(true)
            },
        }
    }

    /// Whether more requests may be read: fewer than the most that are read
    /// ahead are waiting.
    pub fn accepts_requests(&self) -> (b: bool)
        ensures
            b == (self.messages().len() < MAX_PIPELINED_MESSAGES),
    {
        self.messages.len() < MAX_PIPELINED_MESSAGES
    }

    /// Takes what reading the connection gave.
    ///
    /// A request is handed to the service at once when nothing else is being
    /// done, else it waits in line; its payload, if one follows, is then the
    /// one read. Payload chunks and ends go to that payload; with none, the
    /// connection answers 500 and closes. A malformed request is answered
    /// 400 and the connection closes; a closed or failed connection is
    /// marked disconnected.
    pub fn on_incoming(&mut self, ev: Incoming<R>) -> (step: ReadStep<R>)
        requires
            old(self).wf(),
        ensures
            final(self).wf(),
            old(self).state() != State::Idle || old(self).messages().len() == 0 ==> fifo_step(
                old(self).messages(),
                final(self).messages(),
                read_messages(ev, old(self).has_payload()),
                read_handled(ev, old(self).state()),
            ),
            final(self).state() == old(self).state(),
            final(self).ka_expire() == old(self).ka_expire(),
            final(self).has_timer() == old(self).has_timer(),
            match ev {
                Incoming::Message(req, payload) => {
                    &&& step.more
                    &&& step.feed == Feed::Nothing
                    &&& final(self).flags() == (Flags { started: true, ..old(self).flags() })
                    &&& final(self).has_payload() == (old(self).has_payload() || payload)
                    &&& final(self).error() == old(self).error()
                    &&& if old(self).state() == State::Idle {
                        step.handle == Some(req) && final(self).messages() == old(self).messages()
                    } else {
                        step.handle is None && final(self).messages() == old(self).messages().push(Message::Item(req))
                    }
                },
                Incoming::Chunk => {
                    &&& step.more
                    &&& step.handle is None
                    &&& if old(self).has_payload() {
                        &&& step.feed == Feed::Data
                        &&& final(self).flags() == (Flags { started: true, ..old(self).flags() })
                        &&& final(self).has_payload()
                        &&& final(self).messages() == old(self).messages()
                        &&& final(self).error() == old(self).error()
                    } else {
                        &&& step.feed == Feed::Nothing
                        &&& final(self).flags() == (Flags {
                            started: true,
                            disconnected: true,
                            ..old(self).flags()
                        })
                        &&& !final(self).has_payload()
                        &&& final(self).messages() == old(self).messages().push(
                            Message::Error(INTERNAL_SERVER_ERROR),
                        )
                        &&& final(self).error() == Some(DispatchError::InternalError)
                    }
                },
                Incoming::Eof => {
                    &&& step.more
                    &&& step.handle is None
                    &&& !final(self).has_payload()
                    &&& if old(self).has_payload() {
                        &&& step.feed == Feed::Eof
                        &&& final(self).flags() == (Flags { started: true, ..old(self).flags() })
                        &&& final(self).messages() == old(self).messages()
                        &&& final(self).error() == old(self).error()
                    } else {
                        &&& step.feed == Feed::Nothing
                        &&& final(self).flags() == (Flags {
                            started: true,
                            disconnected: true,
                            ..old(self).flags()
                        })
                        &&& final(self).messages() == old(self).messages().push(
                            Message::Error(INTERNAL_SERVER_ERROR),
                        )
                        &&& final(self).error() == Some(DispatchError::InternalError)
                    }
                },
                Incoming::Closed => {
                    &&& !step.more
                    &&& step.handle is None
                    &&& step.feed == if old(self).has_payload() {
                        Feed::Error(PayloadError::Incomplete)
                    } else {
                        Feed::Nothing
                    }
                    &&& final(self).flags() == (Flags { disconnected: true, ..old(self).flags() })
                    &&& !final(self).has_payload()
                    &&& final(self).messages() == old(self).messages()
                    &&& final(self).error() == old(self).error()
                },
                Incoming::NotReady => {
                    &&& !step.more
                    &&& step.handle is None
                    &&& step.feed == Feed::Nothing
                    &&& final(self).flags() == old(self).flags()
                    &&& final(self).has_payload() == old(self).has_payload()
                    &&& final(self).messages() == old(self).messages()
                    &&& final(self).error() == old(self).error()
                },
                Incoming::IoError => {
                    &&& !step.more
                    &&& step.handle is None
                    &&& step.feed == if old(self).has_payload() {
                        Feed::Error(PayloadError::Incomplete)
                    } else {
                        Feed::Nothing
                    }
                    &&& final(self).flags() == (Flags { disconnected: true, ..old(self).flags() })
                    &&& !final(self).has_payload()
                    &&& final(self).messages() == old(self).messages()
                    &&& final(self).error() == Some(DispatchError::Io)
                },
                Incoming::ParseError => {
                    &&& !step.more
                    &&& step.handle is None
                    &&& step.feed == if old(self).has_payload() {
                        Feed::Error(PayloadError::EncodingCorrupted)
                    } else {
                        Feed::Nothing
                    }
                    &&& final(self).flags() == (Flags { disconnected: true, ..old(self).flags() })
                    &&& !final(self).has_payload()
                    &&& final(self).messages() == old(self).messages().push(
                        Message::Error(BAD_REQUEST),
                    )
                    &&& final(self).error() == Some(DispatchError::Parse)
                },
            },
    {
        let ghost ev0 = ev;
        let step = match ev {
            Incoming::Message(req, payload) => {
                self.flags.started = true;
                if payload {
                    self.payload = true;
                }
                if self.state == State::Idle {
                    ReadStep { handle: Some(req), feed: Feed::Nothing, more: true }
                } else {
                    self.messages.push_back(Message::Item(req));
                    ReadStep { handle: None, feed: Feed::Nothing, more: true }
                }
            },
            Incoming::Chunk => {
                self.flags.started = true;
                if self.payload {
                    ReadStep { handle: None, feed: Feed::Data, more: true }
                } else {
                    self.flags.disconnected = true;
                    self.messages.push_back(Message::Error(INTERNAL_SERVER_ERROR));
                    self.error = Some(DispatchError::InternalError);
                    ReadStep { handle: None, feed: Feed::Nothing, more: true }
                }
            },
            Incoming::Eof => {
                self.flags.started = true;
                if self.payload {
                    self.payload = false;
                    ReadStep { handle: None, feed: Feed::Eof, more: true }
                } else {
                    self.flags.disconnected = true;
                    self.messages.push_back(Message::Error(INTERNAL_SERVER_ERROR));
                    self.error = Some(DispatchError::InternalError);
                    ReadStep { handle: None, feed: Feed::Nothing, more: true }
                }
            },
            Incoming::Closed => {
                let had = self.client_disconnected();
                let feed = if had {
                    Feed::Error(PayloadError::Incomplete)
                } else {
                    Feed::Nothing
                };
                ReadStep { handle: None, feed, more: false }
            },
            Incoming::NotReady => ReadStep { handle: None, feed: Feed::Nothing, more: false },
            Incoming::IoError => {
                let had = self.client_disconnected();
                self.error = Some(DispatchError::Io);
                let feed = if had {
                    Feed::Error(PayloadError::Incomplete)
                } else {
                    Feed::Nothing
                };
                ReadStep { handle: None, feed, more: false }
            },
            Incoming::ParseError => {
                let had = self.payload;
                self.payload = false;
                self.messages.push_back(Message::Error(BAD_REQUEST));
                self.flags.disconnected = true;
                self.error = Some(DispatchError::Parse);
                let feed = if had {
                    Feed::Error(PayloadError::EncodingCorrupted)
                } else {
                    Feed::Nothing
                };
                ReadStep { handle: None, feed, more: false }
            },
        };
        proof {
            let q = old(self).messages();
            if old(self).state() != State::Idle || q.len() == 0 {
                assert(read_handled(ev0, old(self).state()) + self.messages() =~= q
                    + read_messages(ev0, old(self).has_payload()));
            }
        }
        step
    }

    /// Ends a round of reading: when a message was read and the connection
    /// has a keep-alive timer, it expires at the server's next keep-alive
    /// deadline, if there is one.
    pub fn finish_read(&mut self, updated: bool, keep_alive_expire: Option<u64>)
        requires
            old(self).wf(),
        ensures
            final(self).wf(),
            final(self).ka_expire() == if old(self).has_timer() && updated && keep_alive_expire is Some {
                keep_alive_expire->0
            } else {
                old(self).ka_expire()
            },
            final(self).flags() == old(self).flags(),
            final(self).state() == old(self).state(),
            final(self).has_payload() == old(self).has_payload(),
            final(self).messages() == old(self).messages(),
            final(self).error() == old(self).error(),
            final(self).has_timer() == old(self).has_timer(),
    {
        if self.ka_timer && updated {
            if let Some(e) = keep_alive_expire {
                self.ka_expire = e;
            }
        }
    }
    /// The next thing to do for the response. When nothing is being done the
    /// oldest message read ahead is taken: a request goes to the service, an
    /// error response is sent.
    pub fn response_action(&mut self) -> (a: ResponseAction<R>)
        requires
            old(self).wf(),
        ensures
            final(self).wf(),
            fifo_step(
                old(self).messages(),
                final(self).messages(),
                Seq::empty(),
                action_taken(old(self).state(), old(self).messages()),
            ),
            final(self).flags() == old(self).flags(),
            final(self).has_payload() == old(self).has_payload(),
            final(self).error() == old(self).error(),
            final(self).ka_expire() == old(self).ka_expire(),
            final(self).has_timer() == old(self).has_timer(),
            old(self).state() == State::Idle && old(self).messages().len() > 0 ==> {
                &&& final(self).messages() == old(self).messages().drop_first()
                &&& match old(self).messages()[0] {
                    Message::Item(req) => {
                        &&& a == ResponseAction::CallService(req)
                        &&& final(self).state() == State::Idle
                    },
                    Message::Error(status) => {
                        &&& a == ResponseAction::<R>::SendResponse(Outgoing::Error(status))
                        &&& final(self).state() == State::SendResponse(
                            Outgoing::Error(status),
                            BodyKind::Empty,
                        )
                    },
                }
            },
            !(old(self).state() == State::Idle && old(self).messages().len() > 0) ==> {
                &&& final(self).messages() == old(self).messages()
                &&& final(self).state() == old(self).state()
                &&& match old(self).state() {
                    State::Idle => a is Nothing,
                    State::ServiceCall => a is PollService,
                    State::SendResponse(o, _) => a == ResponseAction::<R>::SendResponse(o),
                    State::SendPayload { stream: _, chunk } => if chunk {
                        a is SendChunk
                    } else {
                        a is PollStream
                    },
                }
            },
    {
        let a = match self.state {
            State::Idle => {
                match self.messages.pop_front() {
                    None => ResponseAction::Nothing,
                    Some(Message::Item(req)) => ResponseAction::CallService(req),
                    Some(Message::Error(status)) => {
                        self.state = State::SendResponse(Outgoing::Error(status), BodyKind::Empty);
                        ResponseAction::SendResponse(Outgoing::Error(status))
                    },
                }
            },
            State::ServiceCall => ResponseAction::PollService,
            State::SendResponse(o, _) => ResponseAction::SendResponse(o),
            State::SendPayload { stream: _, chunk } => {
                if chunk {
                    ResponseAction::SendChunk
                } else {
                    ResponseAction::PollStream
                }
            },
        };
        proof {
            let q = old(self).messages();
            assert(action_taken(old(self).state(), q) + self.messages() =~= q + Seq::<
                Message<R>,
            >::empty());
        }
        a
    }

    /// Takes what calling (when nothing is being done) or polling (while
    /// waiting for it) the service gave: a ready response is sent next; a
    /// response not ready yet is waited for.
    pub fn on_service(&mut self, outcome: ServiceOutcome) -> (step: Step)
        requires
            old(self).wf(),
            old(self).state() == State::Idle || old(self).state() == State::ServiceCall,
        ensures
            final(self).wf(),
            final(self).flags() == old(self).flags(),
            final(self).has_payload() == old(self).has_payload(),
            final(self).messages() == old(self).messages(),
            final(self).error() == old(self).error(),
            final(self).ka_expire() == old(self).ka_expire(),
            final(self).has_timer() == old(self).has_timer(),
            ({
                let (expected, state) = match outcome {
                    ServiceOutcome::Ready(body) => (
                        Step::Progress,
                        State::SendResponse(Outgoing::Service, body),
                    ),
                    ServiceOutcome::NotReady => (
                        if old(self).state() == State::Idle {
                            Step::Progress
                        } else {
                            Step::Wait
                        },
                        State::ServiceCall,
                    ),
                    ServiceOutcome::Failed => (
                        Step::Fail(DispatchError::Service, false),
                        old(self).state(),
                    ),
                };
                step == expected && final(self).state() == state
            }),
    {
        match outcome {
            ServiceOutcome::Ready(body) => {
                self.state = State::SendResponse(Outgoing::Service, body);
                Step::Progress
            },
            ServiceOutcome::NotReady => {
                if self.state == State::Idle {
                    self.state = State::ServiceCall;
                    Step::Progress
                } else {
                    Step::Wait
                }
            },
            ServiceOutcome::Failed => Step::Fail(DispatchError::Service, false),
        }
    }

    /// Takes what handing the response head to the connection gave. Once
    /// taken, the connection keeps alive as the response says, the output is
    /// to be flushed, and the body follows: nothing for no body, one chunk
    /// for bytes, a stream otherwise. When writing fails the request payload
    /// is let go.
    pub fn on_response_sent(&mut self, outcome: SinkOutcome, keepalive: bool) -> (step: Step)
        requires
            old(self).wf(),
            old(self).state() is SendResponse,
        ensures
            final(self).wf(),
            final(self).state() == after_send(old(self).state(), outcome),
            final(self).messages() == old(self).messages(),
            final(self).error() == old(self).error(),
            final(self).ka_expire() == old(self).ka_expire(),
            final(self).has_timer() == old(self).has_timer(),
            match outcome {
                SinkOutcome::Ready => {
                    &&& step == Step::Progress
                    &&& final(self).flags() == (Flags {
                        keepalive: keepalive,
                        flushed: false,
                        ..old(self).flags()
                    })
                    &&& final(self).has_payload() == old(self).has_payload()
                    &&& final(self).state() == match old(self).state()->1 {
                        BodyKind::Empty => State::Idle,
                        BodyKind::Binary => State::SendPayload { stream: false, chunk: true },
                        BodyKind::Streaming => State::SendPayload { stream: true, chunk: false },
                    }
                },
                SinkOutcome::NotReady => {
                    &&& step == Step::Wait
                    &&& final(self).flags() == old(self).flags()
                    &&& final(self).has_payload() == old(self).has_payload()
                    &&& final(self).state() == old(self).state()
                },
                SinkOutcome::Failed => {
                    &&& step == Step::Fail(DispatchError::Io, old(self).has_payload())
                    &&& final(self).flags() == old(self).flags()
                    &&& !final(self).has_payload()
                    &&& final(self).state() == old(self).state()
                },
            },
    {
        match outcome {
            SinkOutcome::Ready => {
                self.flags.keepalive = keepalive;
                self.flags.flushed = false;
                let body = match self.state {
                    State::SendResponse(_, b) => b,
                    _ => BodyKind::Empty,
                };
                self.state = match body {
                    BodyKind::Empty => State::Idle,
                    BodyKind::Binary => State::SendPayload { stream: false, chunk: true },
                    BodyKind::Streaming => State::SendPayload { stream: true, chunk: false },
                };
                Step::Progress
            },
            SinkOutcome::NotReady => Step::Wait,
            SinkOutcome::Failed => {
                let had = self.payload;
                self.payload = false;
                Step::Fail(DispatchError::Io, had)
            },
        }
    }

    /// Takes what handing the waiting chunk to the connection gave. Once
    /// taken, the output is to be flushed, and with no stream left the
    /// response is done.
    pub fn on_chunk_sent(&mut self, outcome: SinkOutcome) -> (step: Step)
        requires
            old(self).wf(),
            old(self).state() matches State::SendPayload { chunk, .. } && chunk,
        ensures
            final(self).wf(),
            final(self).state() == after_send(old(self).state(), outcome),
            final(self).has_payload() == old(self).has_payload(),
            final(self).messages() == old(self).messages(),
            final(self).error() == old(self).error(),
            final(self).ka_expire() == old(self).ka_expire(),
            final(self).has_timer() == old(self).has_timer(),
            ({
                let (expected, flags, state) = match outcome {
                    SinkOutcome::Ready => (
                        Step::Progress,
                        Flags { flushed: false, ..old(self).flags() },
                        if old(self).state()->stream {
                            State::SendPayload { stream: true, chunk: false }
                        } else {
                            State::Idle
                        },
                    ),
                    SinkOutcome::NotReady => (Step::Wait, old(self).flags(), old(self).state()),
                    SinkOutcome::Failed => (
                        Step::Fail(DispatchError::Io, false),
                        old(self).flags(),
                        old(self).state(),
                    ),
                };
                &&& step == expected
                &&& final(self).flags() == flags
                &&& final(self).state() == state
            }),
    {
        match outcome {
            SinkOutcome::Ready => {
                self.flags.flushed = false;
                let stream = match self.state {
                    State::SendPayload { stream, chunk: _ } => stream,
                    _ => false,
                };
                self.state = if stream {
                    State::SendPayload { stream: true, chunk: false }
                } else {
                    State::Idle
                };
                Step::Progress
            },
            SinkOutcome::NotReady => Step::Wait,
            SinkOutcome::Failed => Step::Fail(DispatchError::Io, false),
        }
    }

    /// Takes what polling the body stream gave: a chunk is handed to the
    /// connection (and waits when not taken); at the end of the stream the
    /// closing chunk is to be sent.
    pub fn on_stream(&mut self, outcome: StreamOutcome) -> (step: Step)
        requires
            old(self).wf(),
            old(self).state() == (State::SendPayload { stream: true, chunk: false }),
        ensures
            final(self).wf(),
            final(self).has_payload() == old(self).has_payload(),
            final(self).messages() == old(self).messages(),
            final(self).error() == old(self).error(),
            final(self).ka_expire() == old(self).ka_expire(),
            final(self).has_timer() == old(self).has_timer(),
            ({
                let (expected, flags, state) = match outcome {
                    StreamOutcome::Chunk(SinkOutcome::Ready) => (
                        Step::Progress,
                        Flags { flushed: false, ..old(self).flags() },
                        old(self).state(),
                    ),
                    StreamOutcome::Chunk(SinkOutcome::NotReady) => (
                        Step::Wait,
                        old(self).flags(),
                        State::SendPayload { stream: true, chunk: true },
                    ),
                    StreamOutcome::Chunk(SinkOutcome::Failed) => (
                        Step::Fail(DispatchError::Io, false),
                        old(self).flags(),
                        old(self).state(),
                    ),
                    StreamOutcome::End => (
                        Step::Progress,
                        old(self).flags(),
                        State::SendPayload { stream: false, chunk: true },
                    ),
                    StreamOutcome::NotReady => (Step::Wait, old(self).flags(), old(self).state()),
                    StreamOutcome::Failed => (
                        Step::Fail(DispatchError::Unknown, false),
                        old(self).flags(),
                        old(self).state(),
                    ),
                };
                &&& step == expected
                &&& final(self).flags() == flags
                &&& final(self).state() == state
            }),
    {
        match outcome {
            StreamOutcome::Chunk(SinkOutcome::Ready) => {
                self.flags.flushed = false;
                Step::Progress
            },
            StreamOutcome::Chunk(SinkOutcome::NotReady) => {
                self.state = State::SendPayload { stream: true, chunk: true };
                Step::Wait
            },
            StreamOutcome::Chunk(SinkOutcome::Failed) => Step::Fail(DispatchError::Io, false),
            StreamOutcome::End => {
                self.state = State::SendPayload { stream: false, chunk: true };
                Step::Progress
            },
            StreamOutcome::NotReady => Step::Wait,
            StreamOutcome::Failed => Step::Fail(DispatchError::Unknown, false),
        }
    }

    /// Takes what the keep-alive timer gave (there is nothing to poll without
    /// one). When it fires during shutdown the connection is dropped. When it
    /// fires at or after the expiry: with no response under way, a connection
    /// that read a request shuts down (the timer then runs to the disconnect
    /// deadline, if the server has one) and one that read none is answered
    /// 408 and closed; with a response under way, the timer runs to the
    /// server's next keep-alive deadline. When it fires before the expiry it
    /// runs to the expiry.
    pub fn on_keepalive_timer(
        &mut self,
        ev: TimerEvent,
        keep_alive_expire: Option<u64>,
        disconnect_deadline: Option<u64>,
    ) -> (r: Result<TimerAction, DispatchError>)
        requires
            old(self).wf(),
        ensures
            final(self).wf(),
            final(self).has_payload() == old(self).has_payload(),
            final(self).messages() == old(self).messages(),
            final(self).error() == old(self).error(),
            final(self).ka_expire() == old(self).ka_expire(),
            final(self).has_timer() == old(self).has_timer(),
            ({
                let unchanged = (old(self).flags(), old(self).state());
                let (expected, after) = if !old(self).has_timer() {
                    (Ok::<TimerAction, DispatchError>(TimerAction::Keep), unchanged)
                } else {
                    match ev {
                        TimerEvent::NotReady => (Ok(TimerAction::Keep), unchanged),
                        TimerEvent::Failed => (Err(DispatchError::Unknown), unchanged),
                        TimerEvent::Fired(deadline) => if old(self).flags().shutdown {
                            (Err(DispatchError::DisconnectTimeout), unchanged)
                        } else if deadline < old(self).ka_expire() {
                            (Ok(TimerAction::Reset(old(self).ka_expire())), unchanged)
                        } else if old(self).state() != State::Idle {
                            (
                                Ok(
                                    match keep_alive_expire {
                                        Some(d) => TimerAction::Reset(d),
                                        None => TimerAction::Keep,
                                    },
                                ),
                                unchanged,
                            )
                        } else if old(self).flags().started {
                            (
                                Ok(
                                    match disconnect_deadline {
                                        Some(d) => TimerAction::Reset(d),
                                        None => TimerAction::Keep,
                                    },
                                ),
                                (Flags { shutdown: true, ..old(self).flags() }, State::Idle),
                            )
                        } else {
                            (
                                Ok(TimerAction::Keep),
                                (
                                    Flags { started: true, disconnected: true, ..old(self).flags() },
                                    State::SendResponse(
                                        Outgoing::Error(REQUEST_TIMEOUT),
                                        BodyKind::Empty,
                                    ),
                                ),
                            )
                        },
                    }
                };
                &&& r == expected
                &&& final(self).flags() == after.0
                &&& final(self).state() == after.1
            }),
    {
        if !self.ka_timer {
            return Ok(TimerAction::Keep);
        }
        match ev {
            TimerEvent::NotReady => Ok(TimerAction::Keep),
            TimerEvent::Failed => Err(DispatchError::Unknown),
            TimerEvent::Fired(deadline) => {
                if self.flags.shutdown {
                    Err(DispatchError::DisconnectTimeout)
                } else if deadline >= self.ka_expire {
                    if self.state == State::Idle {
                        if self.flags.started {
                            self.flags.shutdown = true;
                            match disconnect_deadline {
                                Some(d) => Ok(TimerAction::Reset(d)),
                                None => Ok(TimerAction::Keep),
                            }
                        } else {
                            self.flags.started = true;
                            self.flags.disconnected = true;
                            self.state = State::SendResponse(
                                Outgoing::Error(REQUEST_TIMEOUT),
                                BodyKind::Empty,
                            );
                            Ok(TimerAction::Keep)
                        }
                    } else {
                        match keep_alive_expire {
                            Some(d) => Ok(TimerAction::Reset(d)),
                            None => Ok(TimerAction::Keep),
                        }
                    }
                } else {
                    Ok(TimerAction::Reset(self.ka_expire))
                }
            },
        }
    }

    /// How a poll of a connection that is not shutting down ends, once it
    /// has read, answered and flushed what it could. With nothing under way
    /// and all flushed: a stored error fails the connection (and is taken), a
    /// disconnected connection is done, and a connection that served a
    /// request without keep-alive shuts down. Otherwise it waits.
    pub fn poll_outcome(&mut self) -> (o: PollOutcome)
        requires
            old(self).wf(),
        ensures
            final(self).wf(),
            final(self).state() == old(self).state(),
            final(self).has_payload() == old(self).has_payload(),
            final(self).messages() == old(self).messages(),
            final(self).ka_expire() == old(self).ka_expire(),
            final(self).has_timer() == old(self).has_timer(),
            ({
                let f = old(self).flags();
                let (expected, flags, error) = if old(self).state() == State::Idle && f.flushed {
                    if old(self).error() is Some {
                        (PollOutcome::Failed(old(self).error()->0), f, None)
                    } else if f.disconnected {
                        (PollOutcome::Done, f, None)
                    } else if f.started && !(f.keepalive || f.keepalive_enabled) {
                        (PollOutcome::Shutdown, Flags { shutdown: true, ..f }, None)
                    } else {
                        (PollOutcome::Pending, f, None)
                    }
                } else {
                    (PollOutcome::Pending, f, old(self).error())
                };
                &&& o == expected
                &&& final(self).flags() == flags
                &&& final(self).error() == error
            }),
    {
        if self.state == State::Idle && self.flags.flushed {
            if let Some(e) = self.error.take() {
                PollOutcome::Failed(e)
            } else if self.flags.disconnected {
                PollOutcome::Done
            } else if self.flags.started && !(self.flags.keepalive || self.flags.keepalive_enabled) {
                self.flags.shutdown = true;
                PollOutcome::Shutdown
            } else {
                PollOutcome::Pending
            }
        } else {
            PollOutcome::Pending
        }
    }
}

/// Law: pipelined requests are handled in the order they were read. A
/// request read while others wait joins the end of the line, and the next
/// one handled is still the oldest; once it is taken, the new request is
/// still last.
pub proof fn law_requests_in_order<R>(waiting: Seq<Message<R>>, req: R)
    requires
        waiting.len() > 0,
    ensures
        waiting.push(Message::Item(req))[0] == waiting[0],
        waiting.push(Message::Item(req)).drop_first() == waiting.drop_first().push(
            Message::Item(req),
        ),
{
    assert(waiting.push(Message::Item(req)).drop_first() =~= waiting.drop_first().push(
        Message::Item(req),
    ));
}

/// Law: over any run of steps on the line of messages, the messages taken
/// for handling, in the order they were taken, followed by those still in
/// line, are the line at the start followed by everything read, in the
/// order it was read. From an empty line, requests are handled and error
/// responses sent in exactly the order they arrived.
pub proof fn law_responses_in_request_order<R>(
    lines: Seq<Seq<Message<R>>>,
    reads: Seq<Seq<Message<R>>>,
    takes: Seq<Seq<Message<R>>>,
)
    requires
        lines.len() == reads.len() + 1,
        takes.len() == reads.len(),
        forall|i: int|
            0 <= i < reads.len() ==> fifo_step(
                #[trigger] lines[i],
                lines[i + 1],
                reads[i],
                takes[i],
            ),
    ensures
        takes.flatten() + lines.last() == lines[0] + reads.flatten(),
    decreases reads.len(),
{
    let n = reads.len() as int;
    if n == 0 {
        assert(takes.flatten() =~= Seq::<Message<R>>::empty());
        assert(reads.flatten() =~= Seq::<Message<R>>::empty());
        assert(Seq::<Message<R>>::empty() + lines.last() =~= lines[0] + Seq::<Message<R>>::empty());
    } else {
        let l2 = lines.drop_last();
        let r2 = reads.drop_last();
        let t2 = takes.drop_last();
        assert forall|i: int| 0 <= i < r2.len() implies fifo_step(
            #[trigger] l2[i],
            l2[i + 1],
            r2[i],
            t2[i],
        ) by {
            assert(fifo_step(lines[i], lines[i + 1], reads[i], takes[i]));
        }
        law_responses_in_request_order(l2, r2, t2);
        assert(takes =~= t2.push(takes[n - 1]));
        assert(reads =~= r2.push(reads[n - 1]));
        t2.lemma_flatten_push(takes[n - 1]);
        r2.lemma_flatten_push(reads[n - 1]);
        assert(fifo_step(lines[n - 1], lines[n], reads[n - 1], takes[n - 1]));
        assert(l2.last() == lines[n - 1]);
        assert(takes.flatten() + lines.last() =~= t2.flatten() + (takes[n - 1] + lines[n]));
        assert(lines[0] + reads.flatten() =~= (lines[0] + r2.flatten()) + reads[n - 1]);
    }
}

/// Law: an item the connection refuses is never dropped or replaced. Over
/// any run of sends that are refused or fail, the state is as before (so
/// `response_action` hands out the same head or chunk again); the first send
/// that is taken moves on exactly as a single taken send would.
pub proof fn law_refused_items_are_resent(state: State, refused: Seq<SinkOutcome>)
    requires
        forall|i: int| 0 <= i < refused.len() ==> #[trigger] refused[i] != SinkOutcome::Ready,
    ensures
        send_run(state, refused) == state,
        send_run(state, refused.push(SinkOutcome::Ready)) == after_send(state, SinkOutcome::Ready),
    decreases refused.len(),
{
    if refused.len() > 0 {
        let rest = refused.drop_first();
        assert forall|i: int| 0 <= i < rest.len() implies #[trigger] rest[i] != SinkOutcome::Ready by {
            assert(rest[i] == refused[i + 1]);
        }
        law_refused_items_are_resent(state, rest);
        assert(after_send(state, refused[0]) == state);
        let all = refused.push(SinkOutcome::Ready);
        assert(all.drop_first() =~= rest.push(SinkOutcome::Ready));
        assert(all[0] == refused[0]);
    } else {
        let one = refused.push(SinkOutcome::Ready);
        assert(one.drop_first() =~= Seq::<SinkOutcome>::empty());
        assert(one[0] == SinkOutcome::Ready);
        assert(send_run(after_send(state, SinkOutcome::Ready), one.drop_first()) == after_send(
            state,
            SinkOutcome::Ready,
        ));
    }
}

} // verus!
