use actix_web::dispatcher::{
    BodyKind, DispatchError, Dispatcher, Feed, Incoming, Outgoing, PayloadError, PollOutcome,
    ResponseAction, ServiceOutcome, SinkOutcome, State, Step, StreamOutcome, TimerAction,
    TimerEvent, MAX_PIPELINED_MESSAGES,
};

#[test]
fn new_connection_flags() {
    let d: Dispatcher<u32> = Dispatcher::new(true, Some(100), 5);
    let f = d.get_flags();
    assert!(f.keepalive && f.keepalive_enabled && f.flushed);
    assert!(!f.started && !f.shutdown && !f.disconnected);
    let d: Dispatcher<u32> = Dispatcher::new(false, None, 5);
    let f = d.get_flags();
    assert!(!f.keepalive && !f.keepalive_enabled && f.flushed);
}

#[test]
fn request_handled_at_once_when_idle_else_queued() {
    let mut d: Dispatcher<u32> = Dispatcher::new(true, None, 0);
    let step = d.on_incoming(Incoming::Message(1, false));
    assert_eq!(step.handle, Some(1));
    assert!(step.more);
    assert!(d.get_flags().started);
    assert_eq!(d.on_service(ServiceOutcome::NotReady), Step::Progress);
    assert_eq!(d.get_state(), State::ServiceCall);
    let step = d.on_incoming(Incoming::Message(2, false));
    assert_eq!(step.handle, None);
    assert_eq!(d.queued(), 1);
}

#[test]
fn payload_chunks_go_to_the_payload() {
    let mut d: Dispatcher<u32> = Dispatcher::new(true, None, 0);
    d.on_incoming(Incoming::Message(1, true));
    assert!(!d.can_read(false));
    assert!(d.can_read(true));
    assert_eq!(d.on_incoming(Incoming::Chunk).feed, Feed::Data);
    assert_eq!(d.on_incoming(Incoming::Eof).feed, Feed::Eof);
    assert!(d.can_read(false));
}

#[test]
fn unexpected_chunk_answers_500_and_closes() {
    let mut d: Dispatcher<u32> = Dispatcher::new(true, None, 0);
    let step = d.on_incoming(Incoming::Chunk);
    assert_eq!(step.feed, Feed::Nothing);
    assert!(d.get_flags().disconnected);
    match d.response_action() {
        ResponseAction::SendResponse(Outgoing::Error(500)) => (),
        _ => panic!("500 expected"),
    }
}

#[test]
fn malformed_request_answers_400() {
    let mut d: Dispatcher<u32> = Dispatcher::new(true, None, 0);
    d.on_incoming(Incoming::Message(1, true));
    d.on_service(ServiceOutcome::NotReady);
    let step = d.on_incoming(Incoming::ParseError);
    assert!(!step.more);
    assert_eq!(step.feed, Feed::Error(PayloadError::EncodingCorrupted));
    assert!(d.get_flags().disconnected);
    assert_eq!(d.queued(), 1);
    d.on_service(ServiceOutcome::Ready(BodyKind::Empty));
    assert_eq!(d.on_response_sent(SinkOutcome::Ready, true), Step::Progress);
    match d.response_action() {
        ResponseAction::SendResponse(Outgoing::Error(400)) => (),
        _ => panic!("400 expected"),
    }
}

#[test]
fn closed_connection_fails_payload() {
    let mut d: Dispatcher<u32> = Dispatcher::new(true, None, 0);
    d.on_incoming(Incoming::Message(1, true));
    let step = d.on_incoming(Incoming::Closed);
    assert_eq!(step.feed, Feed::Error(PayloadError::Incomplete));
    assert!(!d.can_read(true));
}

#[test]
fn binary_response_sends_one_chunk() {
    let mut d: Dispatcher<u32> = Dispatcher::new(false, None, 0);
    d.on_incoming(Incoming::Message(1, false));
    assert_eq!(d.on_service(ServiceOutcome::Ready(BodyKind::Binary)), Step::Progress);
    match d.response_action() {
        ResponseAction::SendResponse(Outgoing::Service) => (),
        _ => panic!("send the response"),
    }
    assert_eq!(d.on_response_sent(SinkOutcome::Ready, false), Step::Progress);
    assert!(!d.get_flags().keepalive);
    assert!(d.needs_flush());
    assert_eq!(d.get_state(), State::SendPayload { stream: false, chunk: true });
    assert_eq!(d.on_chunk_sent(SinkOutcome::Ready), Step::Progress);
    assert_eq!(d.get_state(), State::Idle);
    assert_eq!(d.on_flush(SinkOutcome::Ready), Ok(true));
    assert_eq!(d.poll_outcome(), PollOutcome::Shutdown);
    assert!(d.get_flags().shutdown);
}

#[test]
fn streaming_response() {
    let mut d: Dispatcher<u32> = Dispatcher::new(true, None, 0);
    d.on_incoming(Incoming::Message(1, false));
    d.on_service(ServiceOutcome::Ready(BodyKind::Streaming));
    d.on_response_sent(SinkOutcome::Ready, true);
    assert_eq!(d.get_state(), State::SendPayload { stream: true, chunk: false });
    assert_eq!(d.on_stream(StreamOutcome::Chunk(SinkOutcome::Ready)), Step::Progress);
    assert_eq!(d.on_stream(StreamOutcome::Chunk(SinkOutcome::NotReady)), Step::Wait);
    assert_eq!(d.get_state(), State::SendPayload { stream: true, chunk: true });
    assert_eq!(d.on_chunk_sent(SinkOutcome::Ready), Step::Progress);
    assert_eq!(d.on_stream(StreamOutcome::End), Step::Progress);
    assert_eq!(d.get_state(), State::SendPayload { stream: false, chunk: true });
}

#[test]
fn failed_stream_is_unknown_error() {
    let mut d: Dispatcher<u32> = Dispatcher::new(true, None, 0);
    d.on_incoming(Incoming::Message(1, false));
    d.on_service(ServiceOutcome::Ready(BodyKind::Streaming));
    d.on_response_sent(SinkOutcome::Ready, true);
    assert_eq!(d.on_stream(StreamOutcome::Failed), Step::Fail(DispatchError::Unknown, false));
}

#[test]
fn write_failure_fails_payload() {
    let mut d: Dispatcher<u32> = Dispatcher::new(true, None, 0);
    d.on_incoming(Incoming::Message(1, true));
    d.on_service(ServiceOutcome::Ready(BodyKind::Empty));
    assert_eq!(d.on_response_sent(SinkOutcome::Failed, true), Step::Fail(DispatchError::Io, true));
}

#[test]
fn unread_payload_makes_connection_unusable() {
    let mut d: Dispatcher<u32> = Dispatcher::new(true, None, 0);
    d.on_incoming(Incoming::Message(1, true));
    d.on_service(ServiceOutcome::Ready(BodyKind::Empty));
    d.on_response_sent(SinkOutcome::Ready, true);
    assert_eq!(d.on_flush(SinkOutcome::Ready), Err(DispatchError::PayloadIsNotConsumed));
}

#[test]
fn slow_first_request_answers_408() {
    let mut d: Dispatcher<u32> = Dispatcher::with_timeout(true, Some(10), Some(100), 0);
    assert_eq!(d.on_keepalive_timer(TimerEvent::Fired(10), Some(200), Some(300)), Ok(TimerAction::Keep));
    let f = d.get_flags();
    assert!(f.started && f.disconnected);
    match d.response_action() {
        ResponseAction::SendResponse(Outgoing::Error(408)) => (),
        _ => panic!("408 expected"),
    }
}

#[test]
fn keepalive_expiry_after_request_shuts_down() {
    let mut d: Dispatcher<u32> = Dispatcher::new(true, Some(100), 0);
    d.on_incoming(Incoming::Message(1, false));
    d.on_service(ServiceOutcome::Ready(BodyKind::Empty));
    d.on_response_sent(SinkOutcome::Ready, true);
    assert_eq!(d.on_keepalive_timer(TimerEvent::Fired(50), None, None), Ok(TimerAction::Reset(100)));
    assert_eq!(d.on_keepalive_timer(TimerEvent::Fired(100), None, Some(500)), Ok(TimerAction::Reset(500)));
    assert!(d.get_flags().shutdown);
    assert_eq!(
        d.on_keepalive_timer(TimerEvent::Fired(500), None, None),
        Err(DispatchError::DisconnectTimeout)
    );
}

#[test]
fn no_timer_nothing_to_do() {
    let mut d: Dispatcher<u32> = Dispatcher::new(true, None, 0);
    assert_eq!(d.on_keepalive_timer(TimerEvent::Failed, None, None), Ok(TimerAction::Keep));
}

#[test]
fn read_refreshes_expiry() {
    let mut d: Dispatcher<u32> = Dispatcher::new(true, Some(100), 0);
    d.finish_read(true, Some(250));
    assert_eq!(d.on_keepalive_timer(TimerEvent::Fired(100), None, None), Ok(TimerAction::Reset(250)));
}

#[test]
fn pipelining_limit() {
    let mut d: Dispatcher<u32> = Dispatcher::new(true, None, 0);
    d.on_incoming(Incoming::Message(0, false));
    d.on_service(ServiceOutcome::NotReady);
    for i in 1..=MAX_PIPELINED_MESSAGES as u32 {
        assert!(d.accepts_requests());
        d.on_incoming(Incoming::Message(i, false));
    }
    assert!(!d.accepts_requests());
}

#[test]
fn stored_error_fails_the_poll() {
    let mut d: Dispatcher<u32> = Dispatcher::new(true, None, 0);
    d.on_incoming(Incoming::IoError);
    assert_eq!(d.poll_outcome(), PollOutcome::Failed(DispatchError::Io));
    assert_eq!(d.poll_outcome(), PollOutcome::Done);
}

#[test]
fn keepalive_connection_waits() {
    let mut d: Dispatcher<u32> = Dispatcher::new(true, None, 0);
    assert_eq!(d.poll_outcome(), PollOutcome::Pending);
    d.on_incoming(Incoming::Message(1, false));
    d.on_service(ServiceOutcome::Ready(BodyKind::Empty));
    d.on_response_sent(SinkOutcome::Ready, false);
    assert_eq!(d.on_flush(SinkOutcome::Ready), Ok(true));
    assert_eq!(d.poll_outcome(), PollOutcome::Pending);
}

#[test]
fn pipelined_requests_are_handled_in_order() {
    let mut d: Dispatcher<u32> = Dispatcher::new(true, None, 0);
    assert_eq!(d.on_incoming(Incoming::Message(1, false)).handle, Some(1));
    d.on_service(ServiceOutcome::NotReady);
    d.on_incoming(Incoming::Message(2, false));
    d.on_incoming(Incoming::Message(3, false));
    assert_eq!(d.queued(), 2);
    let mut handled = vec![1];
    for _ in 0..2 {
        d.on_service(ServiceOutcome::Ready(BodyKind::Empty));
        assert_eq!(d.on_response_sent(SinkOutcome::Ready, true), Step::Progress);
        match d.response_action() {
            ResponseAction::CallService(r) => handled.push(r),
            _ => panic!("request expected"),
        }
    }
    assert_eq!(handled, vec![1, 2, 3]);
    assert_eq!(d.queued(), 0);
}

#[test]
fn refused_response_is_sent_again() {
    let mut d: Dispatcher<u32> = Dispatcher::new(true, None, 0);
    d.on_incoming(Incoming::Message(1, false));
    d.on_service(ServiceOutcome::Ready(BodyKind::Binary));
    assert_eq!(d.on_response_sent(SinkOutcome::NotReady, true), Step::Wait);
    assert_eq!(d.on_response_sent(SinkOutcome::NotReady, true), Step::Wait);
    match d.response_action() {
        ResponseAction::SendResponse(Outgoing::Service) => (),
        _ => panic!("the same response again"),
    }
    assert_eq!(d.on_response_sent(SinkOutcome::Ready, true), Step::Progress);
    assert_eq!(d.get_state(), State::SendPayload { stream: false, chunk: true });
    assert_eq!(d.on_chunk_sent(SinkOutcome::NotReady), Step::Wait);
    match d.response_action() {
        ResponseAction::SendChunk => (),
        _ => panic!("the same chunk again"),
    }
}
