use actix_web::channel::{detect_protocol, on_first_read, ChannelStep, Node, ProtocolKind, ReadOutcome, Registry};
use actix_web::codec::{FlushStep, FramedWrite2, WriteOutcome};
use actix_web::context::{poll_start, poll_step, stop, terminate, ActorState, ContextAction, Hook};
use actix_web::h2::{capacity_to_release, cleanup, on_server_event, round_outcome, route, EntryAction, EntryState, PollResult, ServerEvent, Unread};
use actix_web::worker::{available, grace_check, negotiated_http2, on_stop, tcp_keep_alive, StopAction, StreamHandlerType};
use std::collections::VecDeque;
use actix_web::channel::{on_slow_request, SlowRequest};
use actix_web::worker::next_worker;

#[test]
fn protocol_detection() {
    assert_eq!(detect_protocol(b"PRI * HTTP/2.0\r\n\r\nSM"), Some(ProtocolKind::Http2));
    assert_eq!(detect_protocol(b"GET / HTTP/1.1\r\n"), Some(ProtocolKind::Http1));
    assert_eq!(detect_protocol(b"PRI * HTTP"), None);
}

#[test]
fn first_read_decisions() {
    assert_eq!(on_first_read(ReadOutcome::Ready(false, true), b""), ChannelStep::Close);
    assert_eq!(on_first_read(ReadOutcome::Failed, b""), ChannelStep::Fail);
    assert_eq!(on_first_read(ReadOutcome::NotReady, b"GET"), ChannelStep::Wait);
    assert_eq!(
        on_first_read(ReadOutcome::Ready(true, true), b"GET / HTTP/1.1\r\n"),
        ChannelStep::Start(ProtocolKind::Http1, true)
    );
    assert_eq!(
        on_first_read(ReadOutcome::Ready(true, false), b"PRI * HTTP/2.0"),
        ChannelStep::Start(ProtocolKind::Http2, false)
    );
}

#[test]
fn registry_insert_remove() {
    let mut r = Registry::head();
    let a = Node::new("a", 1);
    let b = Node::new("b", 2);
    r.insert(&a);
    r.insert(&b);
    r.insert(&a);
    assert_eq!(r.traverse(), vec![2, 1]);
    r.remove(&b);
    assert_eq!(r.traverse(), vec![1]);
    assert!(r.contains(1));
    assert!(!r.contains(2));
    let mut n = Node::new(5u32, 3);
    *n.get_mut() += 1;
    assert_eq!(*n.get_mut(), 6);
    assert_eq!(n.get_key(), 3);
}

#[test]
fn write_buffer_watermarks_and_flush() {
    let mut w = FramedWrite2::new(2, 4);
    assert!(w.start_send(&b"abc".to_vec()));
    assert!(!w.is_full());
    assert!(w.start_send(&b"de".to_vec()));
    assert!(w.is_full());
    assert!(!w.start_send(&b"x".to_vec()));
    w.force_send(&b"f".to_vec());
    assert_eq!(w.buffer(), &b"abcdef".to_vec());
    assert_eq!(w.flush_start(), FlushStep::More);
    assert_eq!(w.on_write(WriteOutcome::Written(4)), FlushStep::More);
    assert_eq!(w.buffer(), &b"ef".to_vec());
    assert_eq!(w.on_write(WriteOutcome::NotReady), FlushStep::Wait);
    assert_eq!(w.on_write(WriteOutcome::Written(0)), FlushStep::WriteZero);
    assert_eq!(w.on_write(WriteOutcome::Written(2)), FlushStep::Flush);
    assert!(w.is_empty());
}

#[test]
fn write_buffer_with_initial_bytes() {
    let w = FramedWrite2::with_buffer(b"xy".to_vec(), 1, 8);
    assert_eq!(w.buffer(), &b"xy".to_vec());
    assert_eq!(w.flush_start(), FlushStep::More);
}

#[test]
fn actor_lifecycle() {
    assert_eq!(poll_start(ActorState::Started), (Hook::Started, ActorState::Running));
    assert_eq!(poll_start(ActorState::Stopping), (Hook::Stopping, ActorState::Stopping));
    assert_eq!(poll_step(ActorState::Running, false, true, false, true).0, ContextAction::Frame);
    assert_eq!(poll_step(ActorState::Running, false, false, false, true), (ContextAction::Stopping, ActorState::Stopping, true));
    assert_eq!(poll_step(ActorState::Stopping, true, false, true, true), (ContextAction::Again, ActorState::Running, true));
    assert_eq!(poll_step(ActorState::Stopping, true, false, false, true), (ContextAction::End, ActorState::Stopped, true));
    assert_eq!(poll_step(ActorState::Running, false, false, true, true), (ContextAction::Wait, ActorState::Running, false));
    assert_eq!(stop(ActorState::Running), ActorState::Stopping);
    assert_eq!(stop(ActorState::Started), ActorState::Started);
    assert_eq!(terminate(ActorState::Running), ActorState::Stopped);
}

#[test]
fn http2_routing_first_prefix() {
    let prefixes = vec!["/api".to_owned(), "/".to_owned()];
    assert_eq!(route("/api/x", &prefixes), Some(0));
    assert_eq!(route("/other", &prefixes), Some(1));
    let prefixes = vec!["/api".to_owned()];
    assert_eq!(route("/other", &prefixes), None);
}

#[test]
fn http2_entry_life() {
    let mut e = EntryState::new();
    assert_eq!(e.action(), EntryAction::PollIo);
    assert_eq!(e.on_io(PollResult::NotReady), (false, false));
    assert_eq!(e.on_io(PollResult::Ready(false)), (true, false));
    assert_eq!(e.action(), EntryAction::PollTask);
    assert!(!e.is_done());
    assert!(e.on_task(PollResult::Ready(true)));
    assert!(e.is_done());
    assert_eq!(e.action(), EntryAction::Nothing);

    let mut f = EntryState::new();
    assert_eq!(f.on_io(PollResult::Failed), (false, true));
    assert!(f.is_done());
}

#[test]
fn http2_cleanup_front_only() {
    let done = EntryState { eof: true, finished: true, error: false };
    let busy = EntryState::new();
    let failed = EntryState { eof: false, finished: false, error: true };
    let mut tasks: VecDeque<(EntryState, u32)> = VecDeque::new();
    tasks.push_back((done, 1));
    tasks.push_back((failed, 2));
    tasks.push_back((busy, 3));
    tasks.push_back((done, 4));
    cleanup(&mut tasks);
    assert_eq!(tasks.iter().map(|t| t.1).collect::<Vec<_>>(), vec![3, 4]);
}

#[test]
fn http2_round_and_server() {
    assert_eq!(round_outcome(true, true, true), None);
    assert_eq!(round_outcome(false, true, true), Some(true));
    assert_eq!(round_outcome(false, false, true), Some(false));
    assert_eq!(on_server_event(true, ServerEvent::Stream), (false, true));
    assert_eq!(on_server_event(false, ServerEvent::Closed), (true, true));
    assert_eq!(on_server_event(false, ServerEvent::Stream), (true, false));
    assert_eq!(capacity_to_release(0, 10), Some(10));
    assert_eq!(capacity_to_release(10, 10), None);
}

#[test]
fn unread_bytes_first() {
    let mut u = Unread::new(b"hello".to_vec());
    assert_eq!(u.read(2), Some(b"he".to_vec()));
    assert_eq!(u.read(10), Some(b"llo".to_vec()));
    assert_eq!(u.read(10), None);
}

#[test]
fn worker_decisions() {
    let t: StreamHandlerType<(), (), ()> = StreamHandlerType::Normal;
    assert!(!t.is_ssl());
    assert_eq!(t.scheme(), "http");
    let t: StreamHandlerType<u8, (), ()> = StreamHandlerType::Tls(1);
    assert!(t.is_ssl());
    assert_eq!(t.scheme(), "https");
    assert!(negotiated_http2(Some(b"h2")));
    assert!(!negotiated_http2(Some(b"http/1.1")));
    assert!(!negotiated_http2(None));
    assert!(available(10, 5, 9, 4));
    assert!(!available(10, 5, 10, 4));
    assert!(!available(10, 5, 1, 5));
    assert_eq!(tcp_keep_alive(Some(75)), Some(75));
    assert_eq!(tcp_keep_alive(None), None);
    assert_eq!(on_stop(0, Some(10)), StopAction::Reply(true));
    assert_eq!(on_stop(3, Some(10)), StopAction::Wait(10));
    assert_eq!(on_stop(3, None), StopAction::Reply(false));
    assert_eq!(grace_check(3, 2), StopAction::Wait(1));
    assert_eq!(grace_check(3, 0), StopAction::Reply(false));
    assert_eq!(grace_check(0, 0), StopAction::Reply(true));
}

use actix_web::channel::{on_h1_poll, on_h2_poll, ChannelAction, ChannelCounter, H1Outcome};

#[test]
fn live_connection_steps() {
    assert_eq!(on_h1_poll(H1Outcome::Done), ChannelAction::Finish(true));
    assert_eq!(on_h1_poll(H1Outcome::Switch), ChannelAction::UpgradeH2);
    assert_eq!(on_h1_poll(H1Outcome::NotReady), ChannelAction::Wait);
    assert_eq!(on_h1_poll(H1Outcome::Failed), ChannelAction::Finish(false));
    assert_eq!(on_h2_poll(None), ChannelAction::Wait);
    assert_eq!(on_h2_poll(Some(false)), ChannelAction::Finish(false));
    let mut c = ChannelCounter::new();
    c.add_channel();
    c.add_channel();
    c.remove_channel();
    assert_eq!(c.num_channels(), 1);
}

#[test]
fn slow_request_timer() {
    assert_eq!(on_slow_request(true), SlowRequest::AnswerTimeout);
    assert_eq!(on_slow_request(false), SlowRequest::Close);
}

#[test]
fn accepted_connections_go_round_robin() {
    assert_eq!(next_worker(0, 3), 1);
    assert_eq!(next_worker(1, 3), 2);
    assert_eq!(next_worker(2, 3), 0);
    assert_eq!(next_worker(0, 1), 0);
}
