use actix_web::context::{ActorState, ContextAction, Frame, Hook, HttpContext};

#[test]
fn frames_are_handed_out_in_order_then_the_stream_ends() {
    let mut ctx: HttpContext<u16> = HttpContext::new();
    ctx.set_actor();
    assert_eq!(ctx.poll_start(), Hook::Started);
    assert_eq!(ctx.state(), ActorState::Running);
    ctx.start(200);
    ctx.write(b"hello".to_vec());
    ctx.stop();
    assert_eq!(ctx.state(), ActorState::Stopping);

    match ctx.poll_frame(false, false, true) {
        (ContextAction::Frame, Some(Frame::Message(200)), false) => (),
        _ => panic!("response first"),
    }
    match ctx.poll_frame(false, false, true) {
        (ContextAction::Frame, Some(Frame::Payload(Some(d))), false) => assert_eq!(d, b"hello".to_vec()),
        _ => panic!("body next"),
    }
    match ctx.poll_frame(false, false, true) {
        (ContextAction::Frame, Some(Frame::Payload(None)), false) => (),
        _ => panic!("end of body"),
    }
    match ctx.poll_frame(false, false, true) {
        (ContextAction::Stopping, None, true) => (),
        _ => panic!("told it is stopping"),
    }
    match ctx.poll_frame(true, false, true) {
        (ContextAction::End, None, true) => (),
        _ => panic!("stream ends"),
    }
    assert_eq!(ctx.state(), ActorState::Stopped);
}

#[test]
fn terminated_context_ends_at_once() {
    let mut ctx: HttpContext<u16> = HttpContext::new();
    ctx.set_actor();
    ctx.terminate();
    match ctx.poll_frame(false, true, false) {
        (ContextAction::End, None, false) => (),
        _ => panic!("end"),
    }
}

#[test]
fn context_without_actor_waits_and_changes_nothing() {
    let mut ctx: HttpContext<u16> = HttpContext::new();
    ctx.start(200);
    assert_eq!(ctx.poll_start(), Hook::Nothing);
    assert_eq!(ctx.state(), ActorState::Started);
    match ctx.poll_frame(false, false, true) {
        (ContextAction::Wait, None, false) => (),
        _ => panic!("wait"),
    }
    ctx.set_actor();
    assert_eq!(ctx.poll_start(), Hook::Started);
    match ctx.poll_frame(false, false, true) {
        (ContextAction::Frame, Some(Frame::Message(200)), false) => (),
        _ => panic!("frame"),
    }
}
