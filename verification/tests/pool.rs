use actix_web::pool::{probe_action, Candidate, Key, PoolInner, ProbeAction, ProbeOutcome};

#[test]
fn key_is_lower_case_authority() {
    let k = Key::from(b"Example.COM:80");
    assert_eq!(k.as_bytes(), &b"example.com:80".to_vec());
    assert!(k.same(&Key::from(b"example.com:80")));
    assert!(!k.same(&Key::from(b"example.org:80")));
}

#[test]
fn limit_refuses_once_reached() {
    let mut p: PoolInner<u32> = PoolInner::new(1000, 100, Some(5), 2);
    assert!(p.acquire_start());
    assert!(p.acquire_start());
    assert!(!p.acquire_start());
    p.release();
    assert!(p.acquire_start());
}

#[test]
fn no_limit_never_refuses() {
    let mut p: PoolInner<u32> = PoolInner::new(1000, 100, None, 0);
    for _ in 0..100 {
        assert!(p.acquire_start());
    }
}

#[test]
fn released_connection_is_reused_then_exhausted() {
    let mut p: PoolInner<u32> = PoolInner::new(1000, 100, Some(5), 0);
    let key = Key::from(b"host:1");
    assert!(p.acquire_start());
    p.release_conn(&key, 7, 0, 10);
    match p.acquire_next(&key, 20) {
        Candidate::Fresh(io, created) => {
            assert_eq!(io, 7);
            assert_eq!(created, 0);
        },
        _ => panic!("the released connection"),
    }
    match p.acquire_next(&key, 20) {
        Candidate::Exhausted => (),
        _ => panic!("nothing left"),
    }
}

#[test]
fn stale_connection_is_handed_back_to_close() {
    let mut p: PoolInner<u32> = PoolInner::new(1000, 100, Some(5), 0);
    let key = Key::from(b"host:1");
    assert!(p.acquire_start());
    p.release_conn(&key, 7, 0, 10);
    match p.acquire_next(&key, 200) {
        Candidate::Stale(io, timeout) => {
            assert_eq!(io, 7);
            assert_eq!(timeout, Some(5));
        },
        _ => panic!("idle too long"),
    }
}

#[test]
fn most_recent_release_first() {
    let mut p: PoolInner<u32> = PoolInner::new(1000, 100, None, 0);
    let key = Key::from(b"h:1");
    assert!(p.acquire_start());
    assert!(p.acquire_start());
    p.release_conn(&key, 1, 0, 0);
    p.release_conn(&key, 2, 0, 0);
    match p.acquire_next(&key, 0) {
        Candidate::Fresh(io, _) => assert_eq!(io, 2),
        _ => panic!("fresh"),
    }
}

#[test]
fn release_close_uses_disconnect_timeout() {
    let mut p: PoolInner<u32> = PoolInner::new(1000, 100, Some(9), 0);
    assert!(p.acquire_start());
    assert_eq!(p.release_close(3), Some((3, 9)));
    let mut p: PoolInner<u32> = PoolInner::new(1000, 100, None, 0);
    assert!(p.acquire_start());
    assert_eq!(p.release_close(3), None);
}

#[test]
fn probe_decisions() {
    assert_eq!(probe_action(ProbeOutcome::WouldBlock, Some(1)), ProbeAction::Use);
    assert_eq!(probe_action(ProbeOutcome::Read(2), Some(1)), ProbeAction::Close(1));
    assert_eq!(probe_action(ProbeOutcome::Read(2), None), ProbeAction::Drop);
    assert_eq!(probe_action(ProbeOutcome::Read(0), Some(1)), ProbeAction::Drop);
    assert_eq!(probe_action(ProbeOutcome::Failed, Some(1)), ProbeAction::Drop);
}

#[test]
fn waiters_start_empty() {
    let mut p: PoolInner<u32> = PoolInner::new(1000, 100, None, 1);
    assert!(p.front_waiter().is_none());
    assert!(!p.check_availability());
    p.release_waiter(&Key::from(b"a"), 1);
    p.remove_front_waiter();
    assert!(p.front_waiter().is_none());
}
