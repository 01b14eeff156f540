use actix_web::payload::{Async, Payload};

#[derive(Debug, PartialEq)]
enum PayloadError {
    Incomplete,
}

#[test]
fn test_basic() {
    let mut payload: Payload<PayloadError> = Payload::new(false);

    assert!(!payload.eof());
    assert!(payload.is_empty());
    assert_eq!(payload.len(), 0);

    match payload.readany() {
        Ok(Async::NotReady) => (),
        _ => panic!("error"),
    }
}

#[test]
fn test_eof() {
    let mut payload: Payload<PayloadError> = Payload::new(false);

    match payload.readany() {
        Ok(Async::NotReady) => (),
        _ => panic!("error"),
    }

    assert!(!payload.eof());

    payload.feed_data(b"data".to_vec());
    payload.feed_eof();

    assert!(!payload.eof());

    match payload.readany() {
        Ok(Async::Ready(Some(data))) => assert_eq!(&data.0, b"data"),
        _ => panic!("error"),
    }
    assert!(payload.is_empty());
    assert!(payload.eof());
    assert_eq!(payload.len(), 0);

    match payload.readany() {
        Ok(Async::Ready(None)) => (),
        _ => panic!("error"),
    }
}

#[test]
fn test_err() {
    let mut payload: Payload<PayloadError> = Payload::new(false);

    match payload.readany() {
        Ok(Async::NotReady) => (),
        _ => panic!("error"),
    }

    payload.set_error(PayloadError::Incomplete);
    match payload.readany() {
        Err(_) => (),
        _ => panic!("error"),
    }
}

#[test]
fn test_readany() {
    let mut payload: Payload<PayloadError> = Payload::new(false);

    payload.feed_data(b"line1".to_vec());

    assert!(!payload.is_empty());
    assert_eq!(payload.len(), 5);

    payload.feed_data(b"line2".to_vec());
    assert!(!payload.is_empty());
    assert_eq!(payload.len(), 10);

    match payload.readany() {
        Ok(Async::Ready(Some(data))) => assert_eq!(&data.0, b"line1"),
        _ => panic!("error"),
    }
    assert!(!payload.is_empty());
    assert_eq!(payload.len(), 5);
}

#[test]
fn test_readexactly() {
    let mut payload: Payload<PayloadError> = Payload::new(false);

    match payload.readexactly(2) {
        Ok(Async::NotReady) => (),
        _ => panic!("error"),
    }

    payload.feed_data(b"line1".to_vec());
    payload.feed_data(b"line2".to_vec());
    assert_eq!(payload.len(), 10);

    match payload.readexactly(2) {
        Ok(Async::Ready(data)) => assert_eq!(&data, b"li"),
        _ => panic!("error"),
    }
    assert_eq!(payload.len(), 8);

    match payload.readexactly(4) {
        Ok(Async::Ready(data)) => assert_eq!(&data, b"ne1l"),
        _ => panic!("error"),
    }
    assert_eq!(payload.len(), 4);

    payload.set_error(PayloadError::Incomplete);
    match payload.readexactly(10) {
        Err(_) => (),
        _ => panic!("error"),
    }
}

#[test]
fn test_readuntil() {
    let mut payload: Payload<PayloadError> = Payload::new(false);

    match payload.readuntil(b"ne") {
        Ok(Async::NotReady) => (),
        _ => panic!("error"),
    }

    payload.feed_data(b"line1".to_vec());
    payload.feed_data(b"line2".to_vec());
    assert_eq!(payload.len(), 10);

    match payload.readuntil(b"ne") {
        Ok(Async::Ready(data)) => assert_eq!(&data, b"line"),
        _ => panic!("error"),
    }
    assert_eq!(payload.len(), 6);

    match payload.readuntil(b"2") {
        Ok(Async::Ready(data)) => assert_eq!(&data, b"1line2"),
        _ => panic!("error"),
    }
    assert_eq!(payload.len(), 0);

    payload.set_error(PayloadError::Incomplete);
    match payload.readuntil(b"b") {
        Err(_) => (),
        _ => panic!("error"),
    }
}

#[test]
fn test_unread_data() {
    let mut payload: Payload<PayloadError> = Payload::new(false);

    payload.unread_data(b"data".to_vec());
    assert!(!payload.is_empty());
    assert_eq!(payload.len(), 4);

    match payload.readany() {
        Ok(Async::Ready(Some(data))) => assert_eq!(&data.0, b"data"),
        _ => panic!("error"),
    }
}

#[test]
fn unread_then_readany_returns_it_first() {
    let mut payload: Payload<PayloadError> = Payload::new(false);
    payload.feed_data(b"second".to_vec());
    payload.unread_data(b"first".to_vec());
    match payload.readany() {
        Ok(Async::Ready(Some(data))) => assert_eq!(&data.0, b"first"),
        _ => panic!("error"),
    }
    match payload.readany() {
        Ok(Async::Ready(Some(data))) => assert_eq!(&data.0, b"second"),
        _ => panic!("error"),
    }
}

#[test]
fn readline_reads_through_newline() {
    let mut payload: Payload<PayloadError> = Payload::new(false);
    payload.feed_data(b"GET / HTTP/1.1\r\nHost".to_vec());
    match payload.readline() {
        Ok(Async::Ready(data)) => assert_eq!(&data, b"GET / HTTP/1.1\r\n"),
        _ => panic!("error"),
    }
    assert_eq!(payload.len(), 4);
}

#[test]
fn readall_takes_everything() {
    let mut payload: Payload<PayloadError> = Payload::new(false);
    assert_eq!(payload.readall(), None);
    payload.feed_data(b"ab".to_vec());
    payload.feed_data(b"cd".to_vec());
    assert_eq!(payload.readall(), Some(b"abcd".to_vec()));
    assert!(payload.is_empty());
}

#[test]
fn readexactly_waits_for_enough_data() {
    let mut payload: Payload<PayloadError> = Payload::new(false);
    payload.feed_data(b"abc".to_vec());
    match payload.readexactly(5) {
        Ok(Async::NotReady) => (),
        _ => panic!("error"),
    }
    assert_eq!(payload.len(), 3);
}

#[test]
fn eof_with_no_data_reads_none() {
    let mut payload: Payload<PayloadError> = Payload::new(true);
    assert!(payload.eof());
    match payload.readany() {
        Ok(Async::Ready(None)) => (),
        _ => panic!("error"),
    }
}

#[test]
fn buffer_size_is_kept() {
    let mut payload: Payload<PayloadError> = Payload::new(false);
    payload.set_buffer_size(1024);
    assert_eq!(payload.buffer_size(), 1024);
    payload.feed_data(b"12345".to_vec());
    assert_eq!(payload.capacity(), 1019);
}

#[test]
fn readuntil_finds_line_after_partial_match() {
    let mut payload: Payload<PayloadError> = Payload::new(false);
    payload.feed_data(b"aab".to_vec());
    match payload.readuntil(b"ab") {
        Ok(Async::Ready(data)) => assert_eq!(data, b"aab".to_vec()),
        _ => panic!("error"),
    }
    assert_eq!(payload.len(), 0);
}

#[test]
fn readuntil_finds_line_across_chunks() {
    let mut payload: Payload<PayloadError> = Payload::new(false);
    payload.feed_data(b"xa".to_vec());
    payload.feed_data(b"abyz".to_vec());
    match payload.readuntil(b"ab") {
        Ok(Async::Ready(data)) => assert_eq!(data, b"xaab".to_vec()),
        _ => panic!("error"),
    }
    assert_eq!(payload.len(), 2);
    assert_eq!(payload.readall(), Some(b"yz".to_vec()));
}

#[test]
fn readexactly_on_chunk_boundary() {
    let mut payload: Payload<PayloadError> = Payload::new(false);
    payload.feed_data(b"line1".to_vec());
    payload.feed_data(b"line2".to_vec());
    match payload.readexactly(5) {
        Ok(Async::Ready(data)) => assert_eq!(data, b"line1".to_vec()),
        _ => panic!("error"),
    }
    assert_eq!(payload.len(), 5);
    match payload.readexactly(0) {
        Ok(Async::Ready(data)) => assert!(data.is_empty()),
        _ => panic!("error"),
    }
    match payload.readexactly(5) {
        Ok(Async::Ready(data)) => assert_eq!(data, b"line2".to_vec()),
        _ => panic!("error"),
    }
    assert_eq!(payload.len(), 0);
}

#[test]
fn test_error() {
    let err = actix_web::dispatcher::PayloadError::Incomplete;
    assert_eq!(err.message(), "A payload reached EOF, but is not complete.");
}
