use actix_web::response::{Body, HttpVersion};
use actix_web::server::{
    bind_result, contains, request_upgrade, write_headers, H1Writer, HttpServiceBuilder,
    ResponseMessage, ServerSettings,
};

fn msg(version: Option<HttpVersion>, upgrade: bool, headers: Vec<(&str, &str)>, body: Body) -> ResponseMessage {
    ResponseMessage {
        version,
        status: 200,
        reason: b"OK".to_vec(),
        upgrade,
        headers: headers
            .into_iter()
            .map(|(k, v)| (k.as_bytes().to_vec(), v.as_bytes().to_vec()))
            .collect(),
        body,
    }
}

#[test]
fn encode_writes_head_and_binary_body() {
    let mut w = H1Writer::new();
    let mut m = msg(None, false, vec![("content-type", "text/plain")], Body::Binary(b"hi".to_vec()));
    let mut buf = Vec::new();
    w.encode(&mut m, &mut buf);
    assert_eq!(
        String::from_utf8(buf.clone()).unwrap(),
        "HTTP/1.1 200 OK\r\ncontent-type: text/plain\r\nconnection: close\r\n\r\nhi"
    );
    assert_eq!(w.written(), 2);
    assert!(!w.keepalive());
    assert!(!w.upgrade());
    match m.body {
        Body::Empty => (),
        _ => panic!("the binary body moves out"),
    }
}

#[test]
fn encode_upgrade_sets_connection_upgrade() {
    let mut w = H1Writer::new();
    let mut m = msg(Some(HttpVersion::Http11), true, vec![("connection", "keep-alive"), ("x", "1")], Body::Streaming);
    let mut buf = Vec::new();
    w.encode(&mut m, &mut buf);
    assert_eq!(
        String::from_utf8(buf).unwrap(),
        "HTTP/1.1 200 OK\r\nconnection: upgrade\r\nx: 1\r\n\r\n"
    );
    assert!(w.upgrade());
    assert!(!w.keepalive());
    match m.body {
        Body::Streaming => (),
        _ => panic!("a streaming body stays"),
    }
}

#[test]
fn encode_http10_has_no_connection_header() {
    let mut w = H1Writer::new();
    let mut m = msg(Some(HttpVersion::Http10), false, vec![("transfer-encoding", "chunked"), ("content-length", "5")], Body::Empty);
    let mut buf = b"prev".to_vec();
    w.encode(&mut m, &mut buf);
    assert_eq!(
        String::from_utf8(buf.clone()).unwrap(),
        "prevHTTP/1.0 200 OK\r\ncontent-length: 5\r\n\r\n"
    );
    assert_eq!(w.written(), 0);
}

#[test]
fn writer_reset_keeps_alive() {
    let mut w = H1Writer::new();
    assert!(!w.keepalive());
    w.reset();
    assert!(w.keepalive());
    assert_eq!(w.written(), 0);
}

#[test]
fn write_headers_skips_transfer_encoding_and_finds_date() {
    let headers = vec![
        (b"date".to_vec(), b"today".to_vec()),
        (b"transfer-encoding".to_vec(), b"chunked".to_vec()),
        (b"content-length".to_vec(), b"3".to_vec()),
    ];
    let mut buf = Vec::new();
    assert!(write_headers(&headers, false, &mut buf));
    assert_eq!(buf, b"date: today\r\n".to_vec());
    let mut buf = Vec::new();
    assert!(write_headers(&headers, true, &mut buf));
    assert_eq!(buf, b"date: today\r\ncontent-length: 3\r\n".to_vec());
    let mut buf = Vec::new();
    assert!(!write_headers(&headers[1..].to_vec(), true, &mut buf));
}

#[test]
fn upgrade_detection() {
    assert!(request_upgrade(Some(b"Upgrade"), false));
    assert!(request_upgrade(Some(b"keep-alive, UPGRADE"), false));
    assert!(!request_upgrade(Some(b"keep-alive"), true));
    assert!(request_upgrade(None, true));
    assert!(!request_upgrade(None, false));
    assert!(request_upgrade(Some(b"\x01upgrade"), true));
}

#[test]
fn contains_finds_needle() {
    assert!(contains(&b"hello world".to_vec(), b"o w"));
    assert!(!contains(&b"hello".to_vec(), b"hello!"));
    assert!(contains(&b"abc".to_vec(), b""));
}

#[test]
fn bind_result_prefers_sockets() {
    let r: Result<Vec<u32>, Option<&str>> = bind_result(vec![Err("a"), Ok(1), Err("b"), Ok(2)]);
    assert_eq!(r, Ok(vec![1, 2]));
    let r: Result<Vec<u32>, Option<&str>> = bind_result(vec![Err("a"), Err("b")]);
    assert_eq!(r, Err(Some("b")));
    let r: Result<Vec<u32>, Option<&str>> = bind_result(vec![]);
    assert_eq!(r, Err(None));
}

#[test]
fn server_settings_host() {
    let s: ServerSettings<u32> = ServerSettings::default_settings();
    assert_eq!(s.host(), "localhost:8080");
    assert!(!s.secure());
    assert_eq!(*s.local_addr(), None);
    let s = ServerSettings::new(Some((7u32, "127.0.0.1:80".to_owned())), true);
    assert_eq!(s.host(), "127.0.0.1:80");
    assert!(s.secure());
    assert_eq!(*s.local_addr(), Some(7));
    let s: ServerSettings<u32> = ServerSettings::new(None, false);
    assert_eq!(s.host(), "unknown");
}

#[test]
fn builder_client_timeout() {
    let b: HttpServiceBuilder<u8, (), u8, u8> = HttpServiceBuilder::new(1, 2, 3);
    assert_eq!(b.client_timeout(5000), 5000);
    let b = b.no_client_timer();
    assert_eq!(b.client_timeout(5000), 0);
    let b = b.acceptor(9u16).pipeline(10u32);
    assert_eq!(b.client_timeout(5000), 0);
}
