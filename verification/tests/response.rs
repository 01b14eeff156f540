use actix_web::response::{
    keep_alive_of, Body, ConnectionType, ContentEncoding, HttpVersion, MessagePool, Response,
    ResponseHead,
};

fn header<'a>(r: &'a Response, name: &str) -> Option<&'a [u8]> {
    r.headers()
        .iter()
        .find(|(k, _)| k.as_slice() == name.as_bytes())
        .map(|(_, v)| v.as_slice())
}

#[test]
fn test_update_response_cookies() {
    let mut r = Response::build(200).cookie("original", "val100").finish();

    r.add_cookie("cookie2", "val200").unwrap();
    r.add_cookie("cookie2", "val250").unwrap();
    r.add_cookie("cookie3", "val300").unwrap();

    assert_eq!(r.cookies().len(), 4);
    r.del_cookie("cookie2");

    let cookies = r.cookies();
    let mut iter = cookies.iter();
    let v = iter.next().unwrap();
    assert_eq!((v.0.as_str(), v.1.as_str()), ("original", "val100"));
    let v = iter.next().unwrap();
    assert_eq!((v.0.as_str(), v.1.as_str()), ("cookie3", "val300"));
}

#[test]
fn test_basic_builder() {
    let resp = Response::build(200).header("X-TEST", "value").finish();
    assert_eq!(resp.status(), 200);
}

#[test]
fn test_upgrade() {
    let resp = Response::build(200).upgrade().finish();
    assert!(resp.upgrade())
}

#[test]
fn test_force_close() {
    let resp = Response::build(200).force_close().finish();
    assert!(!resp.keep_alive().unwrap())
}

#[test]
fn test_content_type() {
    let resp = Response::build(200).content_type("text/plain").body(Body::Empty);
    assert_eq!(header(&resp, "content-type").unwrap(), b"text/plain")
}

#[test]
fn test_into_response() {
    let resp = Response::from_text("test");
    assert_eq!(resp.status(), 200);
    assert_eq!(header(&resp, "content-type").unwrap(), b"text/plain; charset=utf-8");
    match resp.body() {
        Body::Binary(b) => assert_eq!(b.as_slice(), b"test"),
        _ => panic!("binary body"),
    }

    let resp = Response::from_bytes(b"test");
    assert_eq!(resp.status(), 200);
    assert_eq!(header(&resp, "content-type").unwrap(), b"application/octet-stream");
    match resp.body() {
        Body::Binary(b) => assert_eq!(b.as_slice(), b"test"),
        _ => panic!("binary body"),
    }

    let resp = Response::from_text(&"test".to_owned());
    assert_eq!(resp.status(), 200);
    assert_eq!(header(&resp, "content-type").unwrap(), b"text/plain; charset=utf-8");
}

#[test]
fn test_into_builder() {
    let mut resp = Response::from_text("test");
    assert_eq!(resp.status(), 200);

    resp.add_cookie("cookie1", "val100").unwrap();

    let mut builder = resp.into_builder();
    let resp = builder.status(400).finish();
    assert_eq!(resp.status(), 400);

    let cookies = resp.cookies();
    let cookie = cookies.first().unwrap();
    assert_eq!((cookie.0.as_str(), cookie.1.as_str()), ("cookie1", "val100"));
}

#[test]
fn builder_header_names_are_lower_case() {
    let resp = Response::build(200).header("X-TEST", "value").finish();
    assert_eq!(header(&resp, "x-test").unwrap(), b"value");
}

#[test]
fn builder_invalid_header_gives_error_response() {
    let resp = Response::build(200).header("bad name", "value").finish();
    assert_eq!(resp.status(), 500);
    let resp = Response::build(200).header("x-ok", "bad\nvalue").finish();
    assert_eq!(resp.status(), 500);
}

#[test]
fn builder_content_type_replaces() {
    let resp = Response::build(200)
        .content_type("text/plain")
        .content_type("text/html")
        .finish();
    let n = resp.headers().iter().filter(|(k, _)| k.as_slice() == b"content-type").count();
    assert_eq!(n, 1);
    assert_eq!(header(&resp, "content-type").unwrap(), b"text/html");
}

#[test]
fn builder_content_length_digits() {
    let resp = Response::build(200).content_length(1024).finish();
    assert_eq!(header(&resp, "content-length").unwrap(), b"1024");
    let resp = Response::build(200).content_length(0).finish();
    assert_eq!(header(&resp, "content-length").unwrap(), b"0");
}

#[test]
fn builder_chunking_and_capacity() {
    let resp = Response::build(200).chunked().write_buffer_capacity(10).finish();
    assert_eq!(resp.chunked(), Some(true));
    assert_eq!(resp.write_buffer_capacity(), 10);
    let resp = Response::build(200).no_chunking().finish();
    assert_eq!(resp.chunked(), Some(false));
}

#[test]
fn reason_defaults_to_canonical() {
    let resp = Response::new(404);
    assert_eq!(resp.reason(), "Not Found");
    let mut resp = Response::new(200);
    resp.set_reason("Fine");
    assert_eq!(resp.reason(), "Fine");
    let resp = Response::new(599);
    assert_eq!(resp.reason(), "<unknown status code>");
    let resp = Response::build(200).reason("Yes").finish();
    assert_eq!(resp.reason(), "Yes");
}

#[test]
fn keep_alive_by_connection_type() {
    assert_eq!(keep_alive_of(None), None);
    assert_eq!(keep_alive_of(Some(ConnectionType::KeepAlive)), Some(true));
    assert_eq!(keep_alive_of(Some(ConnectionType::Close)), Some(false));
    assert_eq!(keep_alive_of(Some(ConnectionType::Upgrade)), Some(false));
}

#[test]
fn replace_body_gives_previous() {
    let mut resp = Response::with_body(200, Body::Binary(b"a".to_vec()));
    let prev = resp.replace_body(Body::Empty);
    match prev {
        Body::Binary(b) => assert_eq!(b, b"a".to_vec()),
        _ => panic!("binary body"),
    }
    match resp.body() {
        Body::Empty => (),
        _ => panic!("empty body"),
    }
}

#[test]
fn del_cookie_counts_and_keeps_others() {
    let mut r = Response::new(200);
    r.append_header(b"x-a".to_vec(), b"1".to_vec());
    r.add_cookie("a", "1").unwrap();
    r.add_cookie("b", "2").unwrap();
    r.add_cookie("a", "3").unwrap();
    assert_eq!(r.del_cookie("a"), 2);
    assert_eq!(r.del_cookie("a"), 0);
    let cookies = r.cookies();
    assert_eq!(cookies.len(), 1);
    assert_eq!(cookies[0].0, "b");
    assert_eq!(header(&r, "x-a").unwrap(), b"1");
}

#[test]
fn add_cookie_rejects_control_characters() {
    let mut r = Response::new(200);
    assert!(r.add_cookie("a", "x\u{7f}y").is_err());
    assert!(r.cookies().is_empty());
}

#[test]
fn response_head_keep_alive() {
    let mut head = ResponseHead::new();
    assert!(head.keep_alive());
    head.version = HttpVersion::Http10;
    assert!(!head.keep_alive());
    head.connection_type = Some(ConnectionType::KeepAlive);
    assert!(head.keep_alive());
    head.connection_type = Some(ConnectionType::Upgrade);
    assert!(!head.keep_alive());
    assert!(head.upgrade());
}

#[test]
fn message_pool_is_bounded() {
    let mut pool: MessagePool<u32> = MessagePool::new();
    assert_eq!(pool.get(), None);
    for i in 0..128 {
        assert!(pool.release(i));
    }
    assert!(!pool.release(999));
    assert_eq!(pool.get(), Some(127));
}

#[test]
fn version_order() {
    assert!(!HttpVersion::Http10.at_least_http11());
    assert!(HttpVersion::Http11.at_least_http11());
    assert!(HttpVersion::H2.at_least_http11());
}

#[test]
fn test_content_encoding() {
    let resp = Response::build(200).finish();
    assert_eq!(resp.content_encoding(), None);

    let resp = Response::build(200).content_encoding(ContentEncoding::Br).finish();
    assert_eq!(resp.content_encoding(), Some(ContentEncoding::Br));

    let resp = Response::build(200).content_encoding(ContentEncoding::Gzip).finish();
    assert_eq!(resp.content_encoding(), Some(ContentEncoding::Gzip));
}

#[test]
fn builder_if_true_and_if_some() {
    let resp = Response::build(200).if_true(true, |b| { b.status(404); }).finish();
    assert_eq!(resp.status(), 404);
    let resp = Response::build(200).if_true(false, |b| { b.status(404); }).finish();
    assert_eq!(resp.status(), 200);
    let resp = Response::build(200).if_some(Some(201u16), |s, b| { b.status(s); }).finish();
    assert_eq!(resp.status(), 201);
    let resp = Response::build(200).if_some(None::<u16>, |s, b| { b.status(s); }).finish();
    assert_eq!(resp.status(), 200);
}

#[test]
fn builder_cookies_are_written_on_finish() {
    let resp = Response::build(200).cookie("a", "1").cookie("a", "2").cookie("b", "3").finish();
    let mut cs = resp.cookies();
    cs.sort();
    assert_eq!(cs, vec![("a".to_owned(), "2".to_owned()), ("b".to_owned(), "3".to_owned())]);

    let resp = Response::build(200).cookie("a", "1").del_cookie("a", "1").finish();
    let vals: Vec<&Vec<u8>> = resp.headers().iter().filter(|(k, _)| k.as_slice() == b"set-cookie").map(|(_, v)| v).collect();
    assert_eq!(vals.len(), 1);
    assert!(vals[0].starts_with(b"a=; Max-Age=0"));

    let resp = Response::build(200).cookie("bad", "x\u{1}y").finish();
    assert_eq!(resp.status(), 500);
}

#[test]
fn into_builder_keeps_cookies_as_originals() {
    let mut r = Response::build(200).finish();
    r.add_cookie("sess", "abc").unwrap();
    let resp = r.into_builder().del_cookie("sess", "abc").finish();
    let vals: Vec<&Vec<u8>> = resp.headers().iter().filter(|(k, _)| k.as_slice() == b"set-cookie").map(|(_, v)| v).collect();
    assert_eq!(vals.len(), 2);
    assert_eq!(vals[0], &b"sess=abc".to_vec());
    assert!(vals[1].starts_with(b"sess=; Max-Age=0"));
}
