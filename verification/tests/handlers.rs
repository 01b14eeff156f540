use actix_web::client::{ClientRequest, ClientResponse};
use actix_web::resource::{Method, Resource};
use actix_web::response::{Body, HttpVersion};
use actix_web::route::{continue_response, expect, ExpectError, FnHandler, StreamHandler};
use actix_web::service::{AndThen, AndThenBuild, ApplyBuild, ApplyNewService, Apply, MapErr};
use actix_web::services::{ServerMessage, ServerService, ServiceNewService, StreamService};
use actix_web::ssl::{OpensslAcceptor, OpensslConnector, OpensslConnectorService};
use actix_web::ws::service::VerifyWebSockets;

#[test]
fn expect_header_handling() {
    assert_eq!(expect(HttpVersion::Http11, Some(b"100-Continue")), Ok(true));
    assert_eq!(expect(HttpVersion::Http11, None), Ok(false));
    assert_eq!(expect(HttpVersion::Http10, Some(b"other")), Ok(false));
    assert_eq!(expect(HttpVersion::Http11, Some(b"other")), Err(ExpectError::UnknownExpect));
    assert_eq!(expect(HttpVersion::Http11, Some(b"\x01")), Err(ExpectError::Encoding));
    assert_eq!(continue_response(), b"HTTP/1.1 100 Continue\r\n\r\n".to_vec());
}

#[test]
fn fn_handler_calls_function() {
    let h: FnHandler<(), usize, _> = FnHandler::new(|req: &str| req.len());
    assert_eq!(h.handle("abc"), 3);
    let s: StreamHandler<(), Vec<u8>, _> = StreamHandler::new(|req: u8| vec![req; 2]);
    assert_eq!(s.handle(7u8), vec![7, 7]);
}

#[test]
fn resource_dispatches_by_method() {
    let mut r: Resource<&str> = Resource::new();
    r.get("get");
    r.post("post");
    r.handler(Method::Get, "get2");
    r.name("res".to_owned());
    assert_eq!(r.handle(Method::Get), Ok(&"get2"));
    assert_eq!(r.handle(Method::Post), Ok(&"post"));
    assert_eq!(r.handle(Method::Put), Err(405));
    let r: Resource<&str> = Resource::default_not_found();
    assert_eq!(r.handle(Method::Get), Err(404));
}

#[test]
fn client_response_defaults() {
    let mut r: ClientResponse<u32> = ClientResponse::new();
    assert_eq!(r.status(), 200);
    assert_eq!(r.version(), HttpVersion::Http11);
    assert!(r.keep_alive());
    assert!(r.headers().is_empty());
    r.head_mut().version = HttpVersion::Http10;
    assert!(!r.keep_alive());
    r.set_payload(5);
    assert_eq!(r.payload(), Some(5));
    assert_eq!(r.payload(), None);
}

#[test]
fn client_request_builder() {
    let req = ClientRequest::build()
        .uri("http://example.com/path")
        .method(Method::Post)
        .header("X-Test", "1")
        .content_type("text/plain")
        .finish()
        .unwrap();
    assert_eq!(req.method(), Method::Post);
    assert!(req.uri().contains("example.com"));
    let names: Vec<&[u8]> = req.headers().iter().map(|(k, _)| k.as_slice()).collect();
    assert_eq!(names, vec![&b"host"[..], &b"x-test"[..], &b"content-type"[..]]);

    assert!(ClientRequest::build().uri("http://[::1").finish().is_err());
    assert!(ClientRequest::build().header("bad key", "v").finish().is_err());

    let mut req = ClientRequest::build().content_length(12).finish().unwrap();
    assert_eq!(req.headers()[0].1, b"12".to_vec());
    let prev = req.replace_body(Body::Binary(b"x".to_vec()));
    match prev {
        Body::Empty => (),
        _ => panic!("empty before"),
    }
}

#[test]
fn service_builders() {
    let mut b: AndThenBuild<u8, u16> = AndThenBuild::new();
    assert!(b.offer(Some(1), None).is_none());
    let s: Option<AndThen<u8, u16>> = b.offer(None, Some(2));
    assert!(s.is_some());
    let mut a: ApplyBuild<u32> = ApplyBuild::new(9);
    let _s: Apply<u8, u32, (), ()> = a.finish(1u8);
    let _m: MapErr<u8, u8, ()> = MapErr::new(1, 2);
    let _n: ApplyNewService<u8, u8, (), ()> = ApplyNewService::new(1u8, 2u8);
}

#[test]
fn server_services() {
    let s = StreamService::new(1u8);
    assert_eq!(s.call(ServerMessage::Connect("io")), Some("io"));
    assert_eq!(s.call::<&str>(ServerMessage::Shutdown(10)), None);
    assert_eq!(s.call::<&str>(ServerMessage::ForceShutdown), None);
    let _t = ServerService::new(2u8);
    let f = ServiceNewService::create("actix-web".to_owned(), 3u8);
    assert_eq!(f.name(), "actix-web");
}

#[test]
fn tls_services() {
    let a: OpensslAcceptor<u8, ()> = OpensslAcceptor::new(1);
    let s = a.new_service();
    assert!(s.poll_ready(true));
    assert!(!s.poll_ready(false));
    let c: OpensslConnector<u8, (), ()> = OpensslConnector::new(2);
    assert!(c.new_service().poll_ready());
    let d: OpensslConnectorService<u8, ()> = OpensslConnectorService::new(3);
    assert!(d.poll_ready());
}

#[test]
fn websocket_verifier() {
    let mut v: VerifyWebSockets<()> = Default::default();
    assert!(v.poll_ready());
    assert_eq!(v.call::<u8, u8, &str>(1, 2, Ok(())), Ok((1, 2)));
    assert_eq!(v.call::<u8, u8, &str>(1, 2, Err("bad")), Err(("bad", 2)));
    let _w = v.new_service();
}

struct Srv;

impl Srv {
    fn call(&mut self, _: ()) -> Result<(), ()> {
        Ok(())
    }
}

#[test]
fn test_call() {
    let mut srv: Apply<Srv, _, Result<(&'static str, ()), ()>, &'static str> =
        Apply::new(Srv, |req: &'static str, srv: &mut Srv| srv.call(()).map(move |res| (req, res)));
    let res = srv.call("srv");
    assert!(res.is_ok());
    assert_eq!(res.unwrap(), ("srv", ()));
}

#[test]
fn test_new_service() {
    let mut build = ApplyBuild::new(|req: &'static str, srv: &mut Srv| srv.call(()).map(move |res| (req, res)));
    let mut srv: Apply<Srv, _, Result<(&'static str, ()), ()>, &'static str> = build.finish(Srv);
    let res = srv.call("srv");
    assert!(res.is_ok());
    assert_eq!(res.unwrap(), ("srv", ()));
}

#[test]
fn client_builder_cookies_and_options() {
    let req = ClientRequest::build().cookie("k", "v").finish().unwrap();
    let vals: Vec<&Vec<u8>> =
        req.headers().iter().filter(|(k, _)| k.as_slice() == b"set-cookie").map(|(_, v)| v).collect();
    assert_eq!(vals, vec![&b"k=v".to_vec()]);

    let req = ClientRequest::build().cookie("k", "v").del_cookie("k", "v").finish().unwrap();
    let vals: Vec<&Vec<u8>> =
        req.headers().iter().filter(|(k, _)| k.as_slice() == b"set-cookie").map(|(_, v)| v).collect();
    assert_eq!(vals.len(), 1);
    assert!(vals[0].starts_with(b"k=; Max-Age=0"));

    assert!(ClientRequest::build().cookie("k", "a\u{1}").finish().is_err());

    let req = ClientRequest::build().if_true(true, |b| { b.header("x-a", "1"); }).finish().unwrap();
    assert_eq!(req.headers().len(), 1);
    let req = ClientRequest::build().if_true(false, |b| { b.header("x-a", "1"); }).finish().unwrap();
    assert_eq!(req.headers().len(), 0);
    let req = ClientRequest::build().if_some(Some("2"), |v, b| { b.header("x-b", v); }).finish().unwrap();
    assert_eq!(req.headers()[0].1, b"2".to_vec());
    let req = ClientRequest::build().if_some(None::<&str>, |v, b| { b.header("x-b", v); }).finish().unwrap();
    assert_eq!(req.headers().len(), 0);
}
