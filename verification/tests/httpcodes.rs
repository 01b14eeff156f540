use actix_web::httpcodes::{StaticResponse, HTTP_BAD_REQUEST, HTTP_OK};
use actix_web::response::Body;

#[test]
fn test_builder() {
    let mut b = StaticResponse::new(HTTP_OK).builder();
    let resp = b.body(Body::Empty);
    assert_eq!(resp.status(), 200);
}

#[test]
fn test_response() {
    let resp = StaticResponse::new(HTTP_OK).response();
    assert_eq!(resp.status(), 200);
}

#[test]
fn static_response_with_reason() {
    let resp = StaticResponse::new(HTTP_BAD_REQUEST).with_reason("test");
    assert_eq!(resp.status(), 400);
    assert_eq!(resp.reason(), "test");
    assert_eq!(StaticResponse::new(HTTP_OK).response().reason(), "OK");
}
