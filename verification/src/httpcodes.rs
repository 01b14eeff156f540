//! Basic http responses: a status code that makes responses of its own.
use crate::response::{Response, ResponseBuilder, ResponseView, Body};
use vstd::prelude::*;

verus! {

/// `200 OK`.
pub const HTTP_OK: u16 = 200;

/// `201 Created`.
pub const HTTP_CREATED: u16 = 201;

/// `204 No Content`.
pub const HTTP_NO_CONTENT: u16 = 204;

/// `400 Bad Request`.
pub const HTTP_BAD_REQUEST: u16 = 400;

/// `403 Forbidden`.
pub const HTTP_FORBIDDEN: u16 = 403;

/// `404 Not Found`.
pub const HTTP_NOT_FOUND: u16 = 404;

/// `405 Method Not Allowed`.
pub const HTTP_METHOD_NOT_ALLOWED: u16 = 405;

/// `500 Internal Server Error`.
pub const HTTP_INTERNAL_SERVER_ERROR: u16 = 500;

/// A status code that answers requests with a response of its own.
pub struct StaticResponse {
    status: u16,
}

impl StaticResponse {
    /// The status is a status code.
    #[verifier::type_invariant]
    spec fn valid_status(self) -> bool {
        100 <= self.status < 600
    }

    /// The status of the responses made.
    pub closed spec fn status_spec(self) -> u16 {
        self.status
    }

    /// A static response with this status.
    pub fn new(status: u16) -> (s: Self)
        requires
            100 <= status < 600,
        ensures
            s.status_spec() == status,
    {
        StaticResponse { status }
    }

    /// The status of the responses made.
    pub fn status(&self) -> (s: u16)
        ensures
            s == self.status_spec(),
            100 <= s < 600,
    {
        proof {
            use_type_invariant(self);
        }
        self.status
    }

    /// A response builder with this status.
    pub fn builder(&self) -> (b: ResponseBuilder)
        ensures
            !b.failed(),
            b.built() matches Some(r) && r.wf() && r@ == Response::new_view(
                self.status_spec(),
                Body::Empty,
            ),
    {
        let status = self.status();
        let b = Response::build(status);
        proof {
            let r = b.built()->0;
            assert(r.headers_spec() =~= Seq::<(Seq<u8>, Seq<u8>)>::empty());
        }
        b
    }

    /// A response with this status and no body.
    pub fn response(&self) -> (r: Response)
        ensures
            r.wf(),
            r@ == Response::new_view(self.status_spec(), Body::Empty),
    {
        let status = self.status();
        Response::new(status)
    }

    /// A response with this status, no body and the given reason.
    pub fn with_reason(self, reason: &str) -> (r: Response)
        ensures
            r.wf(),
            r@ == (ResponseView {
                reason: Some(reason@),
                ..Response::new_view(self.status_spec(), Body::Empty)
            }),
    {
        let mut resp = self.response();
        resp.set_reason(reason);
        resp
    }
}

} // verus!
