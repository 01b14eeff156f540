//! Route handlers: function handlers, and the default handling of the
//! `Expect` request header.
use std::marker::PhantomData;
use vstd::prelude::*;
use crate::response::HttpVersion;

verus! {

/// Why an `Expect` header is refused.
#[derive(PartialEq, Eq, Structural, Debug, Clone, Copy)]
pub enum ExpectError {
    /// The header value does not read as a string.
    Encoding,
    /// The expectation is not `100-continue`.
    UnknownExpect,
}

/// ASCII lower-case of a byte string.
pub open spec fn lower(v: Seq<u8>) -> Seq<u8> {
    crate::pool::lower_bytes(v)
}

/// How the default `Expect` handling ends: only HTTP/1.1 requests with the
/// header are looked at; a value that does not read as a string is an
/// encoding error; `100-continue` (in any case) is answered with
/// `HTTP/1.1 100 Continue` (`Ok(true)`); any other expectation is refused.
pub open spec fn expect_spec(version: HttpVersion, expect: Option<Seq<u8>>) -> Result<
    bool,
    ExpectError,
> {
    if version != HttpVersion::Http11 {
        Ok(false)
    } else {
        match expect {
            None => Ok(false),
            Some(v) => if !crate::multipart::is_visible_ascii(v) {
                Err(ExpectError::Encoding)
            } else if lower(v) == crate::server::ascii_bytes("100-continue"@) {
                Ok(true)
            } else {
                Err(ExpectError::UnknownExpect)
            },
        }
    }
}

/// Handles the `Expect` header of a request: tells whether the interim
/// `HTTP/1.1 100 Continue` response is to be written, or why the
/// expectation is refused.
pub fn expect(version: HttpVersion, value: Option<&[u8]>) -> (r: Result<bool, ExpectError>)
    ensures
        r == expect_spec(
            version,
            match value {
                Some(v) => Some(v@),
                None => None,
            },
        ),
{
    if !(version == HttpVersion::Http11) {
        return Ok(false);
    }
    match value {
        None => Ok(false),
        Some(v) => {
            let mut i: usize = 0;
            while i < v.len()
                invariant
                    i <= v@.len(),
                    version == HttpVersion::Http11,
                    value == Some(v),
                    forall|j: int|
                        0 <= j < i ==> ((32 <= #[trigger] v@[j] && v@[j] < 127) || v@[j] == 9),
                decreases v@.len() - i,
            {
                let c = v[i];
                if !((32 <= c && c < 127) || c == 9) {
                    assert(!crate::multipart::is_visible_ascii(v@));
                    return Err(ExpectError::Encoding);
                }
                i += 1;
            }
            let low = crate::pool::Key::from(v);
            let want = crate::server::literal_bytes("100-continue");
            if crate::server::bytes_eq(low.as_bytes(), &want) {
                Ok(true)
            } else {
                Err(ExpectError::UnknownExpect)
            }
        },
    }
}

/// The interim response written for `Expect: 100-continue`.
pub fn continue_response() -> (v: Vec<u8>)
    ensures
        v@ == crate::server::ascii_bytes("HTTP/1.1 100 Continue\r\n\r\n"@),
{
    crate::server::literal_bytes("HTTP/1.1 100 Continue\r\n\r\n")
}

/// A route handler made of a function from a request to a response.
pub struct FnHandler<S, R, F> {
    f: Box<F>,
    s: PhantomData<(S, R)>,
}

impl<S, R, F> FnHandler<S, R, F> {
    /// The handler function.
    pub closed spec fn handler(&self) -> F {
        *self.f
    }

    /// A handler that calls `f`.
    pub fn new(f: F) -> (h: Self)
        ensures
            h.handler() == f,
    {
        FnHandler { f: Box::new(f), s: PhantomData }
    }

    /// Handles a request: the function's response for it.
    pub fn handle<Q>(&self, req: Q) -> (r: R) where F: Fn(Q) -> R
        requires
            call_requires(self.handler(), (req,)),
        ensures
            call_ensures(self.handler(), (req,), r),
    {
        (self.f)(req)
    }
}

/// A route handler made of a function from a request to a response stream.
pub struct StreamHandler<S, R, F> {
    f: Box<F>,
    s: PhantomData<(S, R)>,
}

impl<S, R, F> StreamHandler<S, R, F> {
    /// The handler function.
    pub closed spec fn handler(&self) -> F {
        *self.f
    }

    /// A handler that calls `f`.
    pub fn new(f: F) -> (h: Self)
        ensures
            h.handler() == f,
    {
        StreamHandler { f: Box::new(f), s: PhantomData }
    }

    /// Handles a request: the function's stream for it.
    pub fn handle<Q>(&self, req: Q) -> (r: R) where F: Fn(Q) -> R
        requires
            call_requires(self.handler(), (req,)),
        ensures
            call_ensures(self.handler(), (req,), r),
    {
        (self.f)(req)
    }
}

} // verus!
