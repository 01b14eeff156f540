//! The response a client receives.
use vstd::prelude::*;
use crate::resource::Method;
use crate::response::{
    all_valid_texts, changes_of, decimal, decimal_bytes, delta_texts, head_keep_alive, header_insert,
    header_name, header_name_of, header_value, header_value_bytes, headers_view, insert_header,
    jar_add, jar_add_original, jar_delta, jar_delta_texts, jar_new, jar_originals, jar_remove,
    originals_of, set_cookie_headers, set_cookie_name, valid_header_value, Body, ConnectionType,
    ContentEncoding, HttpVersion, ResponseHead,
};
use vstd::string::StringSliceAdditionalSpecFns;

verus! {

/// Client Response: its head, and the stream of its payload (taken once).
pub struct ClientResponse<P> {
    head: ResponseHead,
    payload: Option<P>,
}

impl<P> ClientResponse<P> {
    /// The response's version.
    pub closed spec fn version_spec(&self) -> HttpVersion {
        self.head.version
    }

    /// The response's status.
    pub closed spec fn status_spec(&self) -> u16 {
        self.head.status
    }

    /// The response's headers.
    pub closed spec fn headers_spec(&self) -> Seq<(Seq<u8>, Seq<u8>)> {
        crate::response::headers_view(self.head.headers@)
    }

    /// The connection type the response asks for.
    pub closed spec fn connection_type_spec(&self) -> Option<ConnectionType> {
        self.head.connection_type
    }

    /// The payload stream, if not taken.
    pub closed spec fn payload_spec(&self) -> Option<P> {
        self.payload
    }

    /// Create new Request instance: an HTTP/1.1 `200` head with no headers,
    /// and no payload.
    pub fn new() -> (r: Self)
        ensures
            r.version_spec() == HttpVersion::Http11,
            r.status_spec() == 200,
            r.headers_spec().len() == 0,
            r.connection_type_spec() is None,
            r.payload_spec() is None,
    {
        ClientResponse { head: ResponseHead::new(), payload: None }
    }

    /// The response head.
    pub fn head(&self) -> (h: &ResponseHead)
        ensures
            h.version == self.version_spec(),
            h.status == self.status_spec(),
            crate::response::headers_view(h.headers@) == self.headers_spec(),
            h.connection_type == self.connection_type_spec(),
    {
        &self.head
    }

    /// The response head, to change.
    pub fn head_mut(&mut self) -> (h: &mut ResponseHead)
        ensures
            h.version == old(self).version_spec(),
            h.status == old(self).status_spec(),
            crate::response::headers_view(h.headers@) == old(self).headers_spec(),
            h.connection_type == old(self).connection_type_spec(),
            final(self).version_spec() == final(h).version,
            final(self).status_spec() == final(h).status,
            final(self).headers_spec() == crate::response::headers_view(final(h).headers@),
            final(self).connection_type_spec() == final(h).connection_type,
            final(self).payload_spec() == old(self).payload_spec(),
    {
        &mut self.head
    }

    /// Read the Request Version.
    pub fn version(&self) -> (v: HttpVersion)
        ensures
            v == self.version_spec(),
    {
        self.head.version
    }

    /// Get the status from the server.
    pub fn status(&self) -> (s: u16)
        ensures
            s == self.status_spec(),
    {
        self.head.status
    }

    /// Returns Request's headers.
    pub fn headers(&self) -> (h: &Vec<(Vec<u8>, Vec<u8>)>)
        ensures
            crate::response::headers_view(h@) == self.headers_spec(),
    {
        &self.head.headers
    }

    /// Checks if a connection should be kept alive: as the response's
    /// connection type says, else for HTTP/1.1 and later.
    pub fn keep_alive(&self) -> (b: bool)
        ensures
            b == head_keep_alive(self.version_spec(), self.connection_type_spec()),
    {
        self.head.keep_alive()
    }

    /// Set response payload
    pub fn set_payload(&mut self, payload: P)
        ensures
            final(self).payload_spec() == Some(payload),
            final(self).version_spec() == old(self).version_spec(),
            final(self).status_spec() == old(self).status_spec(),
            final(self).headers_spec() == old(self).headers_spec(),
            final(self).connection_type_spec() == old(self).connection_type_spec(),
    {
        self.payload = Some(payload);
    }

    /// Takes the payload stream: it is handed out once.
    pub fn payload(&mut self) -> (p: Option<P>)
        ensures
            p == old(self).payload_spec(),
            final(self).payload_spec() is None,
            final(self).version_spec() == old(self).version_spec(),
            final(self).status_spec() == old(self).status_spec(),
            final(self).headers_spec() == old(self).headers_spec(),
            final(self).connection_type_spec() == old(self).connection_type_spec(),
    {
        self.payload.take()
    }
}

/// What a URI text parses to: its printed form and its host, if it parses.
pub uninterp spec fn spec_uri_parse(s: Seq<char>) -> Option<(Seq<char>, Option<Seq<char>>)>;

/// Parses a URI with `http::Uri`'s `FromStr`, and keeps its printed form
/// (`to_string`) and its host (`host`). The result is named: a function of
/// the text alone.
#[verifier::external_body]
fn parse_uri(s: &str) -> (r: Option<(String, Option<String>)>)
    ensures
        match r {
            Some((text, host)) => spec_uri_parse(s@) == Some(
                (
                    text@,
                    match host {
                        Some(h) => Some(h@),
                        None => None::<Seq<char>>,
                    },
                ),
            ),
            None => spec_uri_parse(s@) is None,
        },
{
    match s.parse::<http::Uri>() {
        Ok(u) => Some((u.to_string(), u.host().map(|h| h.to_owned()))),
        Err(_) => None,
    }
}

/// What a client request holds, by value.
pub struct ClientRequestView {
    /// The printed URI.
    pub uri: Seq<char>,
    /// The method.
    pub method: Method,
    /// The protocol version.
    pub version: HttpVersion,
    /// The headers, in order.
    pub headers: Seq<(Seq<u8>, Seq<u8>)>,
    /// The body.
    pub body: Body,
    /// Whether chunked encoding is asked for, if set.
    pub chunked: Option<bool>,
    /// The content encoding of the body.
    pub encoding: ContentEncoding,
}

/// An HTTP client request.
pub struct ClientRequest {
    uri: String,
    method: Method,
    version: HttpVersion,
    headers: Vec<(Vec<u8>, Vec<u8>)>,
    body: Body,
    chunked: Option<bool>,
    encoding: ContentEncoding,
}

impl ClientRequest {
    /// What the request holds.
    pub closed spec fn view(&self) -> ClientRequestView {
        ClientRequestView {
            uri: self.uri@,
            method: self.method,
            version: self.version,
            headers: headers_view(self.headers@),
            body: self.body,
            chunked: self.chunked,
            encoding: self.encoding,
        }
    }

    /// A `GET` request for `/` over HTTP/1.1, with no header and no body.
    pub fn default_request() -> (r: Self)
        ensures
            r@ == (ClientRequestView {
                uri: "/"@,
                method: Method::Get,
                version: HttpVersion::Http11,
                headers: Seq::empty(),
                body: Body::Empty,
                chunked: None,
                encoding: ContentEncoding::Identity,
            }),
    {
        let r = ClientRequest {
            uri: "/".to_owned(),
            method: Method::Get,
            version: HttpVersion::Http11,
            headers: Vec::new(),
            body: Body::Empty,
            chunked: None,
            encoding: ContentEncoding::Identity,
        };
        assert(headers_view(r.headers@) =~= Seq::<(Seq<u8>, Seq<u8>)>::empty());
        r
    }

    /// Create client request builder
    pub fn build() -> (b: ClientRequestBuilder)
        ensures
            !b.failed(),
            b.jar() is None,
            b.built() matches Some(r) && r@ == (ClientRequestView {
                uri: "/"@,
                method: Method::Get,
                version: HttpVersion::Http11,
                headers: Seq::empty(),
                body: Body::Empty,
                chunked: None,
                encoding: ContentEncoding::Identity,
            }),
    {
        ClientRequestBuilder { request: Some(Self::default_request()), err: false, cookies: None }
    }

    /// Get the request uri
    pub fn uri(&self) -> (u: &str)
        ensures
            u@ == self@.uri,
    {
        self.uri.as_str()
    }

    /// Get the http method of the request
    pub fn method(&self) -> (m: Method)
        ensures
            m == self@.method,
    {
        self.method
    }

    /// Set http `Method` for the request
    pub fn set_method(&mut self, method: Method)
        ensures
            final(self)@ == (ClientRequestView { method, ..old(self)@ }),
    {
        self.method = method;
    }

    /// Get the headers from the request
    pub fn headers(&self) -> (h: &Vec<(Vec<u8>, Vec<u8>)>)
        ensures
            headers_view(h@) == self@.headers,
    {
        &self.headers
    }

    /// Get body of this request
    pub fn body(&self) -> (b: &Body)
        ensures
            *b == self@.body,
    {
        &self.body
    }

    /// Set a body
    pub fn set_body(&mut self, body: Body)
        ensures
            final(self)@ == (ClientRequestView { body, ..old(self)@ }),
    {
        self.body = body;
    }

    /// Set a body and return previous body value
    pub fn replace_body(&mut self, body: Body) -> (prev: Body)
        ensures
            prev == old(self)@.body,
            final(self)@ == (ClientRequestView { body, ..old(self)@ }),
    {
        let mut b = body;
        std::mem::swap(&mut b, &mut self.body);
        b
    }
}

/// A client request builder: the request being built, and whether a step
/// failed (an invalid URI or header).
pub struct ClientRequestBuilder {
    request: Option<ClientRequest>,
    err: bool,
    cookies: Option<cookie::CookieJar>,
}

/// Appends a `Set-Cookie` header for each text, in order; stops at the
/// first text that is not a valid header value and returns false.
fn append_request_cookie_texts(r: &mut ClientRequest, texts: &Vec<String>) -> (ok: bool)
    ensures
        ok == all_valid_texts(texts@.map_values(|t: String| t@)),
        ok ==> final(r)@ == (ClientRequestView {
            headers: old(r)@.headers + set_cookie_headers(texts@.map_values(|t: String| t@)),
            ..old(r)@
        }),
{
    let ghost tv = texts@.map_values(|t: String| t@);
    let ghost v0 = r@;
    let mut i: usize = 0;
    proof {
        assert(set_cookie_headers(tv.take(0)) =~= Seq::<(Seq<u8>, Seq<u8>)>::empty());
        assert(v0.headers + Seq::<(Seq<u8>, Seq<u8>)>::empty() =~= v0.headers);
    }
    while i < texts.len()
        invariant
            i <= texts@.len(),
            tv == texts@.map_values(|t: String| t@),
            v0 == old(r)@,
            r@ == (ClientRequestView {
                headers: v0.headers + set_cookie_headers(tv.take(i as int)),
                ..v0
            }),
            forall|k: int| 0 <= k < i ==> valid_header_value(
                #[trigger] vstd::utf8::encode_utf8(tv[k]),
            ),
        decreases texts@.len() - i,
    {
        let ghost h0 = r.headers@;
        proof {
            assert(tv[i as int] == texts@[i as int]@);
        }
        match header_value_bytes(texts[i].as_str()) {
            Some(v) => {
                let name = crate::server::literal_bytes("set-cookie");
                r.headers.push((name, v));
                proof {
                    assert(headers_view(r.headers@) =~= headers_view(h0).push(
                        (set_cookie_name(), vstd::utf8::encode_utf8(tv[i as int])),
                    ));
                }
            },
            None => {
                assert(!all_valid_texts(tv));
                return false;
            },
        }
        proof {
            assert(set_cookie_headers(tv.take(i + 1)) =~= set_cookie_headers(tv.take(i as int)).push(
                (set_cookie_name(), vstd::utf8::encode_utf8(tv[i as int])),
            ));
            assert(v0.headers + set_cookie_headers(tv.take(i + 1)) =~= headers_view(h0).push(
                (set_cookie_name(), vstd::utf8::encode_utf8(tv[i as int])),
            ));
        }
        i += 1;
    }
    proof {
        assert(tv.take(texts@.len() as int) =~= tv);
    }
    true
}

impl ClientRequestBuilder {
    /// The request being built, if the builder still holds one.
    pub closed spec fn built(&self) -> Option<ClientRequest> {
        self.request
    }

    /// Whether a step failed.
    pub closed spec fn failed(&self) -> bool {
        self.err
    }

    /// The cookie changes to set on the request, if any were asked for.
    pub closed spec fn jar(&self) -> Option<cookie::CookieJar> {
        self.cookies
    }

    /// Whether the steps change the request: no step failed and the builder
    /// still holds it.
    pub open spec fn active(&self) -> bool {
        !self.failed() && self.built() is Some
    }

    /// How a step of the builder changes it: a failed or emptied builder
    /// stays as it is; otherwise the request becomes `next` of it.
    pub open spec fn stepped(&self, next: ClientRequestView, after: &Self) -> bool {
        &&& after.failed() == self.failed()
        &&& after.jar() == self.jar()
        &&& if self.active() {
            after.built() matches Some(r) && r@ == next
        } else {
            after.built() == self.built()
        }
    }

    /// Set the request's URI; when it has a host, the `host` header is set
    /// to it. The builder fails when the text is not a URI.
    pub fn uri(&mut self, uri: &str) -> (b: &mut Self)
        ensures
            match spec_uri_parse(uri@) {
                None => b.failed() && b.built() == old(self).built(),
                Some((text, host)) => {
                    let r0 = old(self).built()->0@;
                    let headers = match host {
                        Some(h) => header_insert(
                            r0.headers,
                            crate::server::ascii_bytes("host"@),
                            vstd::utf8::encode_utf8(h),
                        ),
                        None => r0.headers,
                    };
                    &&& old(self).active() && (host matches Some(h) ==> valid_header_value(
                        vstd::utf8::encode_utf8(h),
                    )) ==> old(self).stepped(
                        ClientRequestView { uri: text, headers, ..r0 },
                        b,
                    )
                    &&& old(self).active() && (host matches Some(h) && !valid_header_value(
                        vstd::utf8::encode_utf8(h),
                    )) ==> b.failed() && b.built() == old(self).built()
                    &&& !old(self).active() ==> *b == *old(self)
                },
            },
            *final(self) == *final(b),
    {
        match parse_uri(uri) {
            None => {
                self.err = true;
            },
            Some((text, host)) => {
                if let Some(h) = host {
                    let name = crate::server::literal_bytes("host");
                    self.set_header_bytes(&name, h.as_str());
                }
                if !self.err {
                    if let Some(r) = &mut self.request {
                        r.uri = text;
                    }
                }
            },
        }
        self
    }

    /// Sets a header whose name is known valid.
    fn set_header_bytes(&mut self, name: &Vec<u8>, value: &str)
        ensures
            old(self).active() ==> if valid_header_value(value.spec_bytes()) {
                old(self).stepped(
                    ClientRequestView {
                        headers: header_insert(old(self).built()->0@.headers, name@, value.spec_bytes()),
                        ..old(self).built()->0@
                    },
                    final(self),
                )
            } else {
                final(self).failed() && final(self).built() == old(self).built()
            },
            !old(self).active() ==> *final(self) == *old(self),
    {
        if self.err {
            return;
        }
        if self.request.is_none() {
            return;
        }
        match header_value(value) {
            None => {
                self.err = true;
            },
            Some(v) => {
                if let Some(r) = &mut self.request {
                    insert_header(&mut r.headers, name, &v);
                }
            },
        }
    }

    /// Set HTTP method of this request.
    pub fn method(&mut self, method: Method) -> (b: &mut Self)
        ensures
            old(self).stepped(ClientRequestView { method, ..old(self).built()->0@ }, b),
            *final(self) == *final(b),
    {
        if !self.err {
            if let Some(r) = &mut self.request {
                r.method = method;
            }
        }
        self
    }

    /// Set HTTP version of this request.
    pub fn version(&mut self, version: HttpVersion) -> (b: &mut Self)
        ensures
            old(self).stepped(ClientRequestView { version, ..old(self).built()->0@ }, b),
            *final(self) == *final(b),
    {
        if !self.err {
            if let Some(r) = &mut self.request {
                r.version = version;
            }
        }
        self
    }

    /// Append a header: the builder fails when the key is not a header name
    /// or the value not a header value.
    pub fn header(&mut self, key: &str, value: &str) -> (b: &mut Self)
        ensures
            old(self).active() ==> match (header_name_of(key.spec_bytes()), valid_header_value(
                value.spec_bytes(),
            )) {
                (Some(n), true) => old(self).stepped(
                    ClientRequestView {
                        headers: old(self).built()->0@.headers.push((n, value.spec_bytes())),
                        ..old(self).built()->0@
                    },
                    b,
                ),
                _ => b.failed() && b.built() == old(self).built(),
            },
            !old(self).active() ==> *b == *old(self),
            *final(self) == *final(b),
    {
        if self.err || self.request.is_none() {
            return self;
        }
        match header_name(key.as_bytes()) {
            None => {
                self.err = true;
            },
            Some(n) => match header_value(value) {
                None => {
                    self.err = true;
                },
                Some(v) => {
                    if let Some(r) = &mut self.request {
                        let ghost h0 = r.headers@;
                        r.headers.push((n, v));
                        assert(headers_view(r.headers@) =~= headers_view(h0).push((n@, v@)));
                    }
                },
            },
        }
        self
    }

    /// Set a header, replacing any value it had: the builder fails when the
    /// key is not a header name or the value not a header value.
    pub fn set_header(&mut self, key: &str, value: &str) -> (b: &mut Self)
        ensures
            old(self).active() ==> match (header_name_of(key.spec_bytes()), valid_header_value(
                value.spec_bytes(),
            )) {
                (Some(n), true) => old(self).stepped(
                    ClientRequestView {
                        headers: header_insert(old(self).built()->0@.headers, n, value.spec_bytes()),
                        ..old(self).built()->0@
                    },
                    b,
                ),
                _ => b.failed() && b.built() == old(self).built(),
            },
            !old(self).active() ==> *b == *old(self),
            *final(self) == *final(b),
    {
        if self.err || self.request.is_none() {
            return self;
        }
        match header_name(key.as_bytes()) {
            None => {
                self.err = true;
            },
            Some(n) => {
                self.set_header_bytes(&n, value);
            },
        }
        self
    }

    /// Set a cookie `name=value` on the request: the change for that name
    /// becomes setting this value.
    pub fn cookie(&mut self, name: &str, value: &str) -> (b: &mut Self)
        ensures
            b.built() == old(self).built(),
            b.failed() == old(self).failed(),
            b.jar() is Some,
            jar_delta(b.jar()->0) == changes_of(old(self).jar()).insert(name@, (value@, false)),
            jar_originals(b.jar()->0) == originals_of(old(self).jar()),
            *final(self) == *final(b),
    {
        let cur = self.cookies.take();
        let mut j = match cur {
            Some(j) => j,
            None => jar_new(),
        };
        jar_add(&mut j, name, value);
        self.cookies = Some(j);
        self
    }

    /// Remove a cookie the request was sent with: it is taken as an
    /// original cookie, and the change for its name becomes its removal.
    pub fn del_cookie(&mut self, name: &str, value: &str) -> (b: &mut Self)
        ensures
            b.built() == old(self).built(),
            b.failed() == old(self).failed(),
            b.jar() is Some,
            jar_delta(b.jar()->0) == changes_of(old(self).jar()).insert(name@, (""@, true)),
            jar_originals(b.jar()->0) == originals_of(old(self).jar()).insert(name@),
            *final(self) == *final(b),
    {
        let cur = self.cookies.take();
        let mut j = match cur {
            Some(j) => j,
            None => jar_new(),
        };
        jar_add_original(&mut j, name, value);
        jar_remove(&mut j, name, value);
        self.cookies = Some(j);
        self
    }

    /// Calls `f` with the builder when `value` is true.
    pub fn if_true<F>(&mut self, value: bool, f: F) -> (b: &mut Self) where
        F: FnOnce(&mut ClientRequestBuilder),

        requires
            value ==> forall|s: &mut ClientRequestBuilder| call_requires(f, (s,)),
        ensures
            !value ==> *b == *old(self),
            value ==> exists|s: &mut ClientRequestBuilder|
                #[trigger] call_ensures(f, (s,), ()) && *s == *old(self) && *final(s) == *b,
            *final(self) == *final(b),
    {
        if value {
            f(self);
        }
        self
    }

    /// Calls `f` with the value and the builder when there is a value.
    pub fn if_some<T, F>(&mut self, value: Option<T>, f: F) -> (b: &mut Self) where
        F: FnOnce(T, &mut ClientRequestBuilder),

        requires
            value matches Some(v) ==> forall|s: &mut ClientRequestBuilder| call_requires(f, (v, s)),
        ensures
            value is None ==> *b == *old(self),
            value matches Some(v) ==> exists|s: &mut ClientRequestBuilder|
                #[trigger] call_ensures(f, (v, s), ()) && *s == *old(self) && *final(s) == *b,
            *final(self) == *final(b),
    {
        if let Some(val) = value {
            f(val, self);
        }
        self
    }

    /// Set content encoding. By default `ContentEncoding::Identity` is
    /// used.
    pub fn content_encoding(&mut self, enc: ContentEncoding) -> (b: &mut Self)
        ensures
            old(self).stepped(ClientRequestView { encoding: enc, ..old(self).built()->0@ }, b),
            *final(self) == *final(b),
    {
        if !self.err {
            if let Some(r) = &mut self.request {
                r.encoding = enc;
            }
        }
        self
    }

    /// Enables automatic chunked transfer encoding
    pub fn chunked(&mut self) -> (b: &mut Self)
        ensures
            old(self).stepped(ClientRequestView { chunked: Some(true), ..old(self).built()->0@ }, b),
            *final(self) == *final(b),
    {
        if !self.err {
            if let Some(r) = &mut self.request {
                r.chunked = Some(true);
            }
        }
        self
    }

    /// Set request's content type: it replaces any content type set; the
    /// builder fails when the value is not a header value.
    pub fn content_type(&mut self, value: &str) -> (b: &mut Self)
        ensures
            old(self).active() ==> if valid_header_value(value.spec_bytes()) {
                old(self).stepped(
                    ClientRequestView {
                        headers: header_insert(
                            old(self).built()->0@.headers,
                            crate::server::ascii_bytes("content-type"@),
                            value.spec_bytes(),
                        ),
                        ..old(self).built()->0@
                    },
                    b,
                )
            } else {
                b.failed() && b.built() == old(self).built()
            },
            !old(self).active() ==> *b == *old(self),
            *final(self) == *final(b),
    {
        let name = crate::server::literal_bytes("content-type");
        self.set_header_bytes(&name, value);
        self
    }

    /// Set content length: a `content-length` header with its decimal
    /// digits.
    pub fn content_length(&mut self, len: u64) -> (b: &mut Self)
        ensures
            old(self).stepped(
                ClientRequestView {
                    headers: old(self).built()->0@.headers.push(
                        (crate::server::ascii_bytes("content-length"@), decimal(len as nat)),
                    ),
                    ..old(self).built()->0@
                },
                b,
            ),
            *final(self) == *final(b),
    {
        if !self.err {
            if let Some(r) = &mut self.request {
                let name = crate::server::literal_bytes("content-length");
                let digits = decimal_bytes(len);
                let ghost h0 = r.headers@;
                r.headers.push((name, digits));
                assert(headers_view(r.headers@) =~= headers_view(h0).push((name@, digits@)));
            }
        }
        self
    }

    /// Set a body and generate the request: the builder is emptied, and the
    /// cookie changes asked for are written as `Set-Cookie` headers after the
    /// request's headers. A failed builder (no longer failed after this), or
    /// a change that is not a valid header value, gives an error.
    pub fn body(&mut self, body: Body) -> (r: Result<ClientRequest, ()>)
        requires
            old(self).failed() || old(self).built() is Some,
        ensures
            final(self).jar() == old(self).jar(),
            old(self).failed() ==> r is Err && !final(self).failed() && final(self).built() == old(self).built(),
            !old(self).failed() ==> final(self).built() is None && !final(self).failed(),
            !old(self).failed() ==> match old(self).jar() {
                None => r matches Ok(req) && req@ == (ClientRequestView {
                    body: body,
                    ..old(self).built()->0@
                }),
                Some(j) => exists|texts: Seq<Seq<char>>|
                    #[trigger] delta_texts(jar_delta(j), texts) && if all_valid_texts(texts) {
                        r matches Ok(req) && req@ == (ClientRequestView {
                            headers: old(self).built()->0@.headers + set_cookie_headers(texts),
                            body: body,
                            ..old(self).built()->0@
                        })
                    } else {
                        r is Err
                    },
            },
    {
        if self.err {
            self.err = false;
            return Err(());
        }
        let mut taken: Option<ClientRequest> = None;
        std::mem::swap(&mut taken, &mut self.request);
        let mut r = match taken {
            Some(r) => r,
            None => {
                return Err(());
            },
        };
        match &self.cookies {
            None => {},
            Some(jar) => {
                let texts = jar_delta_texts(jar);
                if !append_request_cookie_texts(&mut r, &texts) {
                    return Err(());
                }
            },
        }
        r.body = body;
        Ok(r)
    }

    /// Set an empty body and generate the request.
    pub fn finish(&mut self) -> (r: Result<ClientRequest, ()>)
        requires
            old(self).failed() || old(self).built() is Some,
        ensures
            final(self).jar() == old(self).jar(),
            old(self).failed() ==> r is Err && !final(self).failed() && final(self).built() == old(self).built(),
            !old(self).failed() ==> final(self).built() is None && !final(self).failed(),
            !old(self).failed() ==> match old(self).jar() {
                None => r matches Ok(req) && req@ == (ClientRequestView {
                    body: Body::Empty,
                    ..old(self).built()->0@
                }),
                Some(j) => exists|texts: Seq<Seq<char>>|
                    #[trigger] delta_texts(jar_delta(j), texts) && if all_valid_texts(texts) {
                        r matches Ok(req) && req@ == (ClientRequestView {
                            headers: old(self).built()->0@.headers + set_cookie_headers(texts),
                            body: Body::Empty,
                            ..old(self).built()->0@
                        })
                    } else {
                        r is Err
                    },
            },
    {
        self.body(Body::Empty)
    }
}

} // verus!
