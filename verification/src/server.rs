//! Server side: the http service builder, the HTTP/1 response writer's
//! connection state and header serialization, and request upgrade detection.
use std::marker::PhantomData;
use vstd::prelude::*;
use crate::response::{headers_view, header_insert, insert_header, version_rank, Body, HttpVersion};

verus! {

/// Utility type that builds a complete http pipeline.
pub struct HttpServiceBuilder<F, H, A, P> {
    factory: F,
    acceptor: A,
    pipeline: P,
    no_client_timer: bool,
    h: PhantomData<H>,
}

impl<F, H, A, P> HttpServiceBuilder<F, H, A, P> {
    /// The application factory.
    pub closed spec fn factory(&self) -> F {
        self.factory
    }

    /// The acceptor factory.
    pub closed spec fn acceptor_factory(&self) -> A {
        self.acceptor
    }

    /// The pipeline factory.
    pub closed spec fn pipeline_factory(&self) -> P {
        self.pipeline
    }

    /// Whether the client timeout is switched off.
    pub closed spec fn client_timer_off(&self) -> bool {
        self.no_client_timer
    }

    /// Create http service builder.
    pub fn new(factory: F, acceptor: A, pipeline: P) -> (b: Self)
        ensures
            b.factory() == factory,
            b.acceptor_factory() == acceptor,
            b.pipeline_factory() == pipeline,
            !b.client_timer_off(),
    {
        Self { factory, pipeline, acceptor, no_client_timer: false, h: PhantomData }
    }

    /// Switches the client timeout off.
    pub fn no_client_timer(self) -> (b: Self)
        ensures
            b.factory() == self.factory(),
            b.acceptor_factory() == self.acceptor_factory(),
            b.pipeline_factory() == self.pipeline_factory(),
            b.client_timer_off(),
    {
        let mut s = self;
        s.no_client_timer = true;
        s
    }

    /// Use a different acceptor factory.
    pub fn acceptor<A1>(self, acceptor: A1) -> (b: HttpServiceBuilder<F, H, A1, P>)
        ensures
            b.factory() == self.factory(),
            b.acceptor_factory() == acceptor,
            b.pipeline_factory() == self.pipeline_factory(),
            b.client_timer_off() == self.client_timer_off(),
    {
        HttpServiceBuilder {
            acceptor,
            pipeline: self.pipeline,
            factory: self.factory,
            no_client_timer: self.no_client_timer,
            h: PhantomData,
        }
    }

    /// Use a different pipeline factory.
    pub fn pipeline<P1>(self, pipeline: P1) -> (b: HttpServiceBuilder<F, H, A, P1>)
        ensures
            b.factory() == self.factory(),
            b.acceptor_factory() == self.acceptor_factory(),
            b.pipeline_factory() == pipeline,
            b.client_timer_off() == self.client_timer_off(),
    {
        HttpServiceBuilder {
            pipeline,
            acceptor: self.acceptor,
            factory: self.factory,
            no_client_timer: self.no_client_timer,
            h: PhantomData,
        }
    }

    /// The client timeout the services are built with: none (0) when the
    /// client timer is off, the configured one otherwise. With 0, connections
    /// are accepted without a timeout.
    pub fn client_timeout(&self, client_timeout: usize) -> (t: usize)
        ensures
            t == if self.client_timer_off() {
                0
            } else {
                client_timeout
            },
    {
        if self.no_client_timer {
            0
        } else {
            client_timeout
        }
    }
}

/// The default pipeline factory.
pub struct DefaultPipelineFactory<H, Io> {
    t: PhantomData<(H, Io)>,
}

impl<H, Io> DefaultPipelineFactory<H, Io> {
    /// The factory as it is made: it holds no state.
    pub closed spec fn fresh() -> Self {
        DefaultPipelineFactory { t: PhantomData }
    }

    /// The default pipeline factory.
    pub fn new() -> (f: Self)
        ensures
            f == Self::fresh(),
    {
        Self { t: PhantomData }
    }
}

/// The state of the HTTP/1 response writer.
pub struct H1Writer {
    started: bool,
    upgrade: bool,
    keepalive: bool,
    disconnected: bool,
    written: u64,
    headers_size: u32,
}

impl H1Writer {
    /// Whether a response was started.
    pub closed spec fn is_started(&self) -> bool {
        self.started
    }

    /// Whether the connection is upgraded.
    pub closed spec fn is_upgrade(&self) -> bool {
        self.upgrade
    }

    /// Whether the connection is marked keep-alive.
    pub closed spec fn is_keepalive(&self) -> bool {
        self.keepalive
    }

    /// Whether the peer disconnected.
    pub closed spec fn is_disconnected(&self) -> bool {
        self.disconnected
    }

    /// Bytes of body written.
    pub closed spec fn written_bytes(&self) -> u64 {
        self.written
    }

    /// Size of the last response head.
    pub closed spec fn head_size(&self) -> u32 {
        self.headers_size
    }

    /// A writer with no flag set.
    pub fn new() -> (w: H1Writer)
        ensures
            !w.is_started(),
            !w.is_upgrade(),
            !w.is_keepalive(),
            !w.is_disconnected(),
            w.written_bytes() == 0,
            w.head_size() == 0,
    {
        H1Writer {
            started: false,
            upgrade: false,
            keepalive: false,
            disconnected: false,
            written: 0,
            headers_size: 0,
        }
    }

    /// Bytes of body written.
    pub fn written(&self) -> (n: u64)
        ensures
            n == self.written_bytes(),
    {
        self.written
    }

    /// Resets the writer for the next response: nothing written, and only
    /// the keep-alive flag set.
    pub fn reset(&mut self)
        ensures
            final(self).written_bytes() == 0,
            final(self).is_keepalive(),
            !final(self).is_started(),
            !final(self).is_upgrade(),
            !final(self).is_disconnected(),
            final(self).head_size() == old(self).head_size(),
    {
        self.written = 0;
        self.started = false;
        self.upgrade = false;
        self.keepalive = true;
        self.disconnected = false;
    }

    /// Whether the connection is upgraded.
    pub fn upgrade(&self) -> (b: bool)
        ensures
            b == self.is_upgrade(),
    {
        self.upgrade
    }

    /// Whether the connection stays open: keep-alive and not upgraded.
    pub fn keepalive(&self) -> (b: bool)
        ensures
            b == (self.is_keepalive() && !self.is_upgrade()),
    {
        self.keepalive && !self.upgrade
    }

    /// Writes the head of a response, then its body when the body is given
    /// as bytes. The response gets a `Connection` header: `upgrade` for an
    /// upgrade, else `close` for HTTP/1.1 and later (the default version),
    /// else none; its bytes body moves into the buffer. The writer records
    /// the size of the buffer after the head and the length of a bytes body.
    pub fn encode(&mut self, msg: &mut ResponseMessage, buffer: &mut Vec<u8>)
        requires
            100 <= old(msg).status <= 999,
        ensures
            final(self).is_started(),
            final(self).is_upgrade() == old(msg).upgrade,
            !final(self).is_keepalive(),
            !final(self).is_disconnected(),
            headers_view(final(msg).headers@) == response_headers(*old(msg)),
            final(msg).version == old(msg).version,
            final(msg).status == old(msg).status,
            final(msg).reason == old(msg).reason,
            final(msg).upgrade == old(msg).upgrade,
            final(msg).body == match old(msg).body {
                Body::Binary(_) => Body::Empty,
                b => b,
            },
            final(buffer)@ == old(buffer)@ + head_bytes(*old(msg)) + body_bytes(old(msg).body),
            final(self).head_size() == (old(buffer)@.len() + head_bytes(*old(msg)).len()) as u32,
            final(self).written_bytes() == match old(msg).body {
                Body::Binary(b) => b@.len() as u64,
                _ => old(self).written_bytes(),
            },
    {
        let ghost m0 = *msg;
        self.started = true;
        self.upgrade = false;
        self.keepalive = false;
        self.disconnected = false;
        let version = match msg.version {
            Some(v) => v,
            None => HttpVersion::Http11,
        };
        let name = literal_bytes("connection");
        if msg.upgrade {
            self.upgrade = true;
            let value = literal_bytes("upgrade");
            insert_header(&mut msg.headers, &name, &value);
        } else if version.at_least_http11() {
            let value = literal_bytes("close");
            insert_header(&mut msg.headers, &name, &value);
        }
        assert(headers_view(msg.headers@) == response_headers(m0));
        let mut body = Body::Empty;
        std::mem::swap(&mut body, &mut msg.body);
        let ghost start = buffer@;
        write_status_line(version, msg.status, buffer);
        extend(buffer, &msg.reason);
        buffer.push(13u8);
        buffer.push(10u8);
        let _date = write_headers(&msg.headers, true, buffer);
        buffer.push(13u8);
        buffer.push(10u8);
        proof {
            assert(buffer@ =~= start + head_bytes(m0));
        }
        self.headers_size = buffer.len() as u32;
        match body {
            Body::Binary(bytes) => {
                self.written = bytes.len() as u64;
                extend(buffer, &bytes);
            },
            other => {
                msg.body = other;
            },
        }
    }
}

/// A response as the HTTP/1 writer takes it.
pub struct ResponseMessage {
    /// The protocol version; HTTP/1.1 when none is set.
    pub version: Option<HttpVersion>,
    /// The status code.
    pub status: u16,
    /// The reason phrase.
    pub reason: Vec<u8>,
    /// Whether the connection is upgraded by this response.
    pub upgrade: bool,
    /// The headers, lower-case names.
    pub headers: Vec<(Vec<u8>, Vec<u8>)>,
    /// The body.
    pub body: Body,
}

/// The version a response is written in.
pub open spec fn response_version(msg: ResponseMessage) -> HttpVersion {
    match msg.version {
        Some(v) => v,
        None => HttpVersion::Http11,
    }
}

/// The `Connection` header value the writer sets on a response, if any.
pub open spec fn connection_value(msg: ResponseMessage) -> Option<Seq<u8>> {
    if msg.upgrade {
        Some(ascii_bytes("upgrade"@))
    } else if version_rank(response_version(msg)) >= 2 {
        Some(ascii_bytes("close"@))
    } else {
        None
    }
}

/// The headers of a response once the writer has set its `Connection` header.
pub open spec fn response_headers(msg: ResponseMessage) -> Seq<(Seq<u8>, Seq<u8>)> {
    match connection_value(msg) {
        Some(v) => header_insert(headers_view(msg.headers@), ascii_bytes("connection"@), v),
        None => headers_view(msg.headers@),
    }
}

/// The protocol name of a version in a status line.
pub open spec fn version_bytes(v: HttpVersion) -> Seq<u8> {
    match v {
        HttpVersion::Http09 => ascii_bytes("HTTP/0.9"@),
        HttpVersion::Http10 => ascii_bytes("HTTP/1.0"@),
        HttpVersion::Http11 => ascii_bytes("HTTP/1.1"@),
        HttpVersion::H2 => ascii_bytes("HTTP/2.0"@),
    }
}

/// The start of a status line: version, space, three status digits, space.
pub open spec fn status_line(v: HttpVersion, code: u16) -> Seq<u8> {
    version_bytes(v) + seq![
        32u8,
        (48 + code / 100) as u8,
        (48 + (code / 10) % 10) as u8,
        (48 + code % 10) as u8,
        32u8,
    ]
}

/// Law: the three digits of a status line read back as the status code, and
/// the line is the version, a space, the digits and a space.
pub proof fn law_status_digits_read_back(v: HttpVersion, code: u16)
    requires
        100 <= code <= 999,
    ensures
        ({
            let s = status_line(v, code);
            let n = version_bytes(v).len() as int;
            &&& s.len() == n + 5
            &&& s.take(n) == version_bytes(v)
            &&& s[n] == 32u8
            &&& s[n + 4] == 32u8
            &&& 48 <= s[n + 1] <= 57 && 48 <= s[n + 2] <= 57 && 48 <= s[n + 3] <= 57
            &&& 100 * (s[n + 1] - 48) + 10 * (s[n + 2] - 48) + (s[n + 3] - 48) == code
        }),
{
    let s = status_line(v, code);
    let n = version_bytes(v).len() as int;
    assert(s.take(n) =~= version_bytes(v));
    let c = code as int;
    assert(s[n + 1] == 48 + c / 100);
    assert(s[n + 2] == 48 + (c / 10) % 10);
    assert(s[n + 3] == 48 + c % 10);
    assert(100 * (c / 100) + 10 * ((c / 10) % 10) + c % 10 == c) by (nonlinear_arith)
        requires
            0 <= c,
    ;
    assert(c / 100 <= 9) by (nonlinear_arith)
        requires
            c <= 999,
    ;
}

/// The head the writer writes for a response: status line and reason, the
/// headers (`transfer-encoding` left out), and the empty line.
pub open spec fn head_bytes(msg: ResponseMessage) -> Seq<u8> {
    status_line(response_version(msg), msg.status) + msg.reason@ + seq![13u8, 10u8]
        + headers_bytes(response_headers(msg), true) + seq![13u8, 10u8]
}

/// The bytes of a body given as bytes; nothing for another body.
pub open spec fn body_bytes(b: Body) -> Seq<u8> {
    match b {
        Body::Binary(v) => v@,
        _ => Seq::empty(),
    }
}

fn write_status_line(version: HttpVersion, code: u16, buf: &mut Vec<u8>)
    requires
        100 <= code <= 999,
    ensures
        final(buf)@ == old(buf)@ + status_line(version, code),
{
    let name = match version {
        HttpVersion::Http09 => "HTTP/0.9",
        HttpVersion::Http10 => "HTTP/1.0",
        HttpVersion::Http11 => "HTTP/1.1",
        HttpVersion::H2 => "HTTP/2.0",
    };
    let v = literal_bytes(name);
    extend(buf, &v);
    buf.push(32u8);
    buf.push((code / 100) as u8 + 48);
    buf.push(((code / 10) % 10) as u8 + 48);
    buf.push((code % 10) as u8 + 48);
    buf.push(32u8);
    proof {
        assert(buf@ =~= old(buf)@ + status_line(version, code));
    }
}

/// The bytes of an ASCII string literal, as a vector.
pub fn literal_bytes(lit: &str) -> (v: Vec<u8>)
    ensures
        v@ == ascii_bytes(lit@),
{
    let chars = crate::router::str_chars(lit);
    let mut v: Vec<u8> = Vec::new();
    let mut i: usize = 0;
    while i < chars.len()
        invariant
            i <= chars@.len(),
            chars@ == lit@,
            v@ == ascii_bytes(lit@).take(i as int),
        decreases chars@.len() - i,
    {
        v.push(chars[i] as u8);
        i += 1;
        assert(v@ =~= ascii_bytes(lit@).take(i as int));
    }
    assert(ascii_bytes(lit@).take(i as int) =~= ascii_bytes(lit@));
    v
}

/// Whether two byte strings are equal.
pub fn bytes_eq(a: &Vec<u8>, b: &Vec<u8>) -> (r: bool)
    ensures
        r == (a@ == b@),
{
    if a.len() != b.len() {
        assert(a@.len() != b@.len());
        return false;
    }
    let mut i: usize = 0;
    while i < a.len()
        invariant
            i <= a@.len(),
            a@.len() == b@.len(),
            forall|j: int| 0 <= j < i ==> a@[j] == b@[j],
        decreases a@.len() - i,
    {
        if a[i] != b[i] {
            assert(a@[i as int] != b@[i as int]);
            return false;
        }
        i += 1;
    }
    assert(a@ =~= b@);
    true
}

/// The bytes of an ASCII string literal.
pub open spec fn ascii_bytes(s: Seq<char>) -> Seq<u8> {
    s.map_values(|c: char| c as u8)
}

/// Whether a header, by its lower-case name, is written: `transfer-encoding`
/// never is, `content-length` only when the response has no length of its
/// own.
pub open spec fn header_written(name: Seq<u8>, length_none: bool) -> bool {
    if name == ascii_bytes("transfer-encoding"@) {
        false
    } else if name == ascii_bytes("content-length"@) {
        length_none
    } else {
        true
    }
}

/// The serialization of the headers that are written: `name: value\r\n` for
/// each, in order.
pub open spec fn headers_bytes(headers: Seq<(Seq<u8>, Seq<u8>)>, length_none: bool) -> Seq<u8>
    decreases headers.len(),
{
    if headers.len() == 0 {
        Seq::empty()
    } else {
        let rest = headers_bytes(headers.drop_last(), length_none);
        let (k, v) = headers.last();
        if header_written(k, length_none) {
            rest + k + seq![58u8, 32u8] + v + seq![13u8, 10u8]
        } else {
            rest
        }
    }
}

/// Whether a written header is `date`.
pub open spec fn has_date(headers: Seq<(Seq<u8>, Seq<u8>)>, length_none: bool) -> bool {
    exists|i: int|
        0 <= i < headers.len() && header_written(headers[i].0, length_none) && headers[i].0
            == ascii_bytes("date"@)
}

fn eq_literal(a: &Vec<u8>, lit: &str) -> (b: bool)
    ensures
        b == (a@ == ascii_bytes(lit@)),
{
    let chars = crate::router::str_chars(lit);
    if a.len() != chars.len() {
        assert(a@.len() != ascii_bytes(lit@).len());
        return false;
    }
    let mut i: usize = 0;
    while i < a.len()
        invariant
            i <= a@.len(),
            a@.len() == chars@.len(),
            chars@ == lit@,
            forall|j: int| 0 <= j < i ==> a@[j] == #[trigger] ascii_bytes(lit@)[j],
        decreases a@.len() - i,
    {
        let c = chars[i] as u8;
        if a[i] != c {
            assert(a@[i as int] != ascii_bytes(lit@)[i as int]);
            return false;
        }
        i += 1;
    }
    assert(a@ =~= ascii_bytes(lit@));
    true
}

fn extend(buf: &mut Vec<u8>, data: &Vec<u8>)
    ensures
        final(buf)@ == old(buf)@ + data@,
{
    let mut i: usize = 0;
    while i < data.len()
        invariant
            i <= data@.len(),
            buf@ == old(buf)@ + data@.take(i as int),
        decreases data@.len() - i,
    {
        buf.push(data[i]);
        i += 1;
        assert(data@.take(i as int) =~= data@.take(i - 1).push(data@[i - 1]));
    }
    assert(data@.take(data@.len() as int) =~= data@);
}

/// Writes the response headers (lower-case names) into `buf`, leaving out
/// `transfer-encoding`, and `content-length` unless the response has no
/// length of its own; tells whether a `date` header was written.
pub fn write_headers(headers: &Vec<(Vec<u8>, Vec<u8>)>, length_none: bool, buf: &mut Vec<u8>) -> (date: bool)
    ensures
        final(buf)@ == old(buf)@ + headers_bytes(headers_view(headers@), length_none),
        date == has_date(headers_view(headers@), length_none),
{
    let ghost hs = headers_view(headers@);
    let mut found_date = false;
    let mut i: usize = 0;
    proof {
        assert(hs.take(0) =~= Seq::<(Seq<u8>, Seq<u8>)>::empty());
        assert(old(buf)@ + Seq::<u8>::empty() =~= old(buf)@);
    }
    while i < headers.len()
        invariant
            i <= headers@.len(),
            hs == headers_view(headers@),
            buf@ == old(buf)@ + headers_bytes(hs.take(i as int), length_none),
            found_date == has_date(hs.take(i as int), length_none),
        decreases headers@.len() - i,
    {
        let ghost before = buf@;
        proof {
            assert(hs.take(i + 1).drop_last() =~= hs.take(i as int));
            assert(hs.take(i + 1).last() == hs[i as int]);
        }
        let key = &headers[i].0;
        let value = &headers[i].1;
        let te = eq_literal(key, "transfer-encoding");
        let cl = eq_literal(key, "content-length");
        let write = if te {
            false
        } else if cl {
            length_none
        } else {
            true
        };
        if write {
            if eq_literal(key, "date") {
                found_date = true;
            }
            extend(buf, key);
            buf.push(58u8);
            buf.push(32u8);
            extend(buf, value);
            buf.push(13u8);
            buf.push(10u8);
            proof {
                assert(buf@ =~= old(buf)@ + (headers_bytes(hs.take(i as int), length_none) + hs[i as int].0
                    + seq![58u8, 32u8] + hs[i as int].1 + seq![13u8, 10u8]));
            }
        }
        proof {
            let t = hs.take(i + 1);
            if has_date(t, length_none) && !has_date(hs.take(i as int), length_none) {
                let j = choose|j: int|
                    0 <= j < t.len() && header_written(t[j].0, length_none) && t[j].0
                        == ascii_bytes("date"@);
                if j < i {
                    assert(hs.take(i as int)[j] == t[j]);
                }
            }
            if has_date(hs.take(i as int), length_none) {
                let j = choose|j: int|
                    0 <= j < i && header_written(hs.take(i as int)[j].0, length_none) && hs.take(i as int)[j].0
                        == ascii_bytes("date"@);
                assert(t[j] == hs.take(i as int)[j]);
            }
            if write && key@ == ascii_bytes("date"@) {
                assert(t[i as int] == hs[i as int]);
            }
        }
        i += 1;
    }
    proof {
        assert(hs.take(i as int) =~= hs);
    }
    found_date
}

/// Whether a request asks for a connection upgrade: when its `Connection`
/// header reads as a string, whether its lower-case form contains `upgrade`;
/// otherwise, whether the method is `CONNECT`.
pub open spec fn request_upgrade_spec(connection: Option<Seq<u8>>, is_connect: bool) -> bool {
    match connection {
        Some(v) => if crate::multipart::is_visible_ascii(v) {
            contains_at_some(lower_ascii(v), ascii_bytes("upgrade"@))
        } else {
            is_connect
        },
        None => is_connect,
    }
}

/// ASCII lower-case of bytes.
pub open spec fn lower_ascii(v: Seq<u8>) -> Seq<u8> {
    crate::pool::lower_bytes(v)
}

/// Whether `needle` occurs in `hay`.
pub open spec fn contains_at_some(hay: Seq<u8>, needle: Seq<u8>) -> bool {
    exists|i: int| 0 <= i && i + needle.len() <= hay.len() && #[trigger] hay.subrange(i, i + needle.len()) == needle
}

/// Check if a request requires connection upgrade.
pub fn request_upgrade(connection: Option<&[u8]>, is_connect: bool) -> (b: bool)
    ensures
        b == request_upgrade_spec(
            match connection {
                Some(v) => Some(v@),
                None => None,
            },
            is_connect,
        ),
{
    if let Some(v) = connection {
        let mut visible = true;
        let mut i: usize = 0;
        while i < v.len()
            invariant
                i <= v@.len(),
                visible == forall|j: int|
                    0 <= j < i ==> ((32 <= #[trigger] v@[j] && v@[j] < 127) || v@[j] == 9),
            decreases v@.len() - i,
        {
            let c = v[i];
            if !((32 <= c && c < 127) || c == 9) {
                visible = false;
            }
            i += 1;
        }
        if visible {
            let low = crate::pool::Key::from(v);
            let hay = low.as_bytes();
            let needle: [u8; 7] = [117u8, 112u8, 103u8, 114u8, 97u8, 100u8, 101u8];
            proof {
                reveal_strlit("upgrade");
                assert(needle@ =~= ascii_bytes("upgrade"@));
            }
            return contains(hay, needle.as_slice());
        }
    }
    is_connect
}

/// Whether `needle` occurs in `hay`.
pub fn contains(hay: &Vec<u8>, needle: &[u8]) -> (b: bool)
    ensures
        b == contains_at_some(hay@, needle@),
{
    if needle.len() > hay.len() {
        return false;
    }
    let hay_len = hay.len();
    let last = hay_len - needle.len();
    let mut i: usize = 0;
    loop
        invariant
            i <= last,
            last == hay@.len() - needle@.len(),
            hay_len == hay@.len(),
            forall|k: int| 0 <= k < i ==> #[trigger] hay@.subrange(k, k + needle@.len()) != needle@,
        decreases last - i,
    {
        let mut j: usize = 0;
        let mut ok = true;
        while j < needle.len()
            invariant
                j <= needle@.len(),
                i <= last,
                last == hay@.len() - needle@.len(),
                hay_len == hay@.len(),
                ok == forall|m: int| 0 <= m < j ==> hay@[i + m] == needle@[m],
            decreases needle@.len() - j,
        {
            if hay[i + j] != needle[j] {
                ok = false;
            }
            j += 1;
        }
        if ok {
            assert(hay@.subrange(i as int, i + needle@.len()) =~= needle@);
            return true;
        }
        proof {
            let m = choose|m: int| 0 <= m < needle@.len() && hay@[i + m] != needle@[m];
            assert(hay@.subrange(i as int, i + needle@.len())[m] != needle@[m]);
        }
        if i == last {
            return false;
        }
        i += 1;
    }
}

/// Settings of a server: its address, whether it is secure, and its host.
pub struct ServerSettings<A> {
    addr: Option<A>,
    secure: bool,
    host: String,
}

impl<A> ServerSettings<A> {
    /// The local address.
    pub closed spec fn addr_spec(&self) -> Option<A> {
        self.addr
    }

    /// Whether connections are secure.
    pub closed spec fn secure_spec(&self) -> bool {
        self.secure
    }

    /// The host header value.
    pub closed spec fn host_spec(&self) -> Seq<char> {
        self.host@
    }

    /// Settings with no address, not secure, for host `localhost:8080`.
    pub fn default_settings() -> (s: Self)
        ensures
            s.addr_spec() is None,
            !s.secure_spec(),
            s.host_spec() == "localhost:8080"@,
    {
        ServerSettings { addr: None, secure: false, host: "localhost:8080".to_owned() }
    }

    /// Settings for an address (with its printed form, which becomes the
    /// host) or none (the host is then `unknown`).
    pub fn new(addr: Option<(A, String)>, secure: bool) -> (s: Self)
        ensures
            s.secure_spec() == secure,
            match addr {
                Some((a, text)) => s.addr_spec() == Some(a) && s.host_spec() == text@,
                None => s.addr_spec() is None && s.host_spec() == "unknown"@,
            },
    {
        match addr {
            Some((a, text)) => ServerSettings { addr: Some(a), secure, host: text },
            None => ServerSettings { addr: None, secure, host: "unknown".to_owned() },
        }
    }

    /// Returns the socket address of the local half of this TCP connection
    pub fn local_addr(&self) -> (a: &Option<A>)
        ensures
            *a == self.addr_spec(),
    {
        &self.addr
    }

    /// Returns true if connection is secure(https)
    pub fn secure(&self) -> (b: bool)
        ensures
            b == self.secure_spec(),
    {
        self.secure
    }

    /// Returns host header value
    pub fn host(&self) -> (h: &str)
        ensures
            h@ == self.host_spec(),
    {
        self.host.as_str()
    }
}

/// The values of the successes among results, in order.
pub open spec fn oks<S, E>(rs: Seq<Result<S, E>>) -> Seq<S>
    decreases rs.len(),
{
    if rs.len() == 0 {
        Seq::empty()
    } else {
        match rs.last() {
            Ok(s) => oks(rs.drop_last()).push(s),
            Err(_) => oks(rs.drop_last()),
        }
    }
}

/// The last failure among results, if any.
pub open spec fn last_err<S, E>(rs: Seq<Result<S, E>>) -> Option<E>
    decreases rs.len(),
{
    if rs.len() == 0 {
        None
    } else {
        match rs.last() {
            Ok(_) => last_err(rs.drop_last()),
            Err(e) => Some(e),
        }
    }
}

/// How binding a server's addresses ends, from what binding each address
/// gave, in order: the bound sockets when any address was bound, else the
/// last error (none: nothing to bind to).
pub fn bind_result<S, E>(results: Vec<Result<S, E>>) -> (r: Result<Vec<S>, Option<E>>)
    ensures
        match r {
            Ok(v) => v@ == oks(results@) && v@.len() > 0,
            Err(e) => oks(results@).len() == 0 && e == last_err(results@),
        },
{
    let ghost rs = results@;
    let n = results.len();
    let mut sockets: Vec<S> = Vec::new();
    let mut err: Option<E> = None;
    let mut i: usize = 0;
    let mut results = results;
    let mut rest: Vec<Result<S, E>> = Vec::new();
    while results.len() > 0
        invariant
            rest@ + results@.reverse() == rs.reverse(),
        decreases results@.len(),
    {
        let ghost before = results@;
        let x = results.pop().unwrap();
        rest.push(x);
        proof {
            assert(before =~= results@.push(x));
            assert(before.reverse() =~= seq![x] + results@.reverse());
            assert(rest@ + results@.reverse() =~= rs.reverse());
        }
    }
    assert(rest@ =~= rs.reverse());
    while rest.len() > 0
        invariant
            rest@.reverse() == rs.skip(i as int),
            i <= rs.len(),
            rs.len() == n,
            sockets@ == oks(rs.take(i as int)),
            err == last_err(rs.take(i as int)),
        decreases rest@.len(),
    {
        let ghost before = rest@;
        let x = rest.pop().unwrap();
        proof {
            assert(before =~= rest@.push(x));
            assert(before.reverse() =~= seq![x] + rest@.reverse());
            assert(rs.skip(i as int)[0] == x);
            assert(rs.skip(i as int).drop_first() =~= rs.skip(i + 1));
            assert(rs.take(i + 1).drop_last() =~= rs.take(i as int));
            assert(rs.take(i + 1).last() == x);
        }
        match x {
            Ok(sock) => sockets.push(sock),
            Err(e) => err = Some(e),
        }
        i += 1;
    }
    proof {
        assert(rs.skip(i as int).len() == 0);
        assert(rs.take(i as int) =~= rs);
    }
    if sockets.len() == 0 {
        Err(err)
    } else {
        Ok(sockets)
    }
}

} // verus!
