//! Response-side message types: connection types, protocol versions,
//! header lists, bodies and response heads.
use std::collections::VecDeque;
use vstd::prelude::*;
use vstd::string::StringSliceAdditionalSpecFns;

verus! {

/// Represents various types of connection
#[derive(PartialEq, Eq, Structural, Debug, Clone, Copy)]
pub enum ConnectionType {
    /// Close connection after response
    Close,
    /// Keep connection alive after response
    KeepAlive,
    /// Connection is upgraded to different type
    Upgrade,
}

/// Keep-alive status for a connection type set on a response: none when no
/// type is set, keep-alive only for `KeepAlive`.
pub fn keep_alive_of(ct: Option<ConnectionType>) -> (k: Option<bool>)
    ensures
        k == match ct {
            None => None,
            Some(c) => Some(c == ConnectionType::KeepAlive),
        },
{
    match ct {
        Some(ConnectionType::KeepAlive) => Some(true),
        Some(ConnectionType::Close) => Some(false),
        Some(ConnectionType::Upgrade) => Some(false),
        None => None,
    }
}

/// HTTP protocol versions, oldest first.
#[derive(PartialEq, Eq, Structural, Debug, Clone, Copy)]
pub enum HttpVersion {
    /// HTTP/0.9
    Http09,
    /// HTTP/1.0
    Http10,
    /// HTTP/1.1
    Http11,
    /// HTTP/2.0
    H2,
}

/// The position of a version in the order of versions.
pub open spec fn version_rank(v: HttpVersion) -> int {
    match v {
        HttpVersion::Http09 => 0,
        HttpVersion::Http10 => 1,
        HttpVersion::Http11 => 2,
        HttpVersion::H2 => 3,
    }
}

impl HttpVersion {
    /// Whether this version is HTTP/1.1 or later.
    pub fn at_least_http11(&self) -> (b: bool)
        ensures
            b == (version_rank(*self) >= 2),
    {
        match self {
            HttpVersion::Http09 => false,
            HttpVersion::Http10 => false,
            _ => true,
        }
    }
}

/// A header list by value: `(name, value)` pairs in order.
pub open spec fn headers_view(h: Seq<(Vec<u8>, Vec<u8>)>) -> Seq<(Seq<u8>, Seq<u8>)> {
    h.map_values(|p: (Vec<u8>, Vec<u8>)| (p.0@, p.1@))
}

/// The header list after setting `name` to `value` from `found` on: the
/// first entry with that name takes the value and later ones go; with no
/// such entry (and `found` false) the pair is appended.
pub open spec fn insert_scan(
    hs: Seq<(Seq<u8>, Seq<u8>)>,
    name: Seq<u8>,
    value: Seq<u8>,
    found: bool,
) -> Seq<(Seq<u8>, Seq<u8>)>
    decreases hs.len(),
{
    if hs.len() == 0 {
        if found {
            Seq::empty()
        } else {
            seq![(name, value)]
        }
    } else if hs[0].0 == name {
        if found {
            insert_scan(hs.drop_first(), name, value, true)
        } else {
            seq![(name, value)] + insert_scan(hs.drop_first(), name, value, true)
        }
    } else {
        seq![hs[0]] + insert_scan(hs.drop_first(), name, value, found)
    }
}

/// The header list after setting `name` to the single value `value`.
pub open spec fn header_insert(hs: Seq<(Seq<u8>, Seq<u8>)>, name: Seq<u8>, value: Seq<u8>) -> Seq<
    (Seq<u8>, Seq<u8>),
> {
    insert_scan(hs, name, value, false)
}

proof fn lemma_insert_scan_step(
    hs: Seq<(Seq<u8>, Seq<u8>)>,
    i: int,
    name: Seq<u8>,
    value: Seq<u8>,
    found: bool,
)
    requires
        0 <= i < hs.len(),
    ensures
        insert_scan(hs.skip(i), name, value, found) == if hs[i].0 == name {
            if found {
                insert_scan(hs.skip(i + 1), name, value, true)
            } else {
                seq![(name, value)] + insert_scan(hs.skip(i + 1), name, value, true)
            }
        } else {
            seq![hs[i]] + insert_scan(hs.skip(i + 1), name, value, found)
        },
{
    assert(hs.skip(i).drop_first() =~= hs.skip(i + 1));
    assert(hs.skip(i)[0] == hs[i]);
}

proof fn lemma_scan_found_has_none(hs: Seq<(Seq<u8>, Seq<u8>)>, name: Seq<u8>, value: Seq<u8>)
    ensures
        forall|i: int|
            0 <= i < insert_scan(hs, name, value, true).len() ==> (#[trigger] insert_scan(
                hs,
                name,
                value,
                true,
            )[i]).0 != name,
    decreases hs.len(),
{
    if hs.len() > 0 {
        let rest = insert_scan(hs.drop_first(), name, value, true);
        lemma_scan_found_has_none(hs.drop_first(), name, value);
        if hs[0].0 != name {
            assert forall|i: int| 0 <= i < (seq![hs[0]] + rest).len() implies (#[trigger] (seq![
                hs[0],
            ] + rest)[i]).0 != name by {
                if i > 0 {
                    assert((seq![hs[0]] + rest)[i] == rest[i - 1]);
                }
            }
        }
    }
}

proof fn lemma_scan_single(hs: Seq<(Seq<u8>, Seq<u8>)>, name: Seq<u8>, value: Seq<u8>)
    ensures
        ({
            let r = insert_scan(hs, name, value, false);
            exists|k: int|
                0 <= k < r.len() && r[k] == (name, value) && forall|i: int|
                    0 <= i < r.len() && i != k ==> (#[trigger] r[i]).0 != name
        }),
    decreases hs.len(),
{
    let r = insert_scan(hs, name, value, false);
    if hs.len() == 0 {
        assert(r[0] == (name, value));
    } else if hs[0].0 == name {
        let rest = insert_scan(hs.drop_first(), name, value, true);
        lemma_scan_found_has_none(hs.drop_first(), name, value);
        assert(r[0] == (name, value));
        assert forall|i: int| 0 <= i < r.len() && i != 0 implies (#[trigger] r[i]).0 != name by {
            assert(r[i] == rest[i - 1]);
        }
    } else {
        let rest = insert_scan(hs.drop_first(), name, value, false);
        lemma_scan_single(hs.drop_first(), name, value);
        let k = choose|k: int|
            0 <= k < rest.len() && rest[k] == (name, value) && forall|i: int|
                0 <= i < rest.len() && i != k ==> (#[trigger] rest[i]).0 != name;
        assert(r[k + 1] == rest[k]);
        assert forall|i: int| 0 <= i < r.len() && i != k + 1 implies (#[trigger] r[i]).0 != name by {
            if i > 0 {
                assert(r[i] == rest[i - 1]);
            }
        }
    }
}

/// Law: after a header is set, exactly one header has its name, and it has
/// the value set.
pub proof fn law_set_header_single(hs: Seq<(Seq<u8>, Seq<u8>)>, name: Seq<u8>, value: Seq<u8>)
    ensures
        ({
            let r = header_insert(hs, name, value);
            exists|k: int|
                0 <= k < r.len() && r[k] == (name, value) && forall|i: int|
                    0 <= i < r.len() && i != k ==> (#[trigger] r[i]).0 != name
        }),
{
    lemma_scan_single(hs, name, value);
    let r = insert_scan(hs, name, value, false);
    assert(header_insert(hs, name, value) == r);
    let k = choose|k: int|
        0 <= k < r.len() && r[k] == (name, value) && forall|i: int|
            0 <= i < r.len() && i != k ==> (#[trigger] r[i]).0 != name;
    assert(0 <= k < r.len() && r[k] == (name, value));
}

/// Sets header `name` to the single value `value`: the first entry with that
/// name keeps its place and takes the value, later entries with the name are
/// removed; without such an entry the pair is appended.
pub fn insert_header(headers: &mut Vec<(Vec<u8>, Vec<u8>)>, name: &Vec<u8>, value: &Vec<u8>)
    ensures
        headers_view(final(headers)@) == header_insert(headers_view(old(headers)@), name@, value@),
{
    let ghost hs = headers_view(headers@);
    let mut out: Vec<(Vec<u8>, Vec<u8>)> = Vec::new();
    let mut found = false;
    let mut i: usize = 0;
    proof {
        assert(hs.skip(0) =~= hs);
        assert(headers_view(out@) + insert_scan(hs.skip(0), name@, value@, false) =~= header_insert(
            hs,
            name@,
            value@,
        ));
    }
    while i < headers.len()
        invariant
            i <= headers@.len(),
            hs == headers_view(headers@),
            headers_view(out@) + insert_scan(hs.skip(i as int), name@, value@, found) == header_insert(
                hs,
                name@,
                value@,
            ),
        decreases headers@.len() - i,
    {
        proof {
            lemma_insert_scan_step(hs, i as int, name@, value@, found);
        }
        let ghost before = headers_view(out@);
        let same = crate::server::bytes_eq(&headers[i].0, name);
        if same {
            if !found {
                out.push((name.clone(), value.clone()));
                proof {
                    assert(headers_view(out@) =~= before + seq![(name@, value@)]);
                }
                found = true;
            }
        } else {
            let k = headers[i].0.clone();
            let v = headers[i].1.clone();
            out.push((k, v));
            proof {
                assert(headers_view(out@) =~= before + seq![hs[i as int]]);
            }
        }
        i += 1;
    }
    if !found {
        let ghost before = headers_view(out@);
        out.push((name.clone(), value.clone()));
        proof {
            assert(headers_view(out@) =~= before + seq![(name@, value@)]);
        }
    }
    proof {
        assert(hs.skip(i as int) =~= Seq::<(Seq<u8>, Seq<u8>)>::empty());
        assert(headers_view(out@) =~= header_insert(hs, name@, value@));
    }
    *headers = out;
}

/// The body of a message.
pub enum Body {
    /// No body.
    Empty,
    /// A body given as bytes.
    Binary(Vec<u8>),
    /// A body produced by a stream.
    Streaming,
}

/// The head of a response: version, status, headers, reason, and the
/// connection type asked for, if any.
pub struct ResponseHead {
    /// The protocol version.
    pub version: HttpVersion,
    /// The status code.
    pub status: u16,
    /// The headers, lower-case names.
    pub headers: Vec<(Vec<u8>, Vec<u8>)>,
    /// A reason phrase of its own.
    pub reason: Option<String>,
    /// The connection type asked for.
    pub connection_type: Option<ConnectionType>,
}

/// Whether a response head keeps the connection alive: as its connection
/// type says when one is set, else for HTTP/1.1 and later.
pub open spec fn head_keep_alive(version: HttpVersion, ct: Option<ConnectionType>) -> bool {
    match ct {
        Some(c) => c == ConnectionType::KeepAlive,
        None => version_rank(version) >= 2,
    }
}

impl ResponseHead {
    /// An HTTP/1.1 `200` head with no headers, no reason and no connection
    /// type.
    pub fn new() -> (h: Self)
        ensures
            h.version == HttpVersion::Http11,
            h.status == 200,
            h.headers@.len() == 0,
            h.reason is None,
            h.connection_type is None,
    {
        ResponseHead {
            version: HttpVersion::Http11,
            status: 200,
            headers: Vec::new(),
            reason: None,
            connection_type: None,
        }
    }

    /// Whether the connection is kept alive after this response.
    pub fn keep_alive(&self) -> (b: bool)
        ensures
            b == head_keep_alive(self.version, self.connection_type),
    {
        match self.connection_type {
            Some(ConnectionType::KeepAlive) => true,
            Some(ConnectionType::Close) => false,
            Some(ConnectionType::Upgrade) => false,
            None => self.version.at_least_http11(),
        }
    }

    /// Whether the connection is upgraded.
    pub fn upgrade(&self) -> (b: bool)
        ensures
            b == (self.connection_type == Some(ConnectionType::Upgrade)),
    {
        match self.connection_type {
            Some(ConnectionType::Upgrade) => true,
            _ => false,
        }
    }
}

/// The most messages a pool keeps for reuse.
pub const POOL_CAPACITY: usize = 128;

/// A pool of messages kept for reuse, most recently released first.
pub struct MessagePool<T> {
    items: VecDeque<T>,
}

impl<T> MessagePool<T> {
    /// The messages kept, most recently released first.
    pub closed spec fn view(&self) -> Seq<T> {
        self.items@
    }

    /// An empty pool.
    pub fn new() -> (p: Self)
        ensures
            p.view() == Seq::<T>::empty(),
    {
        MessagePool { items: VecDeque::new() }
    }

    /// Takes the most recently released message, if any; with none the
    /// caller makes a new one.
    pub fn get(&mut self) -> (m: Option<T>)
        ensures
            old(self).view().len() == 0 ==> m is None && final(self).view() == old(self).view(),
            old(self).view().len() > 0 ==> m == Some(old(self).view()[0]) && final(self).view()
                == old(self).view().drop_first(),
    {
        self.items.pop_front()
    }

    /// Keeps a released (and cleared) message for reuse while the pool
    /// holds fewer than its capacity; otherwise the message is dropped.
    /// Tells whether it was kept.
    pub fn release(&mut self, msg: T) -> (kept: bool)
        ensures
            kept == (old(self).view().len() < POOL_CAPACITY),
            final(self).view() == if kept {
                seq![msg] + old(self).view()
            } else {
                old(self).view()
            },
    {
        if self.items.len() < POOL_CAPACITY {
            self.items.push_front(msg);
            proof {
                assert(self.items@ =~= seq![msg] + old(self).items@);
            }
            true
        } else {
            false
        }
    }
}

/// Law: a pool never keeps more messages than its capacity.
pub proof fn law_pool_bounded<T>(before: Seq<T>, msg: T)
    requires
        before.len() <= POOL_CAPACITY,
    ensures
        (if before.len() < POOL_CAPACITY {
            seq![msg] + before
        } else {
            before
        }).len() <= POOL_CAPACITY,
{
}

/// The largest write buffer a response asks for by default.
pub const MAX_WRITE_BUFFER_SIZE: usize = 65536;

/// The name and value a `Set-Cookie` text parses to (percent-decoded), if
/// it parses.
pub uninterp spec fn spec_cookie_parse(s: Seq<char>) -> Option<(Seq<char>, Seq<char>)>;

/// Calls `cookie::Cookie::parse_encoded` on a `Set-Cookie` text and keeps
/// the cookie's name and value. The result is named: a function of the text
/// alone.
#[verifier::external_body]
fn parse_cookie(s: &str) -> (r: Option<(String, String)>)
    ensures
        match r {
            Some((n, v)) => spec_cookie_parse(s@) == Some((n@, v@)),
            None => spec_cookie_parse(s@) is None,
        },
{
    match cookie::Cookie::parse_encoded(s) {
        Ok(c) => Some((c.name().to_owned(), c.value().to_owned())),
        Err(_) => None,
    }
}

/// Formats `cookie::Cookie::new(name, value)` with `to_string`: a new cookie
/// has no attributes, so it is written `name=value`.
#[verifier::external_body]
fn cookie_pair_string(name: &str, value: &str) -> (s: String)
    ensures
        s@ == name@ + "="@ + value@,
{
    cookie::Cookie::new(name.to_owned(), value.to_owned()).to_string()
}

#[verifier::external_type_specification]
#[verifier::external_body]
pub struct ExCookieJar(cookie::CookieJar);

/// The changes a cookie jar holds (its delta), by cookie name: the value set
/// and whether the change removes the cookie.
pub uninterp spec fn jar_delta(jar: cookie::CookieJar) -> Map<Seq<char>, (Seq<char>, bool)>;

/// The names of the cookies a jar holds as the original ones.
pub uninterp spec fn jar_originals(jar: cookie::CookieJar) -> Set<Seq<char>>;

/// No change to any cookie.
pub open spec fn no_changes() -> Map<Seq<char>, (Seq<char>, bool)> {
    Map::empty()
}

/// Calls `cookie::CookieJar::new`: an empty jar, with no change and no
/// original cookie.
#[verifier::external_body]
pub(crate) fn jar_new() -> (made: cookie::CookieJar)
    ensures
        jar_delta(made) == no_changes(),
        jar_originals(made) == Set::<Seq<char>>::empty(),
{
    cookie::CookieJar::new()
}

/// Calls `cookie::CookieJar::add` with `Cookie::new(name, value)`: the change
/// for that name becomes setting the value (it replaces a change of the same
/// name); the original cookies stay.
#[verifier::external_body]
pub(crate) fn jar_add(jar: &mut cookie::CookieJar, name: &str, value: &str)
    ensures
        jar_delta(*final(jar)) == jar_delta(*old(jar)).insert(name@, (value@, false)),
        jar_originals(*final(jar)) == jar_originals(*old(jar)),
{
    jar.add(cookie::Cookie::new(name.to_owned(), value.to_owned()))
}

/// Calls `cookie::CookieJar::add_original` with `Cookie::new(name, value)`:
/// the name is among the original cookies; the changes stay.
#[verifier::external_body]
pub(crate) fn jar_add_original(jar: &mut cookie::CookieJar, name: &str, value: &str)
    ensures
        jar_delta(*final(jar)) == jar_delta(*old(jar)),
        jar_originals(*final(jar)) == jar_originals(*old(jar)).insert(name@),
{
    jar.add_original(cookie::Cookie::new(name.to_owned(), value.to_owned()))
}

/// Calls `cookie::CookieJar::remove` with `Cookie::new(name, value)`: for an
/// original cookie the change for the name becomes its removal (an empty
/// value); otherwise the change for the name is dropped. The original
/// cookies stay.
#[verifier::external_body]
pub(crate) fn jar_remove(jar: &mut cookie::CookieJar, name: &str, value: &str)
    ensures
        jar_delta(*final(jar)) == if jar_originals(*old(jar)).contains(name@) {
            jar_delta(*old(jar)).insert(name@, (""@, true))
        } else {
            jar_delta(*old(jar)).remove(name@)
        },
        jar_originals(*final(jar)) == jar_originals(*old(jar)),
{
    jar.remove(cookie::Cookie::new(name.to_owned(), value.to_owned()))
}

/// Whether `text` is how a change of the jar is written: `name=value` first,
/// its attributes after (a removal's carry its expiry date, taken from the
/// clock when it was made).
pub open spec fn delta_text(name: Seq<char>, change: (Seq<char>, bool), text: Seq<char>) -> bool {
    (name + "="@ + change.0).is_prefix_of(text)
}

/// Whether `texts` are the changes of a jar, one text per change, in some
/// order.
pub open spec fn delta_texts(delta: Map<Seq<char>, (Seq<char>, bool)>, texts: Seq<Seq<char>>) -> bool {
    &&& delta.dom().finite()
    &&& texts.len() == delta.dom().len()
    &&& forall|i: int|
        #![trigger texts[i]]
        0 <= i < texts.len() ==> exists|n: Seq<char>|
            delta.dom().contains(n) && #[trigger] delta_text(n, delta[n], texts[i])
    &&& forall|n: Seq<char>|
        #![trigger delta.dom().contains(n)]
        delta.dom().contains(n) ==> exists|i: int|
            0 <= i < texts.len() && #[trigger] delta_text(n, delta[n], texts[i])
}

/// Calls `cookie::CookieJar::delta` and writes each change with `to_string`.
/// The order of the texts is that of the jar's hash set, which this does
/// not state; each change gives one text, which starts with `name=value`.
/// The attributes after that are not stated.
#[verifier::external_body]
pub(crate) fn jar_delta_texts(jar: &cookie::CookieJar) -> (v: Vec<String>)
    ensures
        delta_texts(jar_delta(*jar), v@.map_values(|t: String| t@)),
{
    jar.delta().map(|c| c.to_string()).collect()
}

/// The canonical reason phrase of a status code, if it has one.
pub uninterp spec fn spec_canonical_reason(code: u16) -> Option<Seq<char>>;

/// Calls `http::StatusCode::canonical_reason` on the status code `code`
/// (made with `StatusCode::from_u16`, which takes codes 100 to 599). The
/// result is named: a function of the code alone.
#[verifier::external_body]
fn canonical_reason(code: u16) -> (r: Option<&'static str>)
    requires
        100 <= code < 600,
    ensures
        match r {
            Some(s) => spec_canonical_reason(code) == Some(s@),
            None => spec_canonical_reason(code) is None,
        },
{
    match http::StatusCode::from_u16(code) {
        Ok(c) => c.canonical_reason(),
        Err(_) => None,
    }
}

/// The lower-case name of the `Set-Cookie` header.
pub open spec fn set_cookie_name() -> Seq<u8> {
    crate::server::ascii_bytes("set-cookie"@)
}

/// Whether a header value can be set: no control byte but the tab.
pub open spec fn valid_header_value(v: Seq<u8>) -> bool {
    forall|i: int| 0 <= i < v.len() ==> ((#[trigger] v[i] >= 32 && v[i] != 127) || v[i] == 9)
}

/// The `Set-Cookie` values among headers, in order.
pub open spec fn cookie_values(hs: Seq<(Seq<u8>, Seq<u8>)>) -> Seq<Seq<u8>>
    decreases hs.len(),
{
    if hs.len() == 0 {
        Seq::empty()
    } else if hs.last().0 == set_cookie_name() {
        cookie_values(hs.drop_last()).push(hs.last().1)
    } else {
        cookie_values(hs.drop_last())
    }
}

/// The headers other than `Set-Cookie`, in order.
pub open spec fn other_headers(hs: Seq<(Seq<u8>, Seq<u8>)>) -> Seq<(Seq<u8>, Seq<u8>)>
    decreases hs.len(),
{
    if hs.len() == 0 {
        Seq::empty()
    } else if hs.last().0 == set_cookie_name() {
        other_headers(hs.drop_last())
    } else {
        other_headers(hs.drop_last()).push(hs.last())
    }
}

/// The cookies of `Set-Cookie` values, in order: values that do not parse
/// are passed over, and the first value that does not read as a string
/// ends the list.
pub open spec fn cookies_of(vs: Seq<Seq<u8>>) -> Seq<(Seq<char>, Seq<char>)>
    decreases vs.len(),
{
    if vs.len() == 0 {
        Seq::empty()
    } else if !crate::multipart::is_visible_ascii(vs[0]) {
        Seq::empty()
    } else {
        match spec_cookie_parse(crate::multipart::ascii_chars(vs[0])) {
            Some(c) => seq![c] + cookies_of(vs.drop_first()),
            None => cookies_of(vs.drop_first()),
        }
    }
}

/// Whether a `Set-Cookie` value is a cookie of this name.
pub open spec fn cookie_named(v: Seq<u8>, name: Seq<char>) -> bool {
    crate::multipart::is_visible_ascii(v) && match spec_cookie_parse(
        crate::multipart::ascii_chars(v),
    ) {
        Some((n, _)) => n == name,
        None => false,
    }
}

/// The values that are not cookies of this name, in order.
pub open spec fn kept_values(vs: Seq<Seq<u8>>, name: Seq<char>) -> Seq<Seq<u8>>
    decreases vs.len(),
{
    if vs.len() == 0 {
        Seq::empty()
    } else if cookie_named(vs.last(), name) {
        kept_values(vs.drop_last(), name)
    } else {
        kept_values(vs.drop_last(), name).push(vs.last())
    }
}

/// The number of values that are cookies of this name.
pub open spec fn named_count(vs: Seq<Seq<u8>>, name: Seq<char>) -> nat
    decreases vs.len(),
{
    if vs.len() == 0 {
        0
    } else if cookie_named(vs.last(), name) {
        named_count(vs.drop_last(), name) + 1
    } else {
        named_count(vs.drop_last(), name)
    }
}

/// `Set-Cookie` headers of values.
pub open spec fn as_set_cookies(vs: Seq<Seq<u8>>) -> Seq<(Seq<u8>, Seq<u8>)> {
    vs.map_values(|v: Seq<u8>| (set_cookie_name(), v))
}

/// Whether a header value reads as a string, then the string.
fn header_str(v: &Vec<u8>) -> (r: Option<String>)
    ensures
        match r {
            Some(s) => crate::multipart::is_visible_ascii(v@) && s@ == crate::multipart::ascii_chars(
                v@,
            ),
            None => !crate::multipart::is_visible_ascii(v@),
        },
{
    let mut chars: Vec<char> = Vec::new();
    let mut i: usize = 0;
    while i < v.len()
        invariant
            i <= v@.len(),
            chars@ == crate::multipart::ascii_chars(v@.take(i as int)),
            forall|j: int| 0 <= j < i ==> ((32 <= #[trigger] v@[j] && v@[j] < 127) || v@[j] == 9),
        decreases v@.len() - i,
    {
        let c = v[i];
        if !((32 <= c && c < 127) || c == 9) {
            return None;
        }
        chars.push(c as char);
        i += 1;
        assert(chars@ =~= crate::multipart::ascii_chars(v@.take(i as int)));
    }
    assert(v@.take(i as int) =~= v@);
    Some(crate::router::string_from_chars(chars.as_slice()))
}

/// An HTTP response: its head, its body, and how it is to be written.
pub struct Response {
    head: ResponseHead,
    body: Body,
    chunked: Option<bool>,
    encoding: Option<ContentEncoding>,
    response_size: u64,
    write_capacity: usize,
}

/// A content encoding of a body.
#[derive(PartialEq, Eq, Structural, Debug, Clone, Copy)]
pub enum ContentEncoding {
    /// Chosen from the request's `Accept-Encoding`.
    Auto,
    /// Brotli.
    Br,
    /// Deflate.
    Deflate,
    /// Gzip.
    Gzip,
    /// No encoding.
    Identity,
}

/// What a response holds, by value.
pub struct ResponseView {
    /// The status code.
    pub status: u16,
    /// The protocol version.
    pub version: HttpVersion,
    /// The headers, in order.
    pub headers: Seq<(Seq<u8>, Seq<u8>)>,
    /// The reason phrase of its own, if any.
    pub reason: Option<Seq<char>>,
    /// The connection type asked for, if any.
    pub connection_type: Option<ConnectionType>,
    /// The body.
    pub body: Body,
    /// Whether chunked encoding is asked for, if set.
    pub chunked: Option<bool>,
    /// The content encoding asked for, if set.
    pub encoding: Option<ContentEncoding>,
    /// The size of the body written.
    pub response_size: u64,
    /// The write buffer capacity asked for.
    pub write_capacity: usize,
}

impl Response {
    /// The status code.
    pub closed spec fn status_spec(&self) -> u16 {
        self.head.status
    }

    /// The protocol version.
    pub closed spec fn version_spec(&self) -> HttpVersion {
        self.head.version
    }

    /// The headers, in the order they were set.
    pub closed spec fn headers_spec(&self) -> Seq<(Seq<u8>, Seq<u8>)> {
        headers_view(self.head.headers@)
    }

    /// The reason phrase set on the response, if any.
    pub closed spec fn reason_spec(&self) -> Option<Seq<char>> {
        match self.head.reason {
            Some(r) => Some(r@),
            None => None,
        }
    }

    /// The connection type set on the response, if any.
    pub closed spec fn connection_type_spec(&self) -> Option<ConnectionType> {
        self.head.connection_type
    }

    /// The body.
    pub closed spec fn body_spec(&self) -> Body {
        self.body
    }

    /// Whether chunked encoding is asked for, if set.
    pub closed spec fn chunked_spec(&self) -> Option<bool> {
        self.chunked
    }

    /// The size of the body written.
    pub closed spec fn response_size_spec(&self) -> u64 {
        self.response_size
    }

    /// The write buffer capacity asked for.
    pub closed spec fn write_capacity_spec(&self) -> usize {
        self.write_capacity
    }

    /// The content encoding asked for, if set.
    pub closed spec fn encoding_spec(&self) -> Option<ContentEncoding> {
        self.encoding
    }

    /// What the response holds.
    pub open spec fn view(&self) -> ResponseView {
        ResponseView {
            status: self.status_spec(),
            version: self.version_spec(),
            headers: self.headers_spec(),
            reason: self.reason_spec(),
            connection_type: self.connection_type_spec(),
            body: self.body_spec(),
            chunked: self.chunked_spec(),
            encoding: self.encoding_spec(),
            response_size: self.response_size_spec(),
            write_capacity: self.write_capacity_spec(),
        }
    }

    /// What a new response with this status and body holds.
    pub open spec fn new_view(status: u16, body: Body) -> ResponseView {
        ResponseView {
            status,
            version: HttpVersion::Http11,
            headers: Seq::empty(),
            reason: None,
            connection_type: None,
            body,
            chunked: None,
            encoding: None,
            response_size: 0,
            write_capacity: MAX_WRITE_BUFFER_SIZE,
        }
    }

    /// A valid response's status is a status code.
    pub closed spec fn wf(&self) -> bool {
        100 <= self.head.status < 600
    }

    /// Constructs a response with a body: HTTP/1.1, no headers, no reason
    /// or connection type of its own, nothing written, the default write
    /// buffer capacity.
    pub fn with_body(status: u16, body: Body) -> (r: Self)
        requires
            100 <= status < 600,
        ensures
            r.wf(),
            r.status_spec() == status,
            r.version_spec() == HttpVersion::Http11,
            r.headers_spec() == Seq::<(Seq<u8>, Seq<u8>)>::empty(),
            r.reason_spec() is None,
            r.connection_type_spec() is None,
            r.body_spec() == body,
            r.chunked_spec() is None,
            r.encoding_spec() is None,
            r.response_size_spec() == 0,
            r.write_capacity_spec() == MAX_WRITE_BUFFER_SIZE,
    {
        let mut head = ResponseHead::new();
        head.status = status;
        let r = Response {
            head,
            body,
            chunked: None,
            encoding: None,
            response_size: 0,
            write_capacity: MAX_WRITE_BUFFER_SIZE,
        };
        assert(r.headers_spec() =~= Seq::<(Seq<u8>, Seq<u8>)>::empty());
        r
    }

    /// Constructs a response with no body.
    pub fn new(status: u16) -> (r: Self)
        requires
            100 <= status < 600,
        ensures
            r.wf(),
            r.status_spec() == status,
            r.version_spec() == HttpVersion::Http11,
            r.headers_spec() == Seq::<(Seq<u8>, Seq<u8>)>::empty(),
            r.reason_spec() is None,
            r.connection_type_spec() is None,
            r.body_spec() == Body::Empty,
            r.chunked_spec() is None,
            r.encoding_spec() is None,
            r.response_size_spec() == 0,
            r.write_capacity_spec() == MAX_WRITE_BUFFER_SIZE,
    {
        Self::with_body(status, Body::Empty)
    }

    /// Get the response status code
    pub fn status(&self) -> (s: u16)
        ensures
            s == self.status_spec(),
    {
        self.head.status
    }

    /// Set the status code of this response.
    pub fn set_status(&mut self, status: u16)
        requires
            100 <= status < 600,
        ensures
            final(self).wf(),
            final(self)@ == (ResponseView { status, ..old(self)@ }),
    {
        self.head.status = status;
    }

    /// Get the headers from the response
    pub fn headers(&self) -> (h: &Vec<(Vec<u8>, Vec<u8>)>)
        ensures
            headers_view(h@) == self.headers_spec(),
    {
        &self.head.headers
    }

    /// Appends a header.
    pub fn append_header(&mut self, name: Vec<u8>, value: Vec<u8>)
        requires
            old(self).wf(),
        ensures
            final(self).wf(),
            final(self)@ == (ResponseView { headers: old(self)@.headers.push((name@, value@)), ..old(self)@ }),
    {
        let ghost before = self.head.headers@;
        self.head.headers.push((name, value));
        assert(headers_view(self.head.headers@) =~= headers_view(before).push((name@, value@)));
    }

    /// Get custom reason for the response: the one set on it, else the
    /// status's canonical reason, else `<unknown status code>`.
    pub fn reason(&self) -> (r: String)
        requires
            self.wf(),
        ensures
            r@ == match self.reason_spec() {
                Some(s) => s,
                None => match spec_canonical_reason(self.status_spec()) {
                    Some(c) => c,
                    None => "<unknown status code>"@,
                },
            },
    {
        match &self.head.reason {
            Some(r) => r.clone(),
            None => match canonical_reason(self.head.status) {
                Some(c) => c.to_owned(),
                None => "<unknown status code>".to_owned(),
            },
        }
    }

    /// Set the custom reason for the response
    pub fn set_reason(&mut self, reason: &str)
        ensures
            final(self).wf() == old(self).wf(),
            final(self)@ == (ResponseView { reason: Some(reason@), ..old(self)@ }),
    {
        self.head.reason = Some(reason.to_owned());
    }

    /// Set connection type
    pub fn set_connection_type(&mut self, conn: ConnectionType)
        ensures
            final(self).wf() == old(self).wf(),
            final(self)@ == (ResponseView { connection_type: Some(conn), ..old(self)@ }),
    {
        self.head.connection_type = Some(conn);
    }

    /// Connection upgrade status
    pub fn upgrade(&self) -> (b: bool)
        ensures
            b == (self.connection_type_spec() == Some(ConnectionType::Upgrade)),
    {
        self.head.upgrade()
    }

    /// Keep-alive status for this connection: none when no connection type
    /// is set, keep-alive only for `KeepAlive`.
    pub fn keep_alive(&self) -> (k: Option<bool>)
        ensures
            k == match self.connection_type_spec() {
                None => None,
                Some(c) => Some(c == ConnectionType::KeepAlive),
            },
    {
        keep_alive_of(self.head.connection_type)
    }

    /// is chunked encoding enabled
    pub fn chunked(&self) -> (c: Option<bool>)
        ensures
            c == self.chunked_spec(),
    {
        self.chunked
    }

    /// Get body os this response
    pub fn body(&self) -> (b: &Body)
        ensures
            *b == self.body_spec(),
    {
        &self.body
    }

    /// Set a body
    pub fn set_body(&mut self, body: Body)
        ensures
            final(self).wf() == old(self).wf(),
            final(self)@ == (ResponseView { body, ..old(self)@ }),
    {
        self.body = body;
    }

    /// Set a body and return previous body value
    pub fn replace_body(&mut self, body: Body) -> (prev: Body)
        ensures
            prev == old(self).body_spec(),
            final(self).wf() == old(self).wf(),
            final(self)@ == (ResponseView { body, ..old(self)@ }),
    {
        let mut b = body;
        std::mem::swap(&mut b, &mut self.body);
        b
    }

    /// Size of response in bytes, excluding HTTP headers
    pub fn response_size(&self) -> (n: u64)
        ensures
            n == self.response_size_spec(),
    {
        self.response_size
    }

    /// Set the size of the response body written.
    pub fn set_response_size(&mut self, size: u64)
        ensures
            final(self).wf() == old(self).wf(),
            final(self)@ == (ResponseView { response_size: size, ..old(self)@ }),
    {
        self.response_size = size;
    }

    /// Write buffer capacity
    pub fn write_buffer_capacity(&self) -> (n: usize)
        ensures
            n == self.write_capacity_spec(),
    {
        self.write_capacity
    }

    /// Content encoding
    pub fn content_encoding(&self) -> (e: Option<ContentEncoding>)
        ensures
            e == self.encoding_spec(),
    {
        self.encoding
    }

    /// Set content encoding
    pub fn set_content_encoding(&mut self, enc: ContentEncoding)
        ensures
            final(self).wf() == old(self).wf(),
            final(self)@ == (ResponseView { encoding: Some(enc), ..old(self)@ }),
    {
        self.encoding = Some(enc);
    }

    /// Set write buffer capacity
    pub fn set_write_buffer_capacity(&mut self, cap: usize)
        ensures
            final(self).wf() == old(self).wf(),
            final(self)@ == (ResponseView { write_capacity: cap, ..old(self)@ }),
    {
        self.write_capacity = cap;
    }

    fn split_cookies(&self) -> (r: (Vec<(Vec<u8>, Vec<u8>)>, Vec<Vec<u8>>))
        ensures
            headers_view(r.0@) == other_headers(self.headers_spec()),
            r.1@.map_values(|v: Vec<u8>| v@) == cookie_values(self.headers_spec()),
    {
        let ghost hs = self.headers_spec();
        let hdrs = &self.head.headers;
        let mut others: Vec<(Vec<u8>, Vec<u8>)> = Vec::new();
        let mut vals: Vec<Vec<u8>> = Vec::new();
        let sc = crate::server::literal_bytes("set-cookie");
        let mut i: usize = 0;
        while i < hdrs.len()
            invariant
                i <= hdrs@.len(),
                hs == headers_view(hdrs@),
                sc@ == set_cookie_name(),
                headers_view(others@) == other_headers(hs.take(i as int)),
                vals@.map_values(|v: Vec<u8>| v@) == cookie_values(hs.take(i as int)),
            decreases hdrs@.len() - i,
        {
            proof {
                assert(hs.take(i + 1).drop_last() =~= hs.take(i as int));
                assert(hs.take(i + 1).last() == hs[i as int]);
            }
            let ghost o0 = others@;
            let ghost v0 = vals@;
            if crate::server::bytes_eq(&hdrs[i].0, &sc) {
                vals.push(hdrs[i].1.clone());
                assert(vals@.map_values(|v: Vec<u8>| v@) =~= v0.map_values(|v: Vec<u8>| v@).push(
                    hs[i as int].1,
                ));
            } else {
                let k = hdrs[i].0.clone();
                let v = hdrs[i].1.clone();
                others.push((k, v));
                assert(headers_view(others@) =~= headers_view(o0).push(hs[i as int]));
            }
            i += 1;
        }
        assert(hs.take(i as int) =~= hs);
        (others, vals)
    }

    /// The cookies this response sets, as (name, value) pairs, in order.
    pub fn cookies(&self) -> (c: Vec<(String, String)>)
        ensures
            c@.map_values(|p: (String, String)| (p.0@, p.1@)) == cookies_of(
                cookie_values(self.headers_spec()),
            ),
    {
        let (_, vals) = self.split_cookies();
        let ghost vs = vals@.map_values(|v: Vec<u8>| v@);
        let mut out: Vec<(String, String)> = Vec::new();
        let mut i: usize = 0;
        proof {
            assert(vs.skip(0) =~= vs);
            assert(out@.map_values(|p: (String, String)| (p.0@, p.1@)) + cookies_of(vs.skip(0))
                =~= cookies_of(vs));
        }
        while i < vals.len()
            invariant
                i <= vals@.len(),
                vs == vals@.map_values(|v: Vec<u8>| v@),
                vs == cookie_values(self.headers_spec()),
                out@.map_values(|p: (String, String)| (p.0@, p.1@)) + cookies_of(vs.skip(i as int))
                    == cookies_of(vs),
            decreases vals@.len() - i,
        {
            let ghost o0 = out@.map_values(|p: (String, String)| (p.0@, p.1@));
            proof {
                assert(vs.skip(i as int)[0] == vs[i as int]);
                assert(vs.skip(i as int).drop_first() =~= vs.skip(i + 1));
            }
            match header_str(&vals[i]) {
                None => {
                    proof {
                        assert(cookies_of(vs.skip(i as int)) =~= Seq::<(Seq<char>, Seq<char>)>::empty());
                        assert(o0 + Seq::<(Seq<char>, Seq<char>)>::empty() =~= o0);
                    }
                    return out;
                },
                Some(s) => {
                    match parse_cookie(s.as_str()) {
                        Some(c) => {
                            out.push(c);
                            proof {
                                assert(out@.map_values(|p: (String, String)| (p.0@, p.1@)) =~= o0.push(
                                    (c.0@, c.1@),
                                ));
                                assert(o0.push((c.0@, c.1@)) + cookies_of(vs.skip(i + 1)) =~= o0 + (seq![
                                    (c.0@, c.1@),
                                ] + cookies_of(vs.skip(i + 1))));
                            }
                        },
                        None => {},
                    }
                },
            }
            i += 1;
        }
        proof {
            assert(vs.skip(i as int) =~= Seq::<Seq<u8>>::empty());
            assert(out@.map_values(|p: (String, String)| (p.0@, p.1@)) + Seq::<
                (Seq<char>, Seq<char>),
            >::empty() =~= out@.map_values(|p: (String, String)| (p.0@, p.1@)));
        }
        out
    }

    /// Add a cookie to this response: a `Set-Cookie` header `name=value`,
    /// refused when that is not a valid header value.
    pub fn add_cookie(&mut self, name: &str, value: &str) -> (r: Result<(), ()>)
        requires
            old(self).wf(),
        ensures
            final(self).wf(),
            final(self).status_spec() == old(self).status_spec(),
            final(self).reason_spec() == old(self).reason_spec(),
            final(self).connection_type_spec() == old(self).connection_type_spec(),
            final(self).body_spec() == old(self).body_spec(),
            ({
                let text = vstd::utf8::encode_utf8(name@ + "="@ + value@);
                &&& (r is Ok) == valid_header_value(text)
                &&& final(self).headers_spec() == if r is Ok {
                    old(self).headers_spec().push((set_cookie_name(), text))
                } else {
                    old(self).headers_spec()
                }
            }),
    {
        let s = cookie_pair_string(name, value);
        self.append_set_cookie(s.as_str())
    }

    /// Appends a `Set-Cookie` header with this text, refused when the text is
    /// not a valid header value; nothing else changes.
    pub fn append_set_cookie(&mut self, text: &str) -> (r: Result<(), ()>)
        requires
            old(self).wf(),
        ensures
            final(self).wf(),
            final(self)@ == (ResponseView {
                headers: if r is Ok {
                    old(self).headers_spec().push(
                        (set_cookie_name(), vstd::utf8::encode_utf8(text@)),
                    )
                } else {
                    old(self).headers_spec()
                },
                ..old(self)@
            }),
            (r is Ok) == valid_header_value(vstd::utf8::encode_utf8(text@)),
    {
        let bytes = text.as_bytes();
        let ghost t = vstd::utf8::encode_utf8(text@);
        assert(bytes@ == t);
        let mut i: usize = 0;
        while i < bytes.len()
            invariant
                i <= bytes@.len(),
                bytes@ == t,
                t == vstd::utf8::encode_utf8(text@),
                *self == *old(self),
                self.wf(),
                forall|j: int| 0 <= j < i ==> ((#[trigger] bytes@[j] >= 32 && bytes@[j] != 127) || bytes@[j] == 9),
            decreases bytes@.len() - i,
        {
            let b = bytes[i];
            if !((b >= 32 && b != 127) || b == 9) {
                assert(!valid_header_value(bytes@));
                return Err(());
            }
            i += 1;
        }
        let mut v: Vec<u8> = Vec::new();
        let mut j: usize = 0;
        while j < bytes.len()
            invariant
                j <= bytes@.len(),
                v@ == bytes@.take(j as int),
            decreases bytes@.len() - j,
        {
            v.push(bytes[j]);
            j += 1;
            assert(v@ =~= bytes@.take(j as int));
        }
        assert(bytes@.take(j as int) =~= bytes@);
        let name_bytes = crate::server::literal_bytes("set-cookie");
        self.append_header(name_bytes, v);
        Ok(())
    }

    /// Remove all cookies with the given name from this response. Returns
    /// the number of cookies removed. The other `Set-Cookie` headers are set
    /// again, after the other headers.
    pub fn del_cookie(&mut self, name: &str) -> (count: usize)
        requires
            old(self).wf(),
        ensures
            final(self).wf(),
            final(self).headers_spec() == other_headers(old(self).headers_spec()) + as_set_cookies(
                kept_values(cookie_values(old(self).headers_spec()), name@),
            ),
            count == named_count(cookie_values(old(self).headers_spec()), name@),
            final(self).status_spec() == old(self).status_spec(),
            final(self).reason_spec() == old(self).reason_spec(),
            final(self).connection_type_spec() == old(self).connection_type_spec(),
            final(self).body_spec() == old(self).body_spec(),
    {
        let (mut others, vals) = self.split_cookies();
        let ghost vs = vals@.map_values(|v: Vec<u8>| v@);
        let ghost o0 = headers_view(others@);
        let name_chars = crate::router::str_chars(name);
        let mut count: usize = 0;
        let mut i: usize = 0;
        proof {
            assert(vs.take(0) =~= Seq::<Seq<u8>>::empty());
            assert(o0 + as_set_cookies(Seq::<Seq<u8>>::empty()) =~= o0);
        }
        while i < vals.len()
            invariant
                i <= vals@.len(),
                vs == vals@.map_values(|v: Vec<u8>| v@),
                name_chars@ == name@,
                headers_view(others@) == o0 + as_set_cookies(kept_values(vs.take(i as int), name@)),
                count == named_count(vs.take(i as int), name@),
                count <= i,
            decreases vals@.len() - i,
        {
            proof {
                assert(vs.take(i + 1).drop_last() =~= vs.take(i as int));
                assert(vs.take(i + 1).last() == vs[i as int]);
            }
            let mut named = false;
            match header_str(&vals[i]) {
                None => {},
                Some(s) => {
                    match parse_cookie(s.as_str()) {
                        Some(c) => {
                            let cn = crate::router::str_chars(c.0.as_str());
                            named = chars_eq(&cn, &name_chars);
                        },
                        None => {},
                    }
                },
            }
            assert(named == cookie_named(vs[i as int], name@));
            if named {
                count += 1;
            } else {
                let ghost h0 = headers_view(others@);
                let sc = crate::server::literal_bytes("set-cookie");
                others.push((sc, vals[i].clone()));
                proof {
                    assert(headers_view(others@) =~= h0.push((set_cookie_name(), vs[i as int])));
                    assert(as_set_cookies(kept_values(vs.take(i as int), name@).push(vs[i as int]))
                        =~= as_set_cookies(kept_values(vs.take(i as int), name@)).push(
                        (set_cookie_name(), vs[i as int]),
                    ));
                }
            }
            i += 1;
        }
        assert(vs.take(i as int) =~= vs);
        self.head.headers = others;
        count
    }
}

fn chars_eq(a: &Vec<char>, b: &Vec<char>) -> (r: bool)
    ensures
        r == (a@ == b@),
{
    if a.len() != b.len() {
        assert(a@.len() != b@.len());
        return false;
    }
    let mut i: usize = 0;
    while i < a.len()
        invariant
            i <= a@.len(),
            a@.len() == b@.len(),
            forall|j: int| 0 <= j < i ==> a@[j] == b@[j],
        decreases a@.len() - i,
    {
        if a[i] != b[i] {
            assert(a@[i as int] != b@[i as int]);
            return false;
        }
        i += 1;
    }
    assert(a@ =~= b@);
    true
}

proof fn lemma_other_headers_no_cookie(hs: Seq<(Seq<u8>, Seq<u8>)>)
    ensures
        cookie_values(other_headers(hs)) == Seq::<Seq<u8>>::empty(),
    decreases hs.len(),
{
    if hs.len() > 0 {
        lemma_other_headers_no_cookie(hs.drop_last());
        if hs.last().0 != set_cookie_name() {
            let o = other_headers(hs.drop_last()).push(hs.last());
            assert(o.drop_last() =~= other_headers(hs.drop_last()));
        }
    } else {
        assert(other_headers(hs) =~= Seq::<(Seq<u8>, Seq<u8>)>::empty());
    }
}

proof fn lemma_cookie_values_append(a: Seq<(Seq<u8>, Seq<u8>)>, vs: Seq<Seq<u8>>)
    ensures
        cookie_values(a + as_set_cookies(vs)) == cookie_values(a) + vs,
    decreases vs.len(),
{
    if vs.len() == 0 {
        assert(a + as_set_cookies(vs) =~= a);
        assert(cookie_values(a) + vs =~= cookie_values(a));
    } else {
        lemma_cookie_values_append(a, vs.drop_last());
        let h = a + as_set_cookies(vs);
        assert(h.drop_last() =~= a + as_set_cookies(vs.drop_last()));
        assert(h.last() == (set_cookie_name(), vs.last()));
        assert(cookie_values(a) + vs =~= (cookie_values(a) + vs.drop_last()).push(vs.last()));
    }
}

proof fn lemma_kept_not_named(vs: Seq<Seq<u8>>, name: Seq<char>)
    ensures
        forall|i: int| 0 <= i < kept_values(vs, name).len() ==> !cookie_named(#[trigger] kept_values(vs, name)[i], name),
    decreases vs.len(),
{
    if vs.len() > 0 {
        lemma_kept_not_named(vs.drop_last(), name);
        let k0 = kept_values(vs.drop_last(), name);
        if !cookie_named(vs.last(), name) {
            assert forall|i: int| 0 <= i < k0.push(vs.last()).len() implies !cookie_named(
                #[trigger] k0.push(vs.last())[i],
                name,
            ) by {
                if i < k0.len() {
                    assert(k0.push(vs.last())[i] == k0[i]);
                }
            }
        }
    }
}

proof fn lemma_cookies_of_unnamed(vs: Seq<Seq<u8>>, name: Seq<char>)
    requires
        forall|i: int| 0 <= i < vs.len() ==> !cookie_named(#[trigger] vs[i], name),
    ensures
        forall|i: int| 0 <= i < cookies_of(vs).len() ==> (#[trigger] cookies_of(vs)[i]).0 != name,
    decreases vs.len(),
{
    if vs.len() > 0 {
        let rest = vs.drop_first();
        assert forall|i: int| 0 <= i < rest.len() implies !cookie_named(#[trigger] rest[i], name) by {
            assert(rest[i] == vs[i + 1]);
        }
        lemma_cookies_of_unnamed(rest, name);
        assert(!cookie_named(vs[0], name));
        if crate::multipart::is_visible_ascii(vs[0]) {
            match spec_cookie_parse(crate::multipart::ascii_chars(vs[0])) {
                Some(c) => {
                    let r = cookies_of(rest);
                    assert forall|i: int| 0 <= i < (seq![c] + r).len() implies (#[trigger] (seq![c]
                        + r)[i]).0 != name by {
                        if i > 0 {
                            assert((seq![c] + r)[i] == r[i - 1]);
                        }
                    }
                },
                None => {},
            }
        }
    }
}

/// Law: once the cookies of a name are deleted, the response sets no
/// cookie of that name.
pub proof fn law_deleted_cookie_gone(hs: Seq<(Seq<u8>, Seq<u8>)>, name: Seq<char>)
    ensures
        ({
            let after = other_headers(hs) + as_set_cookies(kept_values(cookie_values(hs), name));
            forall|i: int|
                0 <= i < cookies_of(cookie_values(after)).len() ==> (#[trigger] cookies_of(
                    cookie_values(after),
                )[i]).0 != name
        }),
{
    let kept = kept_values(cookie_values(hs), name);
    lemma_cookie_values_append(other_headers(hs), kept);
    lemma_other_headers_no_cookie(hs);
    assert(Seq::<Seq<u8>>::empty() + kept =~= kept);
    lemma_kept_not_named(cookie_values(hs), name);
    lemma_cookies_of_unnamed(kept, name);
}

/// Whether a byte may stand in a header name (a token character).
pub open spec fn is_token_byte(b: u8) -> bool {
    (48 <= b <= 57) || (65 <= b <= 90) || (97 <= b <= 122) || b == 33 || b == 35 || b == 36
        || b == 37 || b == 38 || b == 39 || b == 42 || b == 43 || b == 45 || b == 46 || b == 94
        || b == 95 || b == 96 || b == 124 || b == 126
}

/// The header name of a key: its lower-case form, when it is a non-empty
/// run of token characters shorter than 64 KiB.
pub open spec fn header_name_of(key: Seq<u8>) -> Option<Seq<u8>> {
    if 0 < key.len() < 65536 && forall|i: int| 0 <= i < key.len() ==> is_token_byte(#[trigger] key[i]) {
        Some(crate::pool::lower_bytes(key))
    } else {
        None
    }
}

/// The header name of a key, if it is one.
pub fn header_name(key: &[u8]) -> (r: Option<Vec<u8>>)
    ensures
        match r {
            Some(n) => header_name_of(key@) == Some(n@),
            None => header_name_of(key@) is None,
        },
{
    if key.len() == 0 || key.len() >= 65536 {
        return None;
    }
    let mut i: usize = 0;
    while i < key.len()
        invariant
            i <= key@.len(),
            forall|j: int| 0 <= j < i ==> is_token_byte(#[trigger] key@[j]),
        decreases key@.len() - i,
    {
        let b = key[i];
        let ok = (48 <= b && b <= 57) || (65 <= b && b <= 90) || (97 <= b && b <= 122) || b == 33
            || b == 35 || b == 36 || b == 37 || b == 38 || b == 39 || b == 42 || b == 43 || b == 45
            || b == 46 || b == 94 || b == 95 || b == 96 || b == 124 || b == 126;
        if !ok {
            assert(!is_token_byte(key@[i as int]));
            return None;
        }
        i += 1;
    }
    let k = crate::pool::Key::from(key);
    Some(k.as_bytes().clone())
}

/// The bytes of a header value, when it is a valid one.
pub fn header_value(value: &str) -> (r: Option<Vec<u8>>)
    ensures
        match r {
            Some(v) => v@ == value.spec_bytes() && valid_header_value(v@),
            None => !valid_header_value(value.spec_bytes()),
        },
{
    let bytes = value.as_bytes();
    let mut v: Vec<u8> = Vec::new();
    let mut i: usize = 0;
    while i < bytes.len()
        invariant
            i <= bytes@.len(),
            bytes@ == value.spec_bytes(),
            v@ == bytes@.take(i as int),
            forall|j: int| 0 <= j < i ==> ((#[trigger] bytes@[j] >= 32 && bytes@[j] != 127) || bytes@[j] == 9),
        decreases bytes@.len() - i,
    {
        let b = bytes[i];
        if !((b >= 32 && b != 127) || b == 9) {
            return None;
        }
        v.push(b);
        i += 1;
        assert(v@ =~= bytes@.take(i as int));
    }
    assert(bytes@.take(i as int) =~= bytes@);
    Some(v)
}

/// The decimal digits of a number.
pub open spec fn decimal(n: nat) -> Seq<u8>
    decreases n,
{
    if n < 10 {
        seq![(48 + n) as u8]
    } else {
        decimal(n / 10).push((48 + n % 10) as u8)
    }
}

/// The decimal digits of a number.
pub fn decimal_bytes(n: u64) -> (v: Vec<u8>)
    ensures
        v@ == decimal(n as nat),
    decreases n,
{
    if n < 10 {
        let mut v: Vec<u8> = Vec::new();
        v.push(48 + n as u8);
        v
    } else {
        let mut v = decimal_bytes(n / 10);
        v.push(48 + (n % 10) as u8);
        v
    }
}

impl Response {
    /// Create http response builder with specific status.
    pub fn build(status: u16) -> (b: ResponseBuilder)
        requires
            100 <= status < 600,
        ensures
            !b.failed(),
            b.built() matches Some(r) && r.wf() && r.status_spec() == status
                && r.version_spec() == HttpVersion::Http11 && r.headers_spec() == Seq::<
                (Seq<u8>, Seq<u8>),
            >::empty() && r.reason_spec() is None && r.connection_type_spec() is None
                && r.body_spec() == Body::Empty && r.chunked_spec() is None
                && r.encoding_spec() is None
                && r.response_size_spec() == 0 && r.write_capacity_spec() == MAX_WRITE_BUFFER_SIZE,
            b.jar() is None,
    {
        ResponseBuilder { response: Some(Response::new(status)), err: false, cookies: None }
    }

    /// Convert `Response` to a `ResponseBuilder` that carries on with it.
    pub fn into_builder(self) -> (b: ResponseBuilder)
        ensures
            !b.failed(),
            b.built() == Some(self),
            ({
                let cs = cookies_of(cookie_values(self.headers_spec()));
                if cs.len() == 0 {
                    b.jar() is None
                } else {
                    &&& b.jar() is Some
                    &&& jar_delta(b.jar()->0) == no_changes()
                    &&& jar_originals(b.jar()->0) == cookie_names(cs)
                }
            }),
    {
        let cs = self.cookies();
        let ghost csv = cs@.map_values(|p: (String, String)| (p.0@, p.1@));
        let mut jar: Option<cookie::CookieJar> = None;
        let mut i: usize = 0;
        while i < cs.len()
            invariant
                i <= cs@.len(),
                csv == cs@.map_values(|p: (String, String)| (p.0@, p.1@)),
                i == 0 ==> jar is None,
                i > 0 ==> {
                    &&& jar is Some
                    &&& jar_delta(jar->0) == no_changes()
                    &&& jar_originals(jar->0) == cookie_names(csv.take(i as int))
                },
            decreases cs@.len() - i,
        {
            let cur = jar;
            let mut j = match cur {
                Some(j) => j,
                None => jar_new(),
            };
            let ghost before = jar_originals(j);
            jar_add_original(&mut j, cs[i].0.as_str(), cs[i].1.as_str());
            proof {
                let t0 = csv.take(i as int);
                let t1 = csv.take(i + 1);
                assert(csv[i as int].0 == cs@[i as int].0@);
                if i == 0 {
                    assert(before =~= Set::<Seq<char>>::empty());
                    assert(t0 =~= Seq::<(Seq<char>, Seq<char>)>::empty());
                }
                assert forall|n: Seq<char>| #[trigger] cookie_names(t1).contains(n)
                    == cookie_names(t0).insert(csv[i as int].0).contains(n) by {
                    if cookie_names(t1).contains(n) {
                        let k = choose|k: int| 0 <= k < t1.len() && t1[k].0 == n;
                        if k < i {
                            assert(t0[k] == t1[k]);
                        }
                    }
                    if cookie_names(t0).contains(n) {
                        let k = choose|k: int| 0 <= k < t0.len() && t0[k].0 == n;
                        assert(t1[k] == t0[k]);
                    }
                    if n == csv[i as int].0 {
                        assert(t1[i as int] == csv[i as int]);
                    }
                }
                assert(cookie_names(t1) =~= cookie_names(t0).insert(csv[i as int].0));
            }
            jar = Some(j);
            i += 1;
        }
        proof {
            assert(csv.take(cs@.len() as int) =~= csv);
        }
        ResponseBuilder { response: Some(self), err: false, cookies: jar }
    }

    /// A `200` response whose body is text, typed `text/plain; charset=utf-8`.
    pub fn from_text(text: &str) -> (r: Self)
        ensures
            r.wf(),
            r.status_spec() == 200,
            r.headers_spec() == seq![
                (
                    crate::server::ascii_bytes("content-type"@),
                    crate::server::ascii_bytes("text/plain; charset=utf-8"@),
                ),
            ],
            r.body_spec() matches Body::Binary(b) && b@ == text.spec_bytes(),
            r.connection_type_spec() is None,
            r.reason_spec() is None,
    {
        let mut r = Response::new(200);
        let name = crate::server::literal_bytes("content-type");
        let value = crate::server::literal_bytes("text/plain; charset=utf-8");
        r.append_header(name, value);
        r.body = Body::Binary(str_bytes(text));
        r
    }

    /// A `200` response whose body is bytes, typed `application/octet-stream`.
    pub fn from_bytes(bytes: &[u8]) -> (r: Self)
        ensures
            r.wf(),
            r.status_spec() == 200,
            r.headers_spec() == seq![
                (
                    crate::server::ascii_bytes("content-type"@),
                    crate::server::ascii_bytes("application/octet-stream"@),
                ),
            ],
            r.body_spec() matches Body::Binary(b) && b@ == bytes@,
            r.connection_type_spec() is None,
            r.reason_spec() is None,
    {
        let mut r = Response::new(200);
        let name = crate::server::literal_bytes("content-type");
        let value = crate::server::literal_bytes("application/octet-stream");
        r.append_header(name, value);
        let mut v: Vec<u8> = Vec::new();
        let mut i: usize = 0;
        while i < bytes.len()
            invariant
                i <= bytes@.len(),
                v@ == bytes@.take(i as int),
            decreases bytes@.len() - i,
        {
            v.push(bytes[i]);
            i += 1;
            assert(v@ =~= bytes@.take(i as int));
        }
        assert(bytes@.take(i as int) =~= bytes@);
        r.body = Body::Binary(v);
        r
    }
}

/// The bytes of a string.
fn str_bytes(s: &str) -> (v: Vec<u8>)
    ensures
        v@ == s.spec_bytes(),
{
    let bytes = s.as_bytes();
    let mut v: Vec<u8> = Vec::new();
    let mut i: usize = 0;
    while i < bytes.len()
        invariant
            i <= bytes@.len(),
            v@ == bytes@.take(i as int),
        decreases bytes@.len() - i,
    {
        v.push(bytes[i]);
        i += 1;
        assert(v@ =~= bytes@.take(i as int));
    }
    assert(bytes@.take(i as int) =~= bytes@);
    v
}

/// Status of the response a builder gives once one of its steps failed.
pub const BUILD_ERROR_STATUS: u16 = 500;

/// A response builder: the response being built, and whether a step
/// failed (an invalid header).
/// The changes of an optional jar: none without a jar.
pub open spec fn changes_of(jar: Option<cookie::CookieJar>) -> Map<Seq<char>, (Seq<char>, bool)> {
    match jar {
        Some(j) => jar_delta(j),
        None => no_changes(),
    }
}

/// The original cookie names of an optional jar: none without a jar.
pub open spec fn originals_of(jar: Option<cookie::CookieJar>) -> Set<Seq<char>> {
    match jar {
        Some(j) => jar_originals(j),
        None => Set::empty(),
    }
}

/// The names of a list of cookies.
pub open spec fn cookie_names(cs: Seq<(Seq<char>, Seq<char>)>) -> Set<Seq<char>> {
    Set::new(|n: Seq<char>| exists|i: int| 0 <= i < cs.len() && cs[i].0 == n)
}

/// `Set-Cookie` headers with these texts, in order.
pub open spec fn set_cookie_headers(texts: Seq<Seq<char>>) -> Seq<(Seq<u8>, Seq<u8>)> {
    texts.map_values(|t: Seq<char>| (set_cookie_name(), vstd::utf8::encode_utf8(t)))
}

/// Whether every text is a valid header value.
pub open spec fn all_valid_texts(texts: Seq<Seq<char>>) -> bool {
    forall|i: int| 0 <= i < texts.len() ==> valid_header_value(
        #[trigger] vstd::utf8::encode_utf8(texts[i]),
    )
}

/// The response a builder gives for a body, with the cookie changes written
/// as `Set-Cookie` headers after its headers; an internal server error when
/// a change is not a valid header value.
pub open spec fn with_cookie_texts(v: ResponseView, texts: Seq<Seq<char>>, body: Body) -> ResponseView {
    if all_valid_texts(texts) {
        ResponseView { headers: v.headers + set_cookie_headers(texts), body, ..v }
    } else {
        Response::new_view(BUILD_ERROR_STATUS, Body::Empty)
    }
}

/// The bytes of a text as a header value, or `None` when it is not a valid
/// header value.
pub fn header_value_bytes(text: &str) -> (r: Option<Vec<u8>>)
    ensures
        match r {
            Some(v) => valid_header_value(vstd::utf8::encode_utf8(text@)) && v@
                == vstd::utf8::encode_utf8(text@),
            None => !valid_header_value(vstd::utf8::encode_utf8(text@)),
        },
{
    let bytes = text.as_bytes();
    let ghost t = vstd::utf8::encode_utf8(text@);
    let mut v: Vec<u8> = Vec::new();
    let mut i: usize = 0;
    while i < bytes.len()
        invariant
            i <= bytes@.len(),
            bytes@ == t,
            t == vstd::utf8::encode_utf8(text@),
            v@ == bytes@.take(i as int),
            forall|j: int| 0 <= j < i ==> ((#[trigger] bytes@[j] >= 32 && bytes@[j] != 127) || bytes@[j] == 9),
        decreases bytes@.len() - i,
    {
        let b = bytes[i];
        if !((b >= 32 && b != 127) || b == 9) {
            assert(!valid_header_value(bytes@));
            return None;
        }
        v.push(b);
        i += 1;
        assert(v@ =~= bytes@.take(i as int));
    }
    assert(bytes@.take(i as int) =~= bytes@);
    Some(v)
}

/// Appends a `Set-Cookie` header for each text, in order; stops at the
/// first text that is not a valid header value and returns false.
fn append_cookie_texts(r: &mut Response, texts: &Vec<String>) -> (ok: bool)
    requires
        old(r).wf(),
    ensures
        final(r).wf(),
        ok == all_valid_texts(texts@.map_values(|t: String| t@)),
        ok ==> final(r)@ == (ResponseView {
            headers: old(r)@.headers + set_cookie_headers(texts@.map_values(|t: String| t@)),
            ..old(r)@
        }),
{
    let ghost tv = texts@.map_values(|t: String| t@);
    let ghost v0 = r@;
    let mut i: usize = 0;
    proof {
        assert(set_cookie_headers(tv.take(0)) =~= Seq::<(Seq<u8>, Seq<u8>)>::empty());
        assert(v0.headers + Seq::<(Seq<u8>, Seq<u8>)>::empty() =~= v0.headers);
    }
    while i < texts.len()
        invariant
            i <= texts@.len(),
            tv == texts@.map_values(|t: String| t@),
            v0 == old(r)@,
            r.wf(),
            r@ == (ResponseView { headers: v0.headers + set_cookie_headers(tv.take(i as int)), ..v0 }),
            forall|k: int| 0 <= k < i ==> valid_header_value(
                #[trigger] vstd::utf8::encode_utf8(tv[k]),
            ),
        decreases texts@.len() - i,
    {
        let ghost h0 = r@.headers;
        proof {
            assert(tv[i as int] == texts@[i as int]@);
        }
        match r.append_set_cookie(texts[i].as_str()) {
            Ok(()) => {},
            Err(()) => {
                assert(!all_valid_texts(tv));
                return false;
            },
        }
        proof {
            assert(set_cookie_headers(tv.take(i + 1)) =~= set_cookie_headers(tv.take(i as int)).push(
                (set_cookie_name(), vstd::utf8::encode_utf8(tv[i as int])),
            ));
            assert(v0.headers + set_cookie_headers(tv.take(i + 1)) =~= h0.push(
                (set_cookie_name(), vstd::utf8::encode_utf8(tv[i as int])),
            ));
        }
        i += 1;
    }
    proof {
        assert(tv.take(texts@.len() as int) =~= tv);
    }
    true
}

pub struct ResponseBuilder {
    response: Option<Response>,
    err: bool,
    cookies: Option<cookie::CookieJar>,
}

impl ResponseBuilder {
    /// The response being built, if the builder still holds one.
    pub closed spec fn built(&self) -> Option<Response> {
        self.response
    }

    /// Whether a step failed.
    pub closed spec fn failed(&self) -> bool {
        self.err
    }

    /// The cookie changes to set on the response, if any were asked for.
    pub closed spec fn jar(&self) -> Option<cookie::CookieJar> {
        self.cookies
    }

    /// Whether the steps change the response: no step failed and the
    /// builder still holds it.
    pub open spec fn active(&self) -> bool {
        !self.failed() && self.built() is Some
    }

    /// How a step of the builder changes it: a failed or emptied builder
    /// stays as it is; otherwise the response becomes `next` of it.
    pub open spec fn stepped(&self, next: ResponseView, after: &Self) -> bool {
        &&& after.failed() == self.failed()
        &&& after.jar() == self.jar()
        &&& if self.active() {
            after.built() matches Some(r) && r.wf() && r@ == next
        } else {
            after.built() == self.built()
        }
    }

    /// Set HTTP status code of this response.
    pub fn status(&mut self, status: u16) -> (b: &mut Self)
        requires
            100 <= status < 600,
            old(self).built() matches Some(r) ==> r.wf(),
        ensures
            old(self).stepped(ResponseView { status, ..old(self).built()->0@ }, b),
            *final(self) == *final(b),
    {
        if !self.err {
            if let Some(r) = &mut self.response {
                r.set_status(status);
            }
        }
        self
    }

    /// Append a header: the builder fails when the key is not a header name
    /// or the value not a header value. The name is kept lower-case.
    pub fn header(&mut self, key: &str, value: &str) -> (b: &mut Self)
        requires
            old(self).built() matches Some(r) ==> r.wf(),
        ensures
            old(self).active() ==> match (header_name_of(key.spec_bytes()), valid_header_value(
                value.spec_bytes(),
            )) {
                (Some(n), true) => old(self).stepped(
                    ResponseView {
                        headers: old(self).built()->0@.headers.push((n, value.spec_bytes())),
                        ..old(self).built()->0@
                    },
                    b,
                ),
                _ => b.failed() && b.built() == old(self).built(),
            },
            !old(self).active() ==> *b == *old(self),
            *final(self) == *final(b),
    {
        if self.err {
            return self;
        }
        if self.response.is_none() {
            return self;
        }
        match header_name(key.as_bytes()) {
            None => {
                self.err = true;
            },
            Some(n) => match header_value(value) {
                None => {
                    self.err = true;
                },
                Some(v) => {
                    if let Some(r) = &mut self.response {
                        r.append_header(n, v);
                    }
                },
            },
        }
        self
    }

    /// Set a custom reason phrase.
    pub fn reason(&mut self, reason: &str) -> (b: &mut Self)
        requires
            old(self).built() matches Some(r) ==> r.wf(),
        ensures
            old(self).stepped(ResponseView { reason: Some(reason@), ..old(self).built()->0@ }, b),
            *final(self) == *final(b),
    {
        if !self.err {
            if let Some(r) = &mut self.response {
                r.set_reason(reason);
            }
        }
        self
    }

    /// Set connection type
    pub fn connection_type(&mut self, conn: ConnectionType) -> (b: &mut Self)
        requires
            old(self).built() matches Some(r) ==> r.wf(),
        ensures
            old(self).stepped(
                ResponseView { connection_type: Some(conn), ..old(self).built()->0@ },
                b,
            ),
            *final(self) == *final(b),
    {
        if !self.err {
            if let Some(r) = &mut self.response {
                r.set_connection_type(conn);
            }
        }
        self
    }

    /// Set connection type to Upgrade
    pub fn upgrade(&mut self) -> (b: &mut Self)
        requires
            old(self).built() matches Some(r) ==> r.wf(),
        ensures
            old(self).stepped(
                ResponseView { connection_type: Some(ConnectionType::Upgrade), ..old(self).built()->0@ },
                b,
            ),
            *final(self) == *final(b),
    {
        self.connection_type(ConnectionType::Upgrade)
    }

    /// Force close connection, even if it is marked as keep-alive
    pub fn force_close(&mut self) -> (b: &mut Self)
        requires
            old(self).built() matches Some(r) ==> r.wf(),
        ensures
            old(self).stepped(
                ResponseView { connection_type: Some(ConnectionType::Close), ..old(self).built()->0@ },
                b,
            ),
            *final(self) == *final(b),
    {
        self.connection_type(ConnectionType::Close)
    }

    /// Enables automatic chunked transfer encoding
    pub fn chunked(&mut self) -> (b: &mut Self)
        requires
            old(self).built() matches Some(r) ==> r.wf(),
        ensures
            old(self).stepped(ResponseView { chunked: Some(true), ..old(self).built()->0@ }, b),
            *final(self) == *final(b),
    {
        if !self.err {
            if let Some(r) = &mut self.response {
                r.chunked = Some(true);
            }
        }
        self
    }

    /// Force disable chunked encoding
    pub fn no_chunking(&mut self) -> (b: &mut Self)
        requires
            old(self).built() matches Some(r) ==> r.wf(),
        ensures
            old(self).stepped(ResponseView { chunked: Some(false), ..old(self).built()->0@ }, b),
            *final(self) == *final(b),
    {
        if !self.err {
            if let Some(r) = &mut self.response {
                r.chunked = Some(false);
            }
        }
        self
    }

    /// Set content encoding: the body is encoded so (by default the
    /// encoding is chosen from the request's `Accept-Encoding`).
    pub fn content_encoding(&mut self, enc: ContentEncoding) -> (b: &mut Self)
        requires
            old(self).built() matches Some(r) ==> r.wf(),
        ensures
            old(self).stepped(ResponseView { encoding: Some(enc), ..old(self).built()->0@ }, b),
            *final(self) == *final(b),
    {
        if !self.err {
            if let Some(r) = &mut self.response {
                r.encoding = Some(enc);
            }
        }
        self
    }

    /// Set a cookie `name=value` on the response: the change for that name
    /// becomes setting this value.
    pub fn cookie(&mut self, name: &str, value: &str) -> (b: &mut Self)
        ensures
            b.built() == old(self).built(),
            b.failed() == old(self).failed(),
            b.jar() is Some,
            jar_delta(b.jar()->0) == changes_of(old(self).jar()).insert(name@, (value@, false)),
            jar_originals(b.jar()->0) == originals_of(old(self).jar()),
            *final(self) == *final(b),
    {
        let cur = self.cookies.take();
        let mut j = match cur {
            Some(j) => j,
            None => jar_new(),
        };
        jar_add(&mut j, name, value);
        self.cookies = Some(j);
        self
    }

    /// Remove a cookie the request came with: it is taken as an original
    /// cookie, and the change for its name becomes its removal.
    pub fn del_cookie(&mut self, name: &str, value: &str) -> (b: &mut Self)
        ensures
            b.built() == old(self).built(),
            b.failed() == old(self).failed(),
            b.jar() is Some,
            jar_delta(b.jar()->0) == changes_of(old(self).jar()).insert(name@, (""@, true)),
            jar_originals(b.jar()->0) == originals_of(old(self).jar()).insert(name@),
            *final(self) == *final(b),
    {
        let cur = self.cookies.take();
        let mut j = match cur {
            Some(j) => j,
            None => jar_new(),
        };
        jar_add_original(&mut j, name, value);
        jar_remove(&mut j, name, value);
        self.cookies = Some(j);
        self
    }

    /// Calls `f` with the builder when `value` is true.
    pub fn if_true<F>(&mut self, value: bool, f: F) -> (b: &mut Self) where
        F: FnOnce(&mut ResponseBuilder),

        requires
            value ==> forall|s: &mut ResponseBuilder| call_requires(f, (s,)),
        ensures
            !value ==> *b == *old(self),
            value ==> exists|s: &mut ResponseBuilder|
                #[trigger] call_ensures(f, (s,), ()) && *s == *old(self) && *final(s) == *b,
            *final(self) == *final(b),
    {
        if value {
            f(self);
        }
        self
    }

    /// Calls `f` with the value and the builder when there is a value.
    pub fn if_some<T, F>(&mut self, value: Option<T>, f: F) -> (b: &mut Self) where
        F: FnOnce(T, &mut ResponseBuilder),

        requires
            value matches Some(v) ==> forall|s: &mut ResponseBuilder| call_requires(f, (v, s)),
        ensures
            value is None ==> *b == *old(self),
            value matches Some(v) ==> exists|s: &mut ResponseBuilder|
                #[trigger] call_ensures(f, (v, s), ()) && *s == *old(self) && *final(s) == *b,
            *final(self) == *final(b),
    {
        if let Some(val) = value {
            f(val, self);
        }
        self
    }

    /// Set write buffer capacity
    pub fn write_buffer_capacity(&mut self, cap: usize) -> (b: &mut Self)
        requires
            old(self).built() matches Some(r) ==> r.wf(),
        ensures
            old(self).stepped(ResponseView { write_capacity: cap, ..old(self).built()->0@ }, b),
            *final(self) == *final(b),
    {
        if !self.err {
            if let Some(r) = &mut self.response {
                r.write_capacity = cap;
            }
        }
        self
    }

    /// Set response content type: it replaces any content type set; the
    /// builder fails when the value is not a header value.
    pub fn content_type(&mut self, value: &str) -> (b: &mut Self)
        requires
            old(self).built() matches Some(r) ==> r.wf(),
        ensures
            old(self).active() ==> if valid_header_value(value.spec_bytes()) {
                old(self).stepped(
                    ResponseView {
                        headers: header_insert(
                            old(self).built()->0@.headers,
                            crate::server::ascii_bytes("content-type"@),
                            value.spec_bytes(),
                        ),
                        ..old(self).built()->0@
                    },
                    b,
                )
            } else {
                b.failed() && b.built() == old(self).built()
            },
            !old(self).active() ==> *b == *old(self),
            *final(self) == *final(b),
    {
        if self.err {
            return self;
        }
        if self.response.is_none() {
            return self;
        }
        match header_value(value) {
            None => {
                self.err = true;
            },
            Some(v) => {
                if let Some(r) = &mut self.response {
                    let name = crate::server::literal_bytes("content-type");
                    let ghost h0 = r.head.headers@;
                    insert_header(&mut r.head.headers, &name, &v);
                }
            },
        }
        self
    }

    /// Set content length: a `content-length` header with its decimal
    /// digits.
    pub fn content_length(&mut self, len: u64) -> (b: &mut Self)
        requires
            old(self).built() matches Some(r) ==> r.wf(),
        ensures
            old(self).stepped(
                ResponseView {
                    headers: old(self).built()->0@.headers.push(
                        (crate::server::ascii_bytes("content-length"@), decimal(len as nat)),
                    ),
                    ..old(self).built()->0@
                },
                b,
            ),
            *final(self) == *final(b),
    {
        if !self.err {
            if let Some(r) = &mut self.response {
                let name = crate::server::literal_bytes("content-length");
                let digits = decimal_bytes(len);
                r.append_header(name, digits);
            }
        }
        self
    }

    /// Set a body and generate the response. A failed builder gives an
    /// internal server error response instead (and is no longer failed);
    /// otherwise the builder is emptied, and the cookie changes asked for
    /// are written as `Set-Cookie` headers after the response's headers (a
    /// change that is not a valid header value gives an internal server
    /// error response).
    pub fn body(&mut self, body: Body) -> (r: Response)
        requires
            old(self).failed() || old(self).built() is Some,
            old(self).built() matches Some(r) ==> r.wf(),
        ensures
            r.wf(),
            final(self).jar() == old(self).jar(),
            old(self).failed() ==> !final(self).failed() && final(self).built() == old(self).built()
                && r@ == Response::new_view(BUILD_ERROR_STATUS, Body::Empty),
            !old(self).failed() ==> final(self).built() is None && !final(self).failed(),
            !old(self).failed() ==> match old(self).jar() {
                None => r@ == (ResponseView { body: body, ..old(self).built()->0@ }),
                Some(j) => exists|texts: Seq<Seq<char>>|
                    #[trigger] delta_texts(jar_delta(j), texts) && r@ == with_cookie_texts(
                        old(self).built()->0@,
                        texts,
                        body,
                    ),
            },
    {
        if self.err {
            self.err = false;
            return Response::new(BUILD_ERROR_STATUS);
        }
        let mut taken: Option<Response> = None;
        std::mem::swap(&mut taken, &mut self.response);
        let mut r = match taken {
            Some(r) => r,
            None => {
                return Response::new(BUILD_ERROR_STATUS);
            },
        };
        let ghost v0 = r@;
        match &self.cookies {
            None => {},
            Some(jar) => {
                let texts = jar_delta_texts(jar);
                let ghost tv = texts@.map_values(|t: String| t@);
                if !append_cookie_texts(&mut r, &texts) {
                    let failed = Response::new(BUILD_ERROR_STATUS);
                    proof {
                        assert(failed.headers_spec() =~= Seq::<(Seq<u8>, Seq<u8>)>::empty());
                        assert(failed@ == with_cookie_texts(v0, tv, body));
                    }
                    return failed;
                }
            },
        }
        r.body = body;
        r
    }

    /// Set an empty body and generate the response.
    pub fn finish(&mut self) -> (r: Response)
        requires
            old(self).failed() || old(self).built() is Some,
            old(self).built() matches Some(r) ==> r.wf(),
        ensures
            r.wf(),
            final(self).jar() == old(self).jar(),
            old(self).failed() ==> !final(self).failed() && final(self).built() == old(self).built()
                && r@ == Response::new_view(BUILD_ERROR_STATUS, Body::Empty),
            !old(self).failed() ==> final(self).built() is None && !final(self).failed(),
            !old(self).failed() ==> match old(self).jar() {
                None => r@ == (ResponseView { body: Body::Empty, ..old(self).built()->0@ }),
                Some(j) => exists|texts: Seq<Seq<char>>|
                    #[trigger] delta_texts(jar_delta(j), texts) && r@ == with_cookie_texts(
                        old(self).built()->0@,
                        texts,
                        Body::Empty,
                    ),
            },
    {
        self.body(Body::Empty)
    }

    /// This method construct new `ResponseBuilder`, leaving this one empty.
    pub fn take(&mut self) -> (b: ResponseBuilder)
        ensures
            b == *old(self),
            final(self).built() is None,
            !final(self).failed(),
            final(self).jar() is None,
    {
        let mut taken: Option<Response> = None;
        std::mem::swap(&mut taken, &mut self.response);
        let mut jar: Option<cookie::CookieJar> = None;
        std::mem::swap(&mut jar, &mut self.cookies);
        let err = self.err;
        self.err = false;
        ResponseBuilder { response: taken, err, cookies: jar }
    }
}

} // verus!
