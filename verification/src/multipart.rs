//! Multipart payload support: the boundary of a `multipart/*` request and
//! the reading of boundary lines and field data.
use crate::router::string_from_chars;
use mime::Mime;
use vstd::prelude::*;

verus! {

/// Errors of multipart processing.
#[derive(Debug, Clone, Copy, PartialEq, Eq, Structural)]
pub enum MultipartError {
    /// Content-Type header is not found.
    NoContentType,
    /// Can not parse Content-Type header.
    ParseContentType,
    /// Multipart boundary is not found.
    Boundary,
    /// Multipart payload is incomplete.
    Incomplete,
    /// A part's headers could not be parsed.
    Parse,
    /// A part's payload is malformed (a bad `Content-Length`).
    Payload,
}

#[verifier::external_type_specification]
#[verifier::external_body]
pub struct ExMime(Mime);

/// The text of a parsed media type, as the `mime` crate keeps it (what
/// `Mime::as_ref` returns).
pub uninterp spec fn mime_text(m: Mime) -> Seq<char>;

/// The text that `str::parse::<mime::Mime>` keeps for a media type, or `None`
/// when it does not parse.
pub uninterp spec fn spec_mime_parse(s: Seq<char>) -> Option<Seq<char>>;

/// The `boundary` parameter of a parsed media type, by its text.
pub uninterp spec fn spec_mime_boundary(text: Seq<char>) -> Option<Seq<char>>;

/// Calls `str::parse::<mime::Mime>` (the `mime` crate's `FromStr`). Claimed:
/// it succeeds exactly when `spec_mime_parse` names a text for the string,
/// and the media type it gives keeps that text. Which strings parse is not
/// stated.
#[verifier::external_body]
fn parse_mime(s: &str) -> (m: Option<Mime>)
    ensures
        m is Some <==> spec_mime_parse(s@) is Some,
        m matches Some(m) ==> spec_mime_parse(s@) == Some(mime_text(m)),
{
    s.parse::<Mime>().ok()
}

/// Calls `mime::Mime::get_param` with `mime::BOUNDARY`. Claimed: the value is
/// the one `spec_mime_boundary` names for the media type's text.
#[verifier::external_body]
fn mime_boundary(m: &Mime) -> (b: Option<String>)
    ensures
        match b {
            Some(s) => spec_mime_boundary(mime_text(*m)) == Some(s@),
            None => spec_mime_boundary(mime_text(*m)) is None,
        },
{
    m.get_param(mime::BOUNDARY).map(|n| n.as_str().to_owned())
}

/// Whether a header value is visible ASCII (tab allowed), the condition under
/// which a header value reads as a string.
pub open spec fn is_visible_ascii(v: Seq<u8>) -> bool {
    forall|i: int| 0 <= i < v.len() ==> ((32 <= #[trigger] v[i] && v[i] < 127) || v[i] == 9)
}

/// The characters of visible ASCII bytes.
pub open spec fn ascii_chars(v: Seq<u8>) -> Seq<char> {
    v.map_values(|b: u8| b as char)
}

/// The boundary of a multipart request, from its Content-Type header value.
pub open spec fn boundary_spec(content_type: Option<Seq<u8>>) -> Result<Seq<char>, MultipartError> {
    match content_type {
        None => Err(MultipartError::NoContentType),
        Some(v) => if !is_visible_ascii(v) {
            Err(MultipartError::ParseContentType)
        } else {
            match spec_mime_parse(ascii_chars(v)) {
                None => Err(MultipartError::ParseContentType),
                Some(text) => match spec_mime_boundary(text) {
                    Some(b) => Ok(b),
                    None => Err(MultipartError::Boundary),
                },
            }
        },
    }
}

fn header_str(v: &[u8]) -> (s: Option<String>)
    ensures
        s is Some <==> is_visible_ascii(v@),
        s matches Some(s) ==> s@ == ascii_chars(v@),
{
    let mut chars: Vec<char> = Vec::new();
    let mut i: usize = 0;
    while i < v.len()
        invariant
            i <= v@.len(),
            forall|j: int| 0 <= j < i ==> ((32 <= #[trigger] v@[j] && v@[j] < 127) || v@[j] == 9),
            chars@ == ascii_chars(v@.take(i as int)),
        decreases v@.len() - i,
    {
        let b = v[i];
        if !((32 <= b && b < 127) || b == 9) {
            return None;
        }
        chars.push(b as char);
        i += 1;
        assert(chars@ =~= ascii_chars(v@.take(i as int)));
    }
    assert(v@.take(i as int) =~= v@);
    Some(string_from_chars(chars.as_slice()))
}


/// Extracts the boundary from the request's Content-Type header value.
pub fn boundary(content_type: Option<&[u8]>) -> (r: Result<String, MultipartError>)
    ensures
        match boundary_spec(
            match content_type {
                Some(v) => Some(v@),
                None => None,
            },
        ) {
            Ok(b) => r matches Ok(s) && s@ == b,
            Err(e) => r == Err::<String, MultipartError>(e),
        },
{
    match content_type {
        None => Err(MultipartError::NoContentType),
        Some(v) => match header_str(v) {
            None => Err(MultipartError::ParseContentType),
            Some(s) => match parse_mime(s.as_str()) {
                None => Err(MultipartError::ParseContentType),
                Some(ct) => match mime_boundary(&ct) {
                    Some(b) => Ok(b),
                    None => Err(MultipartError::Boundary),
                },
            },
        },
    }
}

/// `--` followed by the boundary.
pub open spec fn dash_boundary(boundary: Seq<u8>) -> Seq<u8> {
    seq![45u8, 45u8] + boundary
}

/// What a boundary line means: `Ok(false)` for a boundary that more parts
/// follow (`--boundary` and two more bytes, the line end), `Ok(true)` for the
/// closing boundary (`--boundary--` and two more bytes), and an error for
/// anything else.
pub open spec fn boundary_line_spec(chunk: Seq<u8>, boundary: Seq<u8>) -> Result<bool, MultipartError> {
    if chunk.len() == boundary.len() + 4 && chunk.take(boundary.len() + 2int) == dash_boundary(boundary) {
        Ok(false)
    } else if chunk.len() == boundary.len() + 6 && chunk.take(boundary.len() + 2int) == dash_boundary(
        boundary,
    ) && chunk.subrange(boundary.len() + 2int, boundary.len() + 4int) == seq![45u8, 45u8] {
        Ok(true)
    } else {
        Err(MultipartError::Boundary)
    }
}

fn bytes_eq_at(chunk: &[u8], at: usize, expected: &[u8]) -> (b: bool)
    requires
        at + expected@.len() <= chunk@.len(),
    ensures
        b == (chunk@.subrange(at as int, at + expected@.len()) == expected@),
{
    let n = chunk.len();
    let mut i: usize = 0;
    while i < expected.len()
        invariant
            i <= expected@.len(),
            n == chunk@.len(),
            at + expected@.len() <= chunk@.len(),
            forall|j: int| 0 <= j < i ==> chunk@[at + j] == expected@[j],
        decreases expected@.len() - i,
    {
        if chunk[at + i] != expected[i] {
            assert(chunk@.subrange(at as int, at + expected@.len())[i as int] != expected@[i as int]);
            return false;
        }
        i += 1;
    }
    assert(chunk@.subrange(at as int, at + expected@.len()) =~= expected@);
    true
}

fn starts_with_dash_boundary(chunk: &[u8], boundary: &[u8]) -> (b: bool)
    requires
        chunk@.len() >= boundary@.len() + 2int,
    ensures
        b == (chunk@.take(boundary@.len() + 2int) == dash_boundary(boundary@)),
{
    let dd: [u8; 2] = [45u8, 45u8];
    assert(dd@ =~= seq![45u8, 45u8]);
    let r1 = bytes_eq_at(chunk, 0, dd.as_slice());
    let r2 = bytes_eq_at(chunk, 2, boundary);
    proof {
        let t = chunk@.take(boundary@.len() + 2int);
        assert(chunk@.subrange(0, 2) =~= t.subrange(0, 2));
        assert(chunk@.subrange(2, 2int + boundary@.len()) =~= t.subrange(2, 2int + boundary@.len()));
        if r1 && r2 {
            assert(t =~= dash_boundary(boundary@));
        }
        if t == dash_boundary(boundary@) {
            assert(t.subrange(0, 2) =~= seq![45u8, 45u8]);
            assert(t.subrange(2, 2int + boundary@.len()) =~= boundary@);
        }
    }
    r1 && r2
}

/// Reads a boundary line: whether it is the closing boundary, or an error
/// when it is not a boundary line.
pub fn read_boundary_line(chunk: &[u8], boundary: &[u8]) -> (r: Result<bool, MultipartError>)
    requires
        boundary@.len() + 6 <= usize::MAX,
    ensures
        r == boundary_line_spec(chunk@, boundary@),
{
    if chunk.len() == boundary.len() + 4 && starts_with_dash_boundary(chunk, boundary) {
        Ok(false)
    } else if chunk.len() == boundary.len() + 6 && starts_with_dash_boundary(chunk, boundary) && {
        let dd: [u8; 2] = [45u8, 45u8];
        assert(dd@ =~= seq![45u8, 45u8]);
        bytes_eq_at(chunk, boundary.len() + 2, dd.as_slice())
    } {
        Ok(true)
    } else {
        Err(MultipartError::Boundary)
    }
}

/// What a line read before the first boundary means.
#[derive(Debug, Clone, Copy, PartialEq, Eq, Structural)]
pub enum FirstBoundaryLine {
    /// Not a boundary: read on.
    Skip,
    /// The first boundary: parts follow.
    Start,
    /// The boundary followed by `--` with no leading dashes: no part follows.
    End,
}

/// The meaning of a line read while looking for the first boundary: lines
/// shorter than the boundary are skipped; a line of `--`, the boundary and two
/// more bytes starts the parts; a line of the boundary followed by `--` ends
/// them; anything else is skipped.
pub open spec fn first_boundary_line_spec(chunk: Seq<u8>, boundary: Seq<u8>) -> FirstBoundaryLine {
    if chunk.len() < boundary.len() {
        FirstBoundaryLine::Skip
    } else if chunk.take(2) == seq![45u8, 45u8] && chunk.subrange(2, chunk.len() - 2) == boundary {
        FirstBoundaryLine::Start
    } else if chunk.len() < boundary.len() + 2 {
        FirstBoundaryLine::Skip
    } else if chunk.take(boundary.len() as int) == boundary && chunk.subrange(
        boundary.len() as int,
        boundary.len() + 2int,
    ) == seq![45u8, 45u8] {
        FirstBoundaryLine::End
    } else {
        FirstBoundaryLine::Skip
    }
}

/// The lines on which reading the first boundary is defined: the byte
/// ranges it compares would run past a line as long as the boundary that is
/// shorter than two bytes, or one that starts with `--` and is shorter than
/// four.
pub open spec fn first_boundary_line_defined(chunk: Seq<u8>, boundary: Seq<u8>) -> bool {
    chunk.len() >= boundary.len() ==> (chunk.len() >= 2 && (chunk.take(2) == seq![45u8, 45u8]
        ==> chunk.len() >= 4))
}

/// Reads a line while looking for the first boundary.
pub fn first_boundary_line(chunk: &[u8], boundary: &[u8]) -> (r: FirstBoundaryLine)
    requires
        first_boundary_line_defined(chunk@, boundary@),
        boundary@.len() + 2 <= usize::MAX,
    ensures
        r == first_boundary_line_spec(chunk@, boundary@),
{
    if chunk.len() < boundary.len() {
        return FirstBoundaryLine::Skip;
    }
    let dd: [u8; 2] = [45u8, 45u8];
    assert(dd@ =~= seq![45u8, 45u8]);
    let starts = bytes_eq_at(chunk, 0, dd.as_slice());
    proof {
        assert(chunk@.subrange(0, 2) =~= chunk@.take(2));
    }
    if starts {
        let len = chunk.len() - 4;
        let same = len == boundary.len() && bytes_eq_at(chunk, 2, boundary);
        proof {
            if chunk@.subrange(2, chunk@.len() - 2) == boundary@ {
                assert(len == boundary@.len());
            }
            if same {
                assert(chunk@.subrange(2, chunk@.len() - 2) =~= boundary@);
            }
        }
        if same {
            return FirstBoundaryLine::Start;
        }
    }
    if chunk.len() < boundary.len() + 2 {
        return FirstBoundaryLine::Skip;
    }
    let b1 = bytes_eq_at(chunk, 0, boundary);
    let b2 = bytes_eq_at(chunk, boundary.len(), dd.as_slice());
    proof {
        assert(chunk@.subrange(0, boundary@.len() as int) =~= chunk@.take(boundary@.len() as int));
    }
    if b1 && b2 {
        FirstBoundaryLine::End
    } else {
        FirstBoundaryLine::Skip
    }
}

/// Reads part of a field whose length is known: the chunk is cut at what is
/// left of the length; the head is handed out and the tail, when not empty,
/// is put back. Returns the head, the tail and what is left of the length.
pub fn split_field_chunk(chunk: Vec<u8>, size: u64) -> (r: (Vec<u8>, Vec<u8>, u64))
    ensures
        ({
            let n = if chunk@.len() < size {
                chunk@.len()
            } else {
                size as nat
            };
            &&& r.0@ == chunk@.take(n as int)
            &&& r.1@ == chunk@.skip(n as int)
            &&& r.2 == size - n
        }),
{
    let len: u64 = if (chunk.len() as u64) < size {
        chunk.len() as u64
    } else {
        size
    };
    proof {
        assert(chunk@.len() <= u64::MAX);
    }
    let mut head = chunk;
    let tail = head.split_off(len as usize);
    (head, tail, size - len)
}

/// The most headers a part may have.
pub const MAX_HEADERS: usize = 32;

/// What `httparse` makes of a header block, by value.
pub enum HeaderBlockView {
    /// The (name, value) pairs of a complete block.
    Complete(Seq<(Seq<char>, Seq<u8>)>),
    /// The block ends early.
    Partial,
    /// The block is malformed, or has more headers than room was given for.
    Invalid,
}

/// What `httparse` makes of a header block.
pub enum HeaderBlock {
    /// The (name, value) pairs of a complete block.
    Complete(Vec<(String, Vec<u8>)>),
    /// The block ends early.
    Partial,
    /// The block is malformed, or has more headers than room was given for.
    Invalid,
}

/// What `httparse::parse_headers` makes of a block, given room for 32
/// headers.
pub uninterp spec fn spec_parse_headers(block: Seq<u8>) -> HeaderBlockView;

/// Calls `httparse::parse_headers` on a header block with room for 32
/// headers, and copies out each header's name and value. The result is
/// named: a function of the bytes alone.
#[verifier::external_body]
fn parse_header_block(block: &[u8]) -> (r: HeaderBlock)
    ensures
        spec_parse_headers(block@) == match r {
            HeaderBlock::Complete(hs) => HeaderBlockView::Complete(
                hs@.map_values(|h: (String, Vec<u8>)| (h.0@, h.1@)),
            ),
            HeaderBlock::Partial => HeaderBlockView::Partial,
            HeaderBlock::Invalid => HeaderBlockView::Invalid,
        },
{
    let mut hdrs = [httparse::EMPTY_HEADER; 32];
    match httparse::parse_headers(block, &mut hdrs) {
        Ok(httparse::Status::Complete((_, hs))) => HeaderBlock::Complete(
            hs.iter().map(|h| (h.name.to_owned(), h.value.to_vec())).collect(),
        ),
        Ok(httparse::Status::Partial) => HeaderBlock::Partial,
        Err(_) => HeaderBlock::Invalid,
    }
}

/// The headers of a part, from its header block: every name must be a
/// header name (kept lower-case) and every value a header value.
pub open spec fn part_headers(hs: Seq<(Seq<char>, Seq<u8>)>) -> Option<Seq<(Seq<u8>, Seq<u8>)>>
    decreases hs.len(),
{
    if hs.len() == 0 {
        Some(Seq::empty())
    } else {
        match part_headers(hs.drop_last()) {
            None => None,
            Some(rest) => match crate::response::header_name_of(
                vstd::utf8::encode_utf8(hs.last().0),
            ) {
                Some(n) => if crate::response::valid_header_value(hs.last().1) {
                    Some(rest.push((n, hs.last().1)))
                } else {
                    None
                },
                None => None,
            },
        }
    }
}

/// What reading a part's header block ends with: the payload ended before
/// it (`Incomplete`), it does not parse (`Parse`), or the headers.
pub open spec fn read_headers_spec(block: Option<Seq<u8>>) -> Result<
    Seq<(Seq<u8>, Seq<u8>)>,
    MultipartError,
> {
    match block {
        None => Err(MultipartError::Incomplete),
        Some(b) => match spec_parse_headers(b) {
            HeaderBlockView::Complete(hs) => match part_headers(hs) {
                Some(h) => Ok(h),
                None => Err(MultipartError::Parse),
            },
            _ => Err(MultipartError::Parse),
        },
    }
}

/// Reads a part's headers from its header block (through the empty line),
/// or `None` when the payload ended before it.
pub fn read_headers(block: Option<&[u8]>) -> (r: Result<Vec<(Vec<u8>, Vec<u8>)>, MultipartError>)
    ensures
        match read_headers_spec(
            match block {
                Some(b) => Some(b@),
                None => None,
            },
        ) {
            Ok(h) => r matches Ok(v) && crate::response::headers_view(v@) == h,
            Err(e) => r == Err::<Vec<(Vec<u8>, Vec<u8>)>, MultipartError>(e),
        },
{
    let b = match block {
        None => return Err(MultipartError::Incomplete),
        Some(b) => b,
    };
    match parse_header_block(b) {
        HeaderBlock::Complete(hs) => {
            let ghost hv = hs@.map_values(|h: (String, Vec<u8>)| (h.0@, h.1@));
            let mut out: Vec<(Vec<u8>, Vec<u8>)> = Vec::new();
            let mut i: usize = 0;
            proof {
                assert(hv.take(0) =~= Seq::<(Seq<char>, Seq<u8>)>::empty());
                assert(crate::response::headers_view(out@) =~= Seq::<(Seq<u8>, Seq<u8>)>::empty());
            }
            while i < hs.len()
                invariant
                    i <= hs@.len(),
                    hv == hs@.map_values(|h: (String, Vec<u8>)| (h.0@, h.1@)),
                    spec_parse_headers(b@) == HeaderBlockView::Complete(hv),
                    block == Some(b),
                    part_headers(hv.take(i as int)) == Some(crate::response::headers_view(out@)),
                decreases hs@.len() - i,
            {
                proof {
                    assert(hv.take(i + 1).drop_last() =~= hv.take(i as int));
                    assert(hv.take(i + 1).last() == hv[i as int]);
                }
                let name = crate::response::header_name(hs[i].0.as_str().as_bytes());
                match name {
                    None => {
                        proof {
                            lemma_part_headers_none_extends(hv, i as int + 1);
                        }
                        return Err(MultipartError::Parse);
                    },
                    Some(n) => {
                        let ok = valid_value_bytes(&hs[i].1);
                        if !ok {
                            proof {
                                lemma_part_headers_none_extends(hv, i as int + 1);
                            }
                            return Err(MultipartError::Parse);
                        }
                        let ghost o0 = crate::response::headers_view(out@);
                        out.push((n, hs[i].1.clone()));
                        assert(crate::response::headers_view(out@) =~= o0.push((n@, hs[i as int].1@)));
                    },
                }
                i += 1;
            }
            assert(hv.take(i as int) =~= hv);
            Ok(out)
        },
        HeaderBlock::Partial => Err(MultipartError::Parse),
        HeaderBlock::Invalid => Err(MultipartError::Parse),
    }
}

proof fn lemma_part_headers_none_extends(hs: Seq<(Seq<char>, Seq<u8>)>, k: int)
    requires
        0 <= k <= hs.len(),
        part_headers(hs.take(k)) is None,
    ensures
        part_headers(hs) is None,
    decreases hs.len() - k,
{
    if k < hs.len() {
        assert(hs.take(k + 1).drop_last() =~= hs.take(k));
        lemma_part_headers_none_extends(hs, k + 1);
    } else {
        assert(hs.take(k) =~= hs);
    }
}

fn valid_value_bytes(v: &Vec<u8>) -> (b: bool)
    ensures
        b == crate::response::valid_header_value(v@),
{
    let mut i: usize = 0;
    while i < v.len()
        invariant
            i <= v@.len(),
            forall|j: int| 0 <= j < i ==> ((#[trigger] v@[j] >= 32 && v@[j] != 127) || v@[j] == 9),
        decreases v@.len() - i,
    {
        let c = v[i];
        if !((c >= 32 && c != 127) || c == 9) {
            return false;
        }
        i += 1;
    }
    true
}

/// Where a multipart reader is.
#[derive(Debug, Clone, Copy, PartialEq, Eq, Structural)]
pub enum InnerState {
    /// The stream is over.
    Eof,
    /// Skipping data until the first boundary.
    FirstBoundary,
    /// Reading a boundary.
    Boundary,
    /// Reading a part's headers.
    Headers,
}

/// What a step on the boundary lines asks for next.
#[derive(Debug, Clone, Copy, PartialEq, Eq, Structural)]
pub enum BoundaryStep {
    /// Wait for more data.
    Wait,
    /// Read the next line.
    NextLine,
    /// Read the next part's headers.
    ReadHeaders,
    /// The stream is over.
    Done,
    /// Fail.
    Fail(MultipartError),
}

/// A line read from the payload.
pub enum LineRead<'a> {
    /// No full line yet.
    NotReady,
    /// The payload ended.
    Eof,
    /// A line, with its line end.
    Line(&'a [u8]),
}

/// The state and next step of a multipart reader after it reads a line in
/// `state`: before the first boundary, lines are skipped until the first
/// boundary (then the headers follow) or the closing one (then the stream
/// is over); after a part, the boundary line says whether another part
/// follows. The payload ending early is `Incomplete`.
pub open spec fn boundary_step_spec(state: InnerState, line: Option<Option<Seq<u8>>>, boundary: Seq<u8>) -> (
    InnerState,
    BoundaryStep,
) {
    match state {
        InnerState::Eof => (InnerState::Eof, BoundaryStep::Done),
        InnerState::Headers => (InnerState::Headers, BoundaryStep::ReadHeaders),
        _ => match line {
            None => (state, BoundaryStep::Wait),
            Some(None) => (state, BoundaryStep::Fail(MultipartError::Incomplete)),
            Some(Some(l)) => if state == InnerState::FirstBoundary {
                match first_boundary_line_spec(l, boundary) {
                    FirstBoundaryLine::Skip => (state, BoundaryStep::NextLine),
                    FirstBoundaryLine::Start => (InnerState::Headers, BoundaryStep::ReadHeaders),
                    FirstBoundaryLine::End => (InnerState::Eof, BoundaryStep::Done),
                }
            } else {
                match boundary_line_spec(l, boundary) {
                    Ok(false) => (InnerState::Headers, BoundaryStep::ReadHeaders),
                    Ok(true) => (InnerState::Eof, BoundaryStep::Done),
                    Err(e) => (state, BoundaryStep::Fail(e)),
                }
            },
        },
    }
}

/// Takes a line read while looking for a boundary.
pub fn boundary_step(state: InnerState, line: LineRead, boundary: &[u8]) -> (r: (InnerState, BoundaryStep))
    requires
        boundary@.len() + 6 <= usize::MAX,
        state == InnerState::FirstBoundary ==> (line matches LineRead::Line(l)
            ==> first_boundary_line_defined(l@, boundary@)),
    ensures
        r == boundary_step_spec(
            state,
            match line {
                LineRead::NotReady => None,
                LineRead::Eof => Some(None),
                LineRead::Line(l) => Some(Some(l@)),
            },
            boundary@,
        ),
{
    match state {
        InnerState::Eof => (InnerState::Eof, BoundaryStep::Done),
        InnerState::Headers => (InnerState::Headers, BoundaryStep::ReadHeaders),
        _ => match line {
            LineRead::NotReady => (state, BoundaryStep::Wait),
            LineRead::Eof => (state, BoundaryStep::Fail(MultipartError::Incomplete)),
            LineRead::Line(l) => {
                if state == InnerState::FirstBoundary {
                    match first_boundary_line(l, boundary) {
                        FirstBoundaryLine::Skip => (state, BoundaryStep::NextLine),
                        FirstBoundaryLine::Start => (InnerState::Headers, BoundaryStep::ReadHeaders),
                        FirstBoundaryLine::End => (InnerState::Eof, BoundaryStep::Done),
                    }
                } else {
                    match read_boundary_line(l, boundary) {
                        Ok(false) => (InnerState::Headers, BoundaryStep::ReadHeaders),
                        Ok(true) => (InnerState::Eof, BoundaryStep::Done),
                        Err(e) => (state, BoundaryStep::Fail(e)),
                    }
                }
            },
        },
    }
}

/// The top-level type of a parsed media type (`multipart`, `text`, ...), by
/// its text.
pub uninterp spec fn spec_mime_type(text: Seq<char>) -> Seq<char>;

/// Calls `mime::Mime::type_` and keeps its text. The result is named: a
/// function of the media type's text alone.
#[verifier::external_body]
fn mime_type(m: &Mime) -> (t: String)
    ensures
        t@ == spec_mime_type(mime_text(*m)),
{
    m.type_().as_str().to_owned()
}

/// What a part is.
pub enum PartKind {
    /// A nested multipart stream, with its boundary.
    Nested(String),
    /// A field, with its media type's text.
    Field(String),
}

/// The text of the default media type of a part, `application/octet-stream`.
pub open spec fn octet_stream() -> Seq<char> {
    "application/octet-stream"@
}

/// What a part is, by its `Content-Type` value: the media type it reads as
/// (`application/octet-stream` when there is none or it does not parse); a
/// `multipart` type is a nested stream, whose boundary it must give.
pub open spec fn part_kind_spec(content_type: Option<Seq<u8>>) -> Result<PartKindView, MultipartError> {
    let text = match content_type {
        Some(v) => if is_visible_ascii(v) {
            match spec_mime_parse(ascii_chars(v)) {
                Some(t) => t,
                None => octet_stream(),
            }
        } else {
            octet_stream()
        },
        None => octet_stream(),
    };
    if spec_mime_type(text) == "multipart"@ {
        match spec_mime_boundary(text) {
            Some(b) => Ok(PartKindView::Nested(b)),
            None => Err(MultipartError::Boundary),
        }
    } else {
        Ok(PartKindView::Field(text))
    }
}

/// What a part is, by value.
pub enum PartKindView {
    /// A nested multipart stream, with its boundary.
    Nested(Seq<char>),
    /// A field, with its media type's text.
    Field(Seq<char>),
}

/// `mime::APPLICATION_OCTET_STREAM`, whose text is
/// `application/octet-stream`.
#[verifier::external_body]
fn octet_stream_mime() -> (m: Mime)
    ensures
        mime_text(m) == octet_stream(),
{
    mime::APPLICATION_OCTET_STREAM
}

/// Calls `mime::Mime::as_ref`: the media type's text.
#[verifier::external_body]
fn mime_string(m: &Mime) -> (s: String)
    ensures
        s@ == mime_text(*m),
{
    m.as_ref().to_owned()
}

fn str_eq(a: &str, b: &str) -> (r: bool)
    ensures
        r == (a@ == b@),
{
    let x = crate::router::str_chars(a);
    let y = crate::router::str_chars(b);
    if x.len() != y.len() {
        return false;
    }
    let mut i: usize = 0;
    while i < x.len()
        invariant
            i <= x@.len(),
            x@.len() == y@.len(),
            x@ == a@,
            y@ == b@,
            forall|j: int| 0 <= j < i ==> x@[j] == y@[j],
        decreases x@.len() - i,
    {
        if x[i] != y[i] {
            assert(x@[i as int] != y@[i as int]);
            return false;
        }
        i += 1;
    }
    assert(x@ =~= y@);
    true
}

/// Decides what a part is from its `Content-Type` value.
pub fn part_kind(content_type: Option<&[u8]>) -> (r: Result<PartKind, MultipartError>)
    ensures
        match part_kind_spec(
            match content_type {
                Some(v) => Some(v@),
                None => None,
            },
        ) {
            Ok(PartKindView::Nested(b)) => r matches Ok(PartKind::Nested(s)) && s@ == b,
            Ok(PartKindView::Field(t)) => r matches Ok(PartKind::Field(s)) && s@ == t,
            Err(e) => r matches Err(x) && x == e,
        },
{
    let parsed = match content_type {
        Some(v) => match header_str(v) {
            Some(s) => parse_mime(s.as_str()),
            None => None,
        },
        None => None,
    };
    let mt = match parsed {
        Some(m) => m,
        None => octet_stream_mime(),
    };
    let ty = mime_type(&mt);
    if str_eq(ty.as_str(), "multipart") {
        match mime_boundary(&mt) {
            Some(b) => Ok(PartKind::Nested(b)),
            None => Err(MultipartError::Boundary),
        }
    } else {
        Ok(PartKind::Field(mime_string(&mt)))
    }
}

/// The value of decimal digits.
pub open spec fn digits_value(ds: Seq<u8>) -> nat
    decreases ds.len(),
{
    if ds.len() == 0 {
        0
    } else {
        digits_value(ds.drop_last()) * 10 + (ds.last() - 48) as nat
    }
}

/// Whether every byte is an ASCII digit.
pub open spec fn all_digits(ds: Seq<u8>) -> bool {
    forall|i: int| 0 <= i < ds.len() ==> 48 <= #[trigger] ds[i] <= 57
}

/// What `str::parse::<u64>` gives for a text: an optional `+`, then one or
/// more digits whose value fits.
pub open spec fn parse_u64_spec(s: Seq<u8>) -> Option<u64> {
    let ds = if s.len() > 0 && s[0] == 43u8 {
        s.drop_first()
    } else {
        s
    };
    if ds.len() > 0 && all_digits(ds) && digits_value(ds) <= u64::MAX {
        Some(digits_value(ds) as u64)
    } else {
        None
    }
}

proof fn lemma_digits_value_grows(ds: Seq<u8>, i: int)
    requires
        0 <= i <= ds.len(),
        all_digits(ds),
    ensures
        digits_value(ds.take(i)) <= digits_value(ds),
    decreases ds.len() - i,
{
    if i < ds.len() {
        lemma_digits_value_grows(ds, i + 1);
        assert(ds.take(i + 1).drop_last() =~= ds.take(i));
        assert(ds.take(i + 1).last() == ds[i]);
        assert(48 <= ds[i]);
    } else {
        assert(ds.take(i) =~= ds);
    }
}

/// Parses a decimal `u64` as `str::parse::<u64>` does.
pub fn parse_u64(s: &[u8]) -> (r: Option<u64>)
    ensures
        r == parse_u64_spec(s@),
{
    let start: usize = if s.len() > 0 && s[0] == 43u8 {
        1
    } else {
        0
    };
    let ghost ds = if s@.len() > 0 && s@[0] == 43u8 {
        s@.drop_first()
    } else {
        s@
    };
    assert(ds =~= s@.skip(start as int));
    if s.len() == start {
        return None;
    }
    let mut v: u64 = 0;
    let mut i: usize = start;
    while i < s.len()
        invariant
            start <= i <= s@.len(),
            ds == s@.skip(start as int),
            ds == (if s@.len() > 0 && s@[0] == 43u8 {
                s@.drop_first()
            } else {
                s@
            }),
            ds.len() > 0,
            forall|j: int| 0 <= j < i - start ==> 48 <= #[trigger] ds[j] <= 57,
            v == digits_value(ds.take(i - start)),
        decreases s@.len() - i,
    {
        let c = s[i];
        proof {
            assert(ds[i - start] == c);
            assert(ds.take(i - start + 1).drop_last() =~= ds.take(i - start));
            assert(ds.take(i - start + 1).last() == c);
        }
        if c < 48 || c > 57 {
            assert(!all_digits(ds));
            return None;
        }
        let d = (c - 48) as u64;
        if v > (u64::MAX - d) / 10 {
            proof {
                assert(v * 10 + d > u64::MAX) by (nonlinear_arith)
                    requires
                        v > (u64::MAX - d) / 10,
                        d <= 9,
                ;
                if all_digits(ds) {
                    lemma_digits_value_grows(ds, i - start + 1);
                }
            }
            return None;
        }
        v = v * 10 + d;
        i += 1;
    }
    proof {
        assert(ds.take(i - start) =~= ds);
    }
    Some(v)
}

/// The length of a field from its `Content-Length` value: none without the
/// header; a value that is not a decimal number is a payload error.
pub fn field_length(content_length: Option<&[u8]>) -> (r: Result<Option<u64>, MultipartError>)
    ensures
        match content_length {
            None => r == Ok::<Option<u64>, MultipartError>(None),
            Some(v) => if is_visible_ascii(v@) && parse_u64_spec(v@) is Some {
                r == Ok::<Option<u64>, MultipartError>(parse_u64_spec(v@))
            } else {
                r == Err::<Option<u64>, MultipartError>(MultipartError::Payload)
            },
        },
{
    match content_length {
        None => Ok(None),
        Some(v) => {
            if header_str(v).is_none() {
                return Err(MultipartError::Payload);
            }
            match parse_u64(v) {
                Some(n) => Ok(Some(n)),
                None => Err(MultipartError::Payload),
            }
        },
    }
}

/// What to do with a chunk read up to and including a `\r` in a field of
/// unknown length.
pub enum StreamChunk {
    /// Hand out the data before the `\r`; the `\r` is put back.
    Data(Vec<u8>, Vec<u8>),
    /// The chunk is the `\r` alone: put it back and read as many bytes as a
    /// boundary line start takes, to tell whether the field ends.
    CheckBoundary(Vec<u8>),
}

/// Decides on a chunk read up to and including a `\r`.
pub fn stream_chunk(chunk: Vec<u8>) -> (r: StreamChunk)
    requires
        chunk@.len() > 0,
    ensures
        chunk@.len() == 1 ==> (r matches StreamChunk::CheckBoundary(c) && c@ == chunk@),
        chunk@.len() > 1 ==> (r matches StreamChunk::Data(d, back) && d@ == chunk@.drop_last()
            && back@ == seq![chunk@.last()]),
{
    if chunk.len() == 1 {
        StreamChunk::CheckBoundary(chunk)
    } else {
        let mut data = chunk;
        let last = data.pop().unwrap();
        let mut back: Vec<u8> = Vec::new();
        back.push(last);
        StreamChunk::Data(data, back)
    }
}

/// Whether bytes read after a `\r` in a field close it: `\r\n--` and the
/// boundary.
pub open spec fn closes_field(chunk: Seq<u8>, boundary: Seq<u8>) -> bool {
    chunk == seq![13u8, 10u8, 45u8, 45u8] + boundary
}

/// Law: a field of unknown length ends only at its own boundary. The bytes
/// read after a `\r` close the field exactly when they are `\r\n--`
/// followed by the part's boundary; a line that starts with `--` but goes
/// on with other bytes does not close it.
pub proof fn law_field_ends_only_at_boundary(chunk: Seq<u8>, boundary: Seq<u8>)
    requires
        chunk.len() == boundary.len() + 4,
    ensures
        closes_field(chunk, boundary) <==> (chunk.take(4) == seq![13u8, 10u8, 45u8, 45u8]
            && chunk.skip(4) == boundary),
        chunk.skip(4) != boundary ==> !closes_field(chunk, boundary),
{
    let want = seq![13u8, 10u8, 45u8, 45u8] + boundary;
    if chunk == want {
        assert(chunk.take(4) =~= seq![13u8, 10u8, 45u8, 45u8]);
        assert(chunk.skip(4) =~= boundary);
    }
    if chunk.take(4) == seq![13u8, 10u8, 45u8, 45u8] && chunk.skip(4) == boundary {
        assert(chunk =~= chunk.take(4) + chunk.skip(4));
    }
}

/// Decides on the bytes read after a `\r` (as many as `\r\n--` and the
/// boundary): when they close the field they are all put back and the field
/// ends (`None`); otherwise the `\r` is data and the rest is put back.
pub fn stream_boundary(chunk: Vec<u8>, boundary: &[u8]) -> (r: (Option<Vec<u8>>, Vec<u8>))
    requires
        chunk@.len() == boundary@.len() + 4,
    ensures
        closes_field(chunk@, boundary@) ==> r.0 is None && r.1@ == chunk@,
        !closes_field(chunk@, boundary@) ==> (r.0 matches Some(d) && d@ == chunk@.take(1)
            && r.1@ == chunk@.skip(1)),
        r.0 is None <==> (chunk@.take(4) == seq![13u8, 10u8, 45u8, 45u8] && chunk@.skip(4)
            == boundary@),
{
    let head: [u8; 4] = [13u8, 10u8, 45u8, 45u8];
    let a = bytes_eq_at(chunk.as_slice(), 0, head.as_slice());
    let b = bytes_eq_at(chunk.as_slice(), 4, boundary);
    proof {
        let want = seq![13u8, 10u8, 45u8, 45u8] + boundary@;
        assert(head@ =~= seq![13u8, 10u8, 45u8, 45u8]);
        if a && b {
            assert(chunk@ =~= want);
        }
        if chunk@ == want {
            assert(chunk@.subrange(0, 4) =~= head@);
            assert(chunk@.subrange(4, 4int + boundary@.len()) =~= boundary@);
        }
    }
    proof {
        let want = seq![13u8, 10u8, 45u8, 45u8] + boundary@;
        if chunk@ == want {
            assert(chunk@.take(4) =~= seq![13u8, 10u8, 45u8, 45u8]);
            assert(chunk@.skip(4) =~= boundary@);
        }
        if chunk@.take(4) == seq![13u8, 10u8, 45u8, 45u8] && chunk@.skip(4) == boundary@ {
            assert(chunk@ =~= chunk@.take(4) + chunk@.skip(4));
        }
    }
    if a && b {
        (None, chunk)
    } else {
        let mut rest = chunk;
        let first = rest.remove(0);
        let mut d: Vec<u8> = Vec::new();
        d.push(first);
        proof {
            assert(d@ =~= chunk@.take(1));
            assert(rest@ =~= chunk@.skip(1));
        }
        (Some(d), rest)
    }
}

} // verus!
