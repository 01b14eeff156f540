use actix_web::multipart::{
    boundary, boundary_step, field_length, first_boundary_line, parse_u64, part_kind,
    read_boundary_line, read_headers, split_field_chunk, stream_boundary, stream_chunk,
    BoundaryStep, FirstBoundaryLine, InnerState, LineRead, MultipartError, PartKind, StreamChunk,
};
use actix_web::payload::{Async, Payload};

/// Reads the next part's boundary line and headers, then the field's data
/// with its known length; returns the media type and the data, or `None`
/// when the closing boundary is read.
fn next_field(
    payload: &mut Payload<()>,
    state: &mut InnerState,
    b: &[u8],
) -> Option<(String, Option<Vec<u8>>, Vec<u8>)> {
    loop {
        let line = match payload.readline() {
            Ok(Async::Ready(l)) => l,
            _ => panic!("line"),
        };
        let (next, step) = boundary_step(*state, LineRead::Line(&line), b);
        *state = next;
        match step {
            BoundaryStep::NextLine => continue,
            BoundaryStep::ReadHeaders => break,
            BoundaryStep::Done => return None,
            _ => panic!("step"),
        }
    }
    let block = match payload.readuntil(b"\r\n\r\n") {
        Ok(Async::Ready(block)) => block,
        _ => panic!("headers"),
    };
    let headers = read_headers(Some(&block)).unwrap();
    *state = InnerState::Boundary;
    let find = |name: &[u8]| headers.iter().find(|h| h.0 == name).map(|h| h.1.clone());
    let ct = find(b"content-type");
    let kind = part_kind(ct.as_deref()).unwrap();
    let mt = match kind {
        PartKind::Field(t) => t,
        _ => panic!("field"),
    };
    let mut left = field_length(find(b"content-length").as_deref()).unwrap().unwrap();
    let mut data = Vec::new();
    while left > 0 {
        let chunk = match payload.readany() {
            Ok(Async::Ready(Some(c))) => c.0,
            _ => panic!("data"),
        };
        let (head, tail, rest) = split_field_chunk(chunk, left);
        data.extend_from_slice(&head);
        if !tail.is_empty() {
            payload.unread_data(tail);
        }
        left = rest;
    }
    match payload.readline() {
        Ok(Async::Ready(l)) => assert_eq!(l, b"\r\n".to_vec()),
        _ => panic!("field end"),
    }
    Some((mt, find(b"content-disposition"), data))
}

#[test]
fn test_multipart() {
    let bytes = b"testasdadsad\r\n\
--abbc761f78ff4d7cb7573b5a23f96ef0\r\n\
Content-Disposition: form-data; name=\"file\"; filename=\"fn.txt\"\r\n\
Content-Type: text/plain; charset=utf-8\r\nContent-Length: 4\r\n\r\n\
test\r\n\
--abbc761f78ff4d7cb7573b5a23f96ef0\r\n\
Content-Type: text/plain; charset=utf-8\r\nContent-Length: 4\r\n\r\n\
data\r\n\
--abbc761f78ff4d7cb7573b5a23f96ef0--\r\n";
    let mut payload: Payload<()> = Payload::new(false);
    payload.feed_data(bytes.to_vec());

    let b = boundary(Some(b"multipart/mixed; boundary=\"abbc761f78ff4d7cb7573b5a23f96ef0\""))
        .unwrap();
    assert_eq!(b, "abbc761f78ff4d7cb7573b5a23f96ef0");
    let mut state = InnerState::FirstBoundary;

    let (mt, cd, data) = next_field(&mut payload, &mut state, b.as_bytes()).unwrap();
    assert_eq!(cd, Some(b"form-data; name=\"file\"; filename=\"fn.txt\"".to_vec()));
    assert!(mt.starts_with("text/plain"));
    assert_eq!(data, b"test".to_vec());

    let (mt, cd, data) = next_field(&mut payload, &mut state, b.as_bytes()).unwrap();
    assert_eq!(cd, None);
    assert!(mt.starts_with("text/plain"));
    assert_eq!(data, b"data".to_vec());

    assert!(next_field(&mut payload, &mut state, b.as_bytes()).is_none());
    assert_eq!(state, InnerState::Eof);
}

#[test]
fn test_boundary() {
    match boundary(None) {
        Err(MultipartError::NoContentType) => (),
        _ => unreachable!("should not happen"),
    }

    match boundary(Some(b"test")) {
        Err(MultipartError::ParseContentType) => (),
        _ => unreachable!("should not happen"),
    }

    match boundary(Some(b"multipart/mixed")) {
        Err(MultipartError::Boundary) => (),
        _ => unreachable!("should not happen"),
    }

    assert_eq!(
        boundary(Some(b"multipart/mixed; boundary=\"5c02368e880e436dab70ed54e1c58209\"")).unwrap(),
        "5c02368e880e436dab70ed54e1c58209"
    );
}

#[test]
fn boundary_rejects_non_text_header() {
    assert_eq!(
        boundary(Some(b"multipart/mixed; boundary=\x01abc")),
        Err(MultipartError::ParseContentType)
    );
}

#[test]
fn boundary_line_reading() {
    assert_eq!(read_boundary_line(b"--abc\r\n", b"abc"), Ok(false));
    assert_eq!(read_boundary_line(b"--abc--\r\n", b"abc"), Ok(true));
    assert_eq!(read_boundary_line(b"--abd\r\n", b"abc"), Err(MultipartError::Boundary));
}

#[test]
fn first_boundary_line_kinds() {
    assert_eq!(first_boundary_line(b"ab", b"abc"), FirstBoundaryLine::Skip);
    assert_eq!(first_boundary_line(b"--abc\r\n", b"abc"), FirstBoundaryLine::Start);
    assert_eq!(first_boundary_line(b"abc--\r\n", b"abc"), FirstBoundaryLine::End);
    assert_eq!(first_boundary_line(b"preamble text", b"abc"), FirstBoundaryLine::Skip);
}

#[test]
fn split_field_chunk_cuts_at_length() {
    let (head, tail, left) = split_field_chunk(b"hello world".to_vec(), 5);
    assert_eq!(head, b"hello".to_vec());
    assert_eq!(tail, b" world".to_vec());
    assert_eq!(left, 0);

    let (head, tail, left) = split_field_chunk(b"abc".to_vec(), 10);
    assert_eq!(head, b"abc".to_vec());
    assert!(tail.is_empty());
    assert_eq!(left, 7);
}


#[test]
fn part_headers_are_read() {
    let h = read_headers(Some(b"Content-Disposition: form-data; name=\"file\"\r\nContent-Type: text/plain\r\n\r\n")).unwrap();
    assert_eq!(h.len(), 2);
    assert_eq!(h[0].0, b"content-disposition".to_vec());
    assert_eq!(h[1], (b"content-type".to_vec(), b"text/plain".to_vec()));
    assert_eq!(read_headers(None), Err(MultipartError::Incomplete));
    assert_eq!(read_headers(Some(b"Content-Type: text/plain\r\n")), Err(MultipartError::Parse));
    assert_eq!(read_headers(Some(b"Bad Header\r\n\r\n")), Err(MultipartError::Parse));
}

#[test]
fn boundary_steps() {
    let b = b"abc";
    assert_eq!(boundary_step(InnerState::FirstBoundary, LineRead::NotReady, b), (InnerState::FirstBoundary, BoundaryStep::Wait));
    assert_eq!(
        boundary_step(InnerState::FirstBoundary, LineRead::Eof, b),
        (InnerState::FirstBoundary, BoundaryStep::Fail(MultipartError::Incomplete))
    );
    assert_eq!(boundary_step(InnerState::FirstBoundary, LineRead::Line(b"preamble\r\n"), b), (InnerState::FirstBoundary, BoundaryStep::NextLine));
    assert_eq!(boundary_step(InnerState::FirstBoundary, LineRead::Line(b"--abc\r\n"), b), (InnerState::Headers, BoundaryStep::ReadHeaders));
    assert_eq!(boundary_step(InnerState::Boundary, LineRead::Line(b"--abc\r\n"), b), (InnerState::Headers, BoundaryStep::ReadHeaders));
    assert_eq!(boundary_step(InnerState::Boundary, LineRead::Line(b"--abc--\r\n"), b), (InnerState::Eof, BoundaryStep::Done));
    assert_eq!(
        boundary_step(InnerState::Boundary, LineRead::Line(b"junk\r\n"), b),
        (InnerState::Boundary, BoundaryStep::Fail(MultipartError::Boundary))
    );
    assert_eq!(boundary_step(InnerState::Eof, LineRead::NotReady, b), (InnerState::Eof, BoundaryStep::Done));
}

#[test]
fn part_kinds() {
    match part_kind(Some(b"text/plain")).unwrap() {
        PartKind::Field(t) => assert_eq!(t, "text/plain"),
        _ => panic!("field"),
    }
    match part_kind(None).unwrap() {
        PartKind::Field(t) => assert_eq!(t, "application/octet-stream"),
        _ => panic!("field"),
    }
    match part_kind(Some(b"multipart/mixed; boundary=xyz")).unwrap() {
        PartKind::Nested(b) => assert_eq!(b, "xyz"),
        _ => panic!("nested"),
    }
    assert!(matches!(part_kind(Some(b"multipart/mixed")), Err(MultipartError::Boundary)));
}

#[test]
fn decimal_parsing() {
    assert_eq!(parse_u64(b"123"), Some(123));
    assert_eq!(parse_u64(b"+7"), Some(7));
    assert_eq!(parse_u64(b""), None);
    assert_eq!(parse_u64(b"+"), None);
    assert_eq!(parse_u64(b"-1"), None);
    assert_eq!(parse_u64(b"12a"), None);
    assert_eq!(parse_u64(b"18446744073709551615"), Some(u64::MAX));
    assert_eq!(parse_u64(b"18446744073709551616"), None);
    assert_eq!(field_length(None), Ok(None));
    assert_eq!(field_length(Some(b"42")), Ok(Some(42)));
    assert_eq!(field_length(Some(b"x")), Err(MultipartError::Payload));
}

#[test]
fn stream_chunks() {
    match stream_chunk(b"data\r".to_vec()) {
        StreamChunk::Data(d, back) => {
            assert_eq!(d, b"data".to_vec());
            assert_eq!(back, b"\r".to_vec());
        },
        _ => panic!("data"),
    }
    match stream_chunk(b"\r".to_vec()) {
        StreamChunk::CheckBoundary(c) => assert_eq!(c, b"\r".to_vec()),
        _ => panic!("check"),
    }
    assert_eq!(stream_boundary(b"\r\n--abc".to_vec(), b"abc"), (None, b"\r\n--abc".to_vec()));
    assert_eq!(stream_boundary(b"\r\nxyabc".to_vec(), b"abc"), (Some(b"\r".to_vec()), b"\nxyabc".to_vec()));
}
