//! The wire to the workers.
use oxo_pingora_edge::fairness::{LongLivedLimits, LongLivedRegistry};
use oxo_pingora_edge::frame_buffer::{FrameReadBuffer, NextRead};
use oxo_pingora_edge::worker_request::{
    append_header_line, build_worker_request, send_outcome, BodyEvent, BodyReader, HopMove,
    HttpHop, SendProgress, WorkerSendError,
};
use oxo_pingora_edge::worker_response::{
    find_header_end, parse_chunked_worker_response_head, parse_status_line, parse_worker_response,
    strip_trailing_cr, trim_optional_whitespace, worker_response_is_chunked,
};
use oxo_pingora_edge::worker_stream::{
    parse_chunk_size, ChunkStep, ChunkStream, HeadProgress, ResponseReader,
};
use oxo_pingora_edge::worker_wire::{
    accumulate_header_bytes, content_length, has_invalid_header_value_bytes,
    host_matches_server_name, is_native_grpc_request_attempt, is_valid_header_name,
    is_valid_websocket_key, origin_matches_edge, validate_client_request, GrpcHeader,
    LoweredHeader, RequestHead,
};

fn head(http2: bool, method: &str, target: &str) -> RequestHead {
    RequestHead {
        http2,
        method: method.to_string(),
        scheme: None,
        authority: None,
        path_and_query: Some(target.to_string()),
        path: target.split('?').next().unwrap().to_string(),
    }
}

fn headers(list: &[(&str, &str)]) -> Vec<LoweredHeader> {
    list.iter()
        .map(|(n, v)| LoweredHeader::new(n.to_string(), v.to_string()))
        .collect()
}

#[test]
fn names_values_and_sizes_of_headers() {
    assert!(is_valid_header_name(b"X-Thing_1"));
    assert!(!is_valid_header_name(b""));
    assert!(!is_valid_header_name(b"a b"));
    assert!(!has_invalid_header_value_bytes(b"a\tb"));
    assert!(has_invalid_header_value_bytes(b"a\rb"));
    assert!(has_invalid_header_value_bytes(b"a\0"));
    assert!(accumulate_header_bytes(0, "name", "value").is_ok());
    assert_eq!(accumulate_header_bytes(65_535, "name", "value"), Err(431));
    assert_eq!(accumulate_header_bytes(usize::MAX, "name", "value"), Err(431));
}

#[test]
fn lengths_are_read_once() {
    assert_eq!(content_length(&headers(&[])), Ok(None));
    assert_eq!(content_length(&headers(&[("Content-Length", "12")])), Ok(Some(12)));
    assert_eq!(content_length(&headers(&[("Content-Length", "x")])), Err(400));
    assert_eq!(
        content_length(&headers(&[("Content-Length", "1"), ("content-length", "1")])),
        Err(400)
    );
}

#[test]
fn client_requests_are_checked() {
    let check = |req: &RequestHead, hs: &[(&str, &str)], public: Option<&str>| {
        validate_client_request(req, &headers(hs), 100, public)
    };
    let get = head(false, "GET", "/");
    assert!(check(&get, &[("Host", "a.example")], None).is_ok());
    assert_eq!(check(&get, &[], None), Err(400), "a host is needed");
    assert_eq!(
        check(&get, &[("Host", "a"), ("Host", "b")], None),
        Err(400),
        "one host only"
    );
    assert_eq!(
        check(&get, &[("Host", "a"), ("Transfer-Encoding", "chunked")], None),
        Err(400)
    );
    assert_eq!(
        check(&get, &[("Host", "a"), ("Content-Length", "101")], None),
        Err(413)
    );
    assert_eq!(check(&get, &[("Host", "b.example")], Some("a.example")), Err(421));
    assert!(check(&get, &[("Host", "A.example:443")], Some("a.example")).is_ok());
    let many: Vec<(&str, &str)> = std::iter::repeat(("x", "y")).take(101).collect();
    assert_eq!(check(&get, &many, None), Err(431));
}

#[test]
fn hosts_origins_and_keys() {
    assert!(host_matches_server_name("Edge.Example:8443", "edge.example"));
    assert!(!host_matches_server_name("edge.example.evil", "edge.example"));
    assert!(origin_matches_edge("https://edge.example", "https", "edge.example", 443));
    assert!(origin_matches_edge("https://edge.example:8443", "https", "edge.example", 8443));
    assert!(!origin_matches_edge("http://edge.example", "https", "edge.example", 443));
    assert!(is_valid_websocket_key("dGhlIHNhbXBsZSBub25jZQ=="));
    assert!(!is_valid_websocket_key("dGhlIHNhbXBsZSBub25jZQ"));
    assert!(!is_native_grpc_request_attempt(&[]));
    let native = GrpcHeader {
        header: LoweredHeader::new("content-type".into(), "application/grpc".into()),
        native: true,
        web: false,
        timeout_ok: true,
    };
    assert!(is_native_grpc_request_attempt(&[native]));
}

#[test]
fn requests_are_written_for_the_worker() {
    let mut line = Vec::new();
    assert!(append_header_line(&mut line, "a", "b").is_ok());
    assert_eq!(line, b"a: b\r\n");
    assert_eq!(append_header_line(&mut line, "a", "b\r\nc: d"), Err(400));
    let written = build_worker_request(
        &head(false, "POST", "/x?y=1"),
        &vec![("host".to_string(), "h".to_string())],
        b"abc",
    )
    .unwrap();
    let text = String::from_utf8(written).unwrap();
    assert!(text.starts_with("POST /x?y=1 HTTP/1.1\r\nhost: h\r\n"), "{text}");
    assert!(text.ends_with("\r\n\r\nabc"), "{text}");
    assert!(text.to_ascii_lowercase().contains("content-length: 3\r\n"), "{text}");
}

#[test]
fn bodies_are_read_to_their_length() {
    let mut exact = BodyReader::begin(Some(3), false, 10).unwrap();
    assert!(!exact.is_complete());
    assert_eq!(exact.step(BodyEvent::Chunk { bytes: b"ab".to_vec() }), Ok(false));
    assert_eq!(exact.step(BodyEvent::Chunk { bytes: b"c".to_vec() }), Ok(true));
    assert_eq!(exact.into_body(), b"abc");
    let mut short = BodyReader::begin(Some(3), false, 10).unwrap();
    assert_eq!(short.step(BodyEvent::End), Err(400));
    let mut late = BodyReader::begin(Some(3), false, 10).unwrap();
    assert_eq!(late.step(BodyEvent::TimedOut), Err(408));
    let mut long = BodyReader::begin(Some(3), false, 10).unwrap();
    assert_eq!(long.step(BodyEvent::Chunk { bytes: b"abcd".to_vec() }), Err(400));
    let empty = BodyReader::begin(None, false, 10).unwrap();
    assert!(empty.is_complete());
    let mut stream = BodyReader::begin(None, true, 2).unwrap();
    assert_eq!(stream.step(BodyEvent::Chunk { bytes: b"ab".to_vec() }), Ok(false));
    assert_eq!(stream.step(BodyEvent::Chunk { bytes: b"c".to_vec() }), Err(413));
}

#[test]
fn unreachable_workers_are_passed_over() {
    let mut hop = HttpHop::begin(3, 4);
    assert_eq!(hop.next(), HopMove::Try { worker: 1 });
    assert_eq!(hop.advance(Err(WorkerSendError::Connect)), HopMove::Try { worker: 2 });
    assert_eq!(hop.advance(Err(WorkerSendError::Connect)), HopMove::Try { worker: 0 });
    assert_eq!(
        hop.advance(Err(WorkerSendError::Connect)),
        HopMove::Done { result: Err(503) }
    );
    let mut hop = HttpHop::begin(3, 0);
    assert_eq!(
        hop.advance(Err(WorkerSendError::AfterWrite { status: 502 })),
        HopMove::Done { result: Err(502) },
        "a request that was written is not sent again"
    );
    assert_eq!(HttpHop::begin(0, 9).next(), HopMove::Done { result: Err(503) });
    assert_eq!(send_outcome(SendProgress::ConnectFailed), Err(WorkerSendError::Connect));
    assert_eq!(
        send_outcome(SendProgress::Draining),
        Err(WorkerSendError::AfterWrite { status: 503 })
    );
    assert_eq!(send_outcome(SendProgress::Answered { result: Ok(201) }), Ok(201));
}

#[test]
fn responses_are_taken_apart() {
    assert_eq!(find_header_end(b"a\r\n\r\nb"), Some(1));
    assert_eq!(find_header_end(b"a\r\n"), None);
    assert_eq!(strip_trailing_cr(b"a\r"), b"a");
    assert_eq!(trim_optional_whitespace(b" \ta\t "), b"a");
    assert_eq!(parse_status_line(b"HTTP/1.1 204 No Content"), Ok(204));
    assert_eq!(parse_status_line(b"HTTP/2 200"), Err(502));
    assert_eq!(parse_status_line(b"HTTP/1.1 999"), Err(502));
    let chunked = b"HTTP/1.1 200 OK\r\nTransfer-Encoding: chunked";
    assert_eq!(worker_response_is_chunked(chunked), Ok(true));
    assert_eq!(
        worker_response_is_chunked(b"HTTP/1.1 200 OK\r\nTransfer-Encoding: gzip"),
        Err(502)
    );
    let head = parse_chunked_worker_response_head(chunked, true).unwrap();
    assert_eq!(head.status, 200);
    let whole = b"HTTP/1.1 200 OK\r\nContent-Length: 2\r\nX-A: b\r\n\r\nhi";
    let r = parse_worker_response(whole, true).unwrap();
    assert_eq!((r.status, r.body.as_slice()), (200, b"hi".as_slice()));
    assert!(r.headers.iter().any(|(n, v)| n == "X-A" && v == "b"));
    assert!(
        r.headers.iter().any(|(n, v)| n == "Content-Length" && v == "2"),
        "the length is that of the body"
    );
    assert!(!r.headers.iter().any(|(n, _)| n == "Connection"));
    let wrong = b"HTTP/1.1 200 OK\r\nContent-Length: 3\r\n\r\nhi";
    let r = parse_worker_response(wrong, false).unwrap();
    let lengths: Vec<_> = r.headers.iter().map(|(n, v)| (n.as_str(), v.as_str())).collect();
    assert_eq!(lengths, vec![("Content-Length", "2"), ("Connection", "close")]);
    let folded = b"HTTP/1.1 200 OK\r\nX-A: b\r\n c\r\n\r\n";
    assert_eq!(parse_worker_response(folded, true).err(), Some(502));
    assert_eq!(parse_worker_response(b"HTTP/1.1 200 OK", true).err(), Some(502));
}

#[test]
fn responses_come_in_pieces() {
    let mut r = ResponseReader::new();
    assert!(matches!(r.take_head(b"HTTP/1.1 200 OK\r\n"), Ok(HeadProgress::More)));
    assert!(matches!(
        r.take_head(b"Transfer-Encoding: chunked\r\n\r\n3\r\n"),
        Ok(HeadProgress::Chunked { head_end: 43 })
    ));
    assert_eq!(r.after_head(43), b"3\r\n");
    assert_eq!(ResponseReader::new().take_head(b"").err(), Some(502));
    let mut whole = ResponseReader::new();
    assert!(matches!(
        whole.take_head(b"HTTP/1.1 200 OK\r\n\r\nhi"),
        Ok(HeadProgress::Whole)
    ));
    assert_eq!(whole.take_body(b"!"), Ok(false));
    assert_eq!(whole.take_body(b""), Ok(true));
    assert!(whole.bytes().ends_with(b"hi!"));
}

#[test]
fn chunks_are_read_back() {
    assert_eq!(parse_chunk_size(b"1aF;ext=1"), Ok(0x1af));
    assert_eq!(parse_chunk_size(b""), Err(502));
    assert_eq!(parse_chunk_size(b"g"), Err(502));
    let mut registry = LongLivedRegistry::new(LongLivedLimits {
        max_connections: 1,
        max_buffered_bytes: 4,
        downstream_write_timeout_ms: 1,
    });
    let mut admission = registry.try_admit().unwrap();
    let mut s = ChunkStream::begin(b"3\r\nab".to_vec());
    assert!(s.take_head());
    assert!(!s.take_head());
    assert!(matches!(s.step(&mut admission, &mut registry), ChunkStep::Sized));
    assert!(matches!(s.step(&mut admission, &mut registry), ChunkStep::NeedMore));
    assert!(s.feed(b"c\r\n0\r\n\r\n").is_ok());
    match s.step(&mut admission, &mut registry) {
        ChunkStep::Chunk { bytes } => assert_eq!(bytes, b"abc"),
        _ => panic!("a chunk is there"),
    }
    assert!(matches!(s.step(&mut admission, &mut registry), ChunkStep::Sized));
    assert!(matches!(s.step(&mut admission, &mut registry), ChunkStep::Finished));
    let mut over = ChunkStream::begin(b"2\r\nab\r\n".to_vec());
    assert!(
        matches!(over.step(&mut admission, &mut registry), ChunkStep::Failed),
        "five bytes are more than the connection may hold"
    );
    assert_eq!(over.feed(b""), Err(502));
}

#[test]
fn frames_are_cut_out_of_what_was_read() {
    let mut b = FrameReadBuffer::new();
    assert_eq!(b.available(), 0);
    assert_eq!(b.take_read(b"", true), Ok(false));
    assert_eq!(b.take_read(b"", false), Err(502));
    assert_eq!(b.take_read(b"\x00\x00\x00\x02hixx", false), Ok(true));
    assert_eq!(b.prefix_bytes(4), b"\x00\x00\x00\x02");
    assert_eq!(b.next_read(4, Ok(2), true), Ok(NextRead::Decode { total: 6 }));
    assert_eq!(b.envelope(4, 6), b"hi");
    b.consume(6);
    assert!(b.has_surplus());
    b.compact();
    assert_eq!(b.available(), 2);
    assert_eq!(b.next_read(4, Err(()), true), Ok(NextRead::Prefix { upto: 4 }));
}
