//! Request frames, response heads and the read buffer.
use oxo_pingora_edge::frame_buffer::{FrameReadBuffer, NextRead};
use oxo_pingora_edge::request_frame::{
    assemble_request_frame, assemble_request_frame_owned, build_request_frame, build_response_chunked_header,
    build_response_header, response_frame_caps, FrameHeaderPlan, FrameRequest, PathAndQuery,
};
use oxo_pingora_edge::worker_response::ResponseHead;
use oxo_pingora_edge::worker_wire::LoweredHeader;

const RESERVED_PREFIX_CASES: &[(&str, bool)] = &[
    ("x-oxo-", true),
    ("x-oxo-a", true),
    ("X-OxO-Request-Id", true),
    ("x-oxo-remote-addr", true),
    ("x-oxo", false),
    ("x-oxox-a", false),
    ("x-real", false),
    ("host", false),
];

fn request<'a>(authority: Option<&'a str>) -> FrameRequest<'a> {
    FrameRequest {
        method: "GET",
        path: "/",
        query: "",
        authority,
        url_scheme: "http",
        server_name: "localhost",
        server_port: 80,
        remote_addr: "127.0.0.1",
    }
}

fn pair(name: &str, value: &str) -> (String, String) {
    (name.to_string(), value.to_string())
}

#[test]
fn frame_builder_rejects_reserved_headers_if_sanitizer_keeps_them() {
    let plan = FrameHeaderPlan {
        keep: [1, 0],
        survivor_count: 1,
        has_host: false,
    };
    for &(name, reserved) in RESERVED_PREFIX_CASES {
        let headers = [LoweredHeader::new(name.into(), "value".into())];
        let result = assemble_request_frame(&request(None), &headers, &plan, b"", None);
        if reserved {
            assert_eq!(result.err(), Some(400), "{name}");
        } else {
            assert!(result.is_ok(), "{name}");
        }
    }
}

#[test]
fn owned_frame_builder_strips_only_reserved_headers() {
    for &(name, reserved) in RESERVED_PREFIX_CASES {
        let headers = vec![(name.to_string(), "value".to_string())];
        let expected = if reserved { vec![] } else { headers.clone() };
        let frame = assemble_request_frame_owned(&request(None), &headers, vec![]);
        assert_eq!(frame.headers, expected, "{name}");
    }
}

fn get(head: &ResponseHead, name: &str) -> Option<String> {
    head.headers
        .iter()
        .find(|(n, _)| n.eq_ignore_ascii_case(name))
        .map(|(_, v)| v.clone())
}

#[test]
fn response_header_omits_connection_close_only_under_keepalive() {
    let headers = vec![pair("content-type", "text/plain")];
    let h = build_response_header(200, &headers, 2, false);
    assert_eq!(get(&h, "connection").as_deref(), Some("close"));
    assert_eq!(get(&h, "content-length").as_deref(), Some("2"));
    let h = build_response_header(200, &headers, 2, true);
    assert!(
        get(&h, "connection").is_none(),
        "keepalive must omit the explicit Connection: close"
    );
    assert_eq!(get(&h, "content-length").as_deref(), Some("2"));
    let c = build_response_chunked_header(200, &headers, false);
    assert_eq!(get(&c, "connection").as_deref(), Some("close"));
    let c = build_response_chunked_header(200, &headers, true);
    assert!(get(&c, "connection").is_none());
}

#[test]
fn framing_headers_of_a_worker_never_reach_the_client() {
    let headers = vec![
        pair("Content-Length", "9"),
        pair("X-A", "1"),
        pair("transfer-encoding", "chunked"),
        pair("CONNECTION", "keep-alive"),
        pair("X-B", "2"),
    ];
    let h = build_response_header(201, &headers, 3, true);
    assert_eq!(h.status, 201);
    assert_eq!(
        h.headers,
        vec![pair("X-A", "1"), pair("X-B", "2"), pair("Content-Length", "3")]
    );
    let c = build_response_chunked_header(201, &headers, true);
    assert_eq!(c.headers, vec![pair("X-A", "1"), pair("X-B", "2")]);
}

#[test]
fn a_host_is_made_up_first_and_the_stamp_comes_last() {
    let headers = [
        LoweredHeader::new("Accept".into(), "*/*".into()),
        LoweredHeader::new("te".into(), "trailers".into()),
        LoweredHeader::new("X-Real".into(), "kept".into()),
    ];
    let plan = FrameHeaderPlan {
        keep: [0b101, 0],
        survivor_count: 2,
        has_host: false,
    };
    let frame = assemble_request_frame(
        &request(Some("h2.example:8443")),
        &headers,
        &plan,
        b"body",
        Some("17"),
    )
    .unwrap();
    assert_eq!(
        frame.headers,
        vec![
            pair("host", "h2.example:8443"),
            pair("Accept", "*/*"),
            pair("X-Real", "kept"),
            pair("x-oxo-ts0", "17"),
        ]
    );
    assert_eq!(frame.body, b"body".to_vec());
    assert!(!frame.https);
    assert!(plan.keeps(0) && !plan.keeps(1) && plan.keeps(2) && !plan.keeps(128));
    let plain = assemble_request_frame(&request(Some("h2.example:8443")), &headers, &plan, b"body", None)
        .unwrap();
    let owned = assemble_request_frame_owned(
        &request(Some("h2.example:8443")),
        &vec![pair("Accept", "*/*"), pair("X-Real", "kept")],
        b"body".to_vec(),
    );
    assert_eq!(plain.headers, owned.headers, "both builders agree");
}

#[test]
fn a_frame_needs_a_path() {
    let plan = FrameHeaderPlan {
        keep: [0, 0],
        survivor_count: 0,
        has_host: true,
    };
    let none = build_request_frame(&request(None), None, &[], &plan, b"", None);
    assert_eq!(none.err(), Some(400));
    let target = PathAndQuery {
        path: "/p",
        query: None,
    };
    let frame = build_request_frame(&request(None), Some(target), &[], &plan, b"", None).unwrap();
    assert_eq!((frame.path.as_str(), frame.query.as_str()), ("/p", ""));
    let caps = response_frame_caps();
    assert_eq!(
        (caps.max_header_bytes, caps.max_headers, caps.max_body_bytes),
        (65536, 100, 67108864)
    );
}

#[test]
fn bytes_of_a_frame_may_arrive_in_any_pieces() {
    let mut b = FrameReadBuffer::new();
    assert_eq!(b.available(), 0);
    assert_eq!(b.take_read(&[], true), Ok(false), "a clean end before anything");
    assert_eq!(b.take_read(&[], false), Err(502));
    assert_eq!(b.take_read(&[0, 3], true), Ok(true));
    assert_eq!(b.take_read(&[], true), Err(502), "an end in the middle of a frame");
    assert_eq!(b.buffered_frame_len(3, Ok(2)), Ok(None));
    assert_eq!(
        b.next_read(3, Ok(2), true),
        Ok(NextRead::Prefix { upto: 3 }),
    );
    assert_eq!(b.take_read(&[0, 7, 8, 9], false), Ok(true));
    assert_eq!(b.prefix_bytes(3), vec![0, 3, 0]);
    assert_eq!(b.buffered_frame_len(3, Err(())), Err(502));
    assert_eq!(b.buffered_frame_len(3, Ok(2)), Ok(Some(5)));
    assert_eq!(b.next_read(3, Ok(2), true), Ok(NextRead::Decode { total: 5 }));
    assert_eq!(
        b.next_read(3, Ok(9), false),
        Ok(NextRead::Rest {
            upto: 12,
            heed_drain: false
        })
    );
    assert_eq!(
        b.next_read(3, Ok(9), true),
        Ok(NextRead::Rest {
            upto: 12,
            heed_drain: true
        }),
        "a drain is heeded before the wait for the rest"
    );
    assert_eq!(b.next_read(3, Err(()), true), Err(502));
    assert_eq!(b.envelope(3, 5), vec![7, 8]);
    b.consume(5);
    assert!(b.has_surplus());
    b.compact();
    assert_eq!(b.prefix_bytes(1), vec![9]);
    b.consume(1);
    assert!(!b.has_surplus());
}

#[test]
fn eof_after_partial_prefix_is_502_never_stale() {
    let mut b = FrameReadBuffer::new();
    assert_eq!(b.take_read(&[1, 2], true), Ok(true));
    assert_eq!(
        b.take_read(&[], true),
        Err(502),
        "partial prefix + EOF must be a committed-bytes error, not a stale signal"
    );
    let mut fresh = FrameReadBuffer::new();
    assert_eq!(
        fresh.take_read(&[], true),
        Ok(false),
        "EOF at zero bytes is the stale-before-dispatch signal"
    );
}

#[test]
fn surplus_behind_full_frame_is_dirty() {
    let mut b = FrameReadBuffer::new();
    b.take_read(&[0, 0, 2, 7, 8, 0, 0, 1, 9], true).unwrap();
    assert_eq!(b.next_read(3, Ok(2), false), Ok(NextRead::Decode { total: 5 }));
    b.consume(5);
    assert!(
        b.has_surplus(),
        "a complete extra frame behind Full must read as surplus (dirty, never pooled)"
    );
}

#[test]
fn drain_with_partial_next_frame_marks_dirty() {
    let mut b = FrameReadBuffer::new();
    b.take_read(&[0, 0, 2, 7, 8, 0, 0], true).unwrap();
    assert_eq!(
        b.next_read(3, Ok(2), true),
        Ok(NextRead::Decode { total: 5 }),
        "complete buffered frame drains"
    );
    b.consume(5);
    b.compact();
    assert_eq!(b.next_read(3, Err(()), true), Ok(NextRead::Prefix { upto: 3 }));
    assert!(b.has_surplus(), "partial next frame is surplus — the connection is dirty");
}
