//! The rules a request must meet before a worker sees it, and the request as it is
//! written to a worker.
use vstd::prelude::*;
use vstd::utf8::encode_utf8;

use crate::limits::{MAX_REQUEST_HEADERS, MAX_REQUEST_HEADER_BYTES};
use crate::text::{
    after_last, all_white, as_deref, byte_len, case_does_not_count, chars_of, decimal, eq_fold,
    find_char, first, is_white, last, lemma_first_at, lemma_last_at, lower, lower_char, lowered, numbers_are_read_back,
    opt_str, opt_view, parse_whole, pieces_of_joined_texts, same, same_fold, split,
    split_at_char, starts_with, trim, trimmed, trimming_takes_what_is_around, views, whole,
};

verus! {

/// One header of a request, with its name in lower case beside it.
pub struct LoweredHeader {
    pub name: String,
    pub value: String,
    pub lower: String,
}

impl LoweredHeader {
    pub fn new(name: String, value: String) -> (h: LoweredHeader)
        ensures
            h.name@ == name@,
            h.value@ == value@,
            h.lower@ == lowered(name@),
    {
        let l = lower(name.as_str());
        LoweredHeader { name, value, lower: l }
    }
}

/// The first line of a request and where it is addressed to.
pub struct RequestHead {
    pub http2: bool,
    pub method: String,
    pub scheme: Option<String>,
    pub authority: Option<String>,
    pub path_and_query: Option<String>,
    pub path: String,
}

/// The bytes that a header name is made of.
pub open spec fn is_token_byte(b: u8) -> bool {
    ||| 48 <= b <= 57
    ||| 65 <= b <= 90
    ||| 97 <= b <= 122
    ||| b == 33
    ||| 35 <= b <= 39
    ||| b == 42
    ||| b == 43
    ||| b == 45
    ||| b == 46
    ||| 94 <= b <= 96
    ||| b == 124
    ||| b == 126
}

/// The bytes of a header name are the visible ASCII characters but for the delimiters of
/// HTTP, which are the quote, the comma, the slash, the colon, the semicolon, the at sign,
/// the question mark, the equals sign and the brackets of every kind with the backslash.
pub proof fn names_hold_no_delimiter(b: u8)
    ensures
        is_token_byte(b) <==> 33 <= b <= 126 && !seq![
            34u8,
            40u8,
            41u8,
            44u8,
            47u8,
            58u8,
            59u8,
            60u8,
            61u8,
            62u8,
            63u8,
            64u8,
            91u8,
            92u8,
            93u8,
            123u8,
            125u8,
        ].contains(b),
        is_control_byte(b) <==> b != 9 && (b < 32 || b == 127),
{
    let delimiters = seq![
        34u8,
        40u8,
        41u8,
        44u8,
        47u8,
        58u8,
        59u8,
        60u8,
        61u8,
        62u8,
        63u8,
        64u8,
        91u8,
        92u8,
        93u8,
        123u8,
        125u8,
    ];
    assert(delimiters[0] == 34 && delimiters[1] == 40 && delimiters[2] == 41 && delimiters[3] == 44
        && delimiters[4] == 47 && delimiters[5] == 58 && delimiters[6] == 59 && delimiters[7] == 60
        && delimiters[8] == 61 && delimiters[9] == 62 && delimiters[10] == 63 && delimiters[11]
        == 64 && delimiters[12] == 91 && delimiters[13] == 92 && delimiters[14] == 93
        && delimiters[15] == 123 && delimiters[16] == 125);
}

/// A header name is one or more such bytes.
pub open spec fn valid_name(bytes: Seq<u8>) -> bool {
    bytes.len() > 0 && forall|i: int| 0 <= i < bytes.len() ==> is_token_byte(#[trigger] bytes[i])
}

/// The bytes that no header value may hold: the control characters but for the tab.
pub open spec fn is_control_byte(b: u8) -> bool {
    b <= 8 || 10 <= b <= 31 || b == 127
}

pub open spec fn has_control(bytes: Seq<u8>) -> bool {
    exists|i: int| 0 <= i < bytes.len() && is_control_byte(#[trigger] bytes[i])
}

pub fn is_valid_header_name(bytes: &[u8]) -> (r: bool)
    ensures
        r == valid_name(bytes@),
{
    if bytes.len() == 0 {
        return false;
    }
    let mut i: usize = 0;
    while i < bytes.len()
        invariant
            i <= bytes@.len(),
            forall|j: int| 0 <= j < i ==> is_token_byte(#[trigger] bytes@[j]),
        decreases bytes@.len() - i,
    {
        let b: u8 = bytes[i];
        let ok: bool = (48 <= b && b <= 57) || (65 <= b && b <= 90) || (97 <= b && b <= 122) || b
            == 33 || (35 <= b && b <= 39) || b == 42 || b == 43 || b == 45 || b == 46 || (94 <= b
            && b <= 96) || b == 124 || b == 126;
        if !ok {
            assert(!is_token_byte(bytes@[i as int]));
            return false;
        }
        i += 1;
    }
    true
}

pub fn has_invalid_header_value_bytes(bytes: &[u8]) -> (r: bool)
    ensures
        r == has_control(bytes@),
{
    let mut i: usize = 0;
    while i < bytes.len()
        invariant
            i <= bytes@.len(),
            forall|j: int| 0 <= j < i ==> !is_control_byte(#[trigger] bytes@[j]),
        decreases bytes@.len() - i,
    {
        let b: u8 = bytes[i];
        if b <= 8 || (10 <= b && b <= 31) || b == 127 {
            assert(is_control_byte(bytes@[i as int]));
            return true;
        }
        i += 1;
    }
    false
}

/// What a header adds to the size of the head: name, value and four bytes of
/// punctuation.
pub open spec fn header_weight(name: Seq<char>, value: Seq<char>) -> nat {
    byte_len(name) + byte_len(value) + 4
}

/// The size of a list of headers.
pub open spec fn weight(hs: Seq<LoweredHeader>) -> nat
    decreases hs.len(),
{
    if hs.len() == 0 {
        0
    } else {
        weight(hs.drop_last()) + header_weight(hs.last().name@, hs.last().value@)
    }
}

/// Adds one header to the running size: a bad name is refused with 400, a head that
/// grew too large with 431.
pub fn accumulate_header_bytes(header_bytes: usize, name: &str, value: &str) -> (r: Result<
    usize,
    u16,
>)
    ensures
        r == (if !valid_name(encode_utf8(name@)) {
            Err::<usize, u16>(400)
        } else if header_bytes + header_weight(name@, value@) > MAX_REQUEST_HEADER_BYTES {
            Err::<usize, u16>(431)
        } else {
            Ok::<usize, u16>((header_bytes + header_weight(name@, value@)) as usize)
        }),
{
    if !is_valid_header_name(name.as_bytes()) {
        return Err(400);
    }
    let sum: usize = header_bytes.saturating_add(name.as_bytes().len()).saturating_add(
        value.as_bytes().len(),
    ).saturating_add(4);
    if sum > MAX_REQUEST_HEADER_BYTES {
        return Err(431);
    }
    Ok(sum)
}

/// The fault of the first prefix of `s` that has one, where `f` judges a prefix by
/// its last item.
pub open spec fn first_fault<T>(s: Seq<T>, f: spec_fn(Seq<T>) -> Option<u16>) -> Option<u16>
    decreases s.len(),
{
    if s.len() == 0 {
        None
    } else {
        match first_fault(s.drop_last(), f) {
            Some(status) => Some(status),
            None => f(s),
        }
    }
}

proof fn lemma_fault_stands<T>(s: Seq<T>, f: spec_fn(Seq<T>) -> Option<u16>, i: int)
    requires
        0 <= i <= s.len(),
        first_fault(s.take(i), f) is Some,
    ensures
        first_fault(s, f) == first_fault(s.take(i), f),
    decreases s.len() - i,
{
    if i < s.len() {
        assert(s.take(i + 1).drop_last() =~= s.take(i));
        lemma_fault_stands(s, f, i + 1);
    } else {
        assert(s.take(i) =~= s);
    }
}

/// The fault of the last of `hs`: a bad name, a head that grew too large, or what
/// `content` says.
pub open spec fn header_fault(hs: Seq<LoweredHeader>, content: Option<u16>) -> Option<u16> {
    if !valid_name(encode_utf8(hs.last().name@)) {
        Some(400)
    } else if weight(hs) > MAX_REQUEST_HEADER_BYTES {
        Some(431)
    } else {
        content
    }
}

/// The number of headers called `name`.
pub open spec fn named(hs: Seq<LoweredHeader>, name: Seq<char>) -> nat
    decreases hs.len(),
{
    if hs.len() == 0 {
        0
    } else {
        named(hs.drop_last(), name) + (if hs.last().lower@ == name { 1nat } else { 0 })
    }
}

/// The value of the last header called `name`.
pub open spec fn value_of(hs: Seq<LoweredHeader>, name: Seq<char>) -> Option<Seq<char>>
    decreases hs.len(),
{
    if hs.len() == 0 {
        None
    } else if hs.last().lower@ == name {
        Some(hs.last().value@)
    } else {
        value_of(hs.drop_last(), name)
    }
}

/// Whether one of the comma-separated tokens of `value` equals `token` up to case and
/// white space.
pub open spec fn has_token(value: Seq<char>, token: Seq<char>) -> bool {
    exists|i: int|
        0 <= i < split_at_char(value, ',').len() && same_fold(
            trimmed(#[trigger] split_at_char(value, ',')[i]),
            token,
        )
}

fn names_token(value: &str, token: &str) -> (r: bool)
    ensures
        r == has_token(value@, token@),
{
    let parts = split(value, ',');
    let ghost tokens = split_at_char(value@, ',');
    let mut i: usize = 0;
    while i < parts.len()
        invariant
            i <= parts@.len(),
            views(parts@) == tokens,
            tokens == split_at_char(value@, ','),
            forall|j: int| 0 <= j < i ==> !same_fold(trimmed(#[trigger] tokens[j]), token@),
        decreases parts@.len() - i,
    {
        assert(tokens[i as int] == parts@[i as int]@);
        if eq_fold(trim(parts[i].as_str()), token) {
            return true;
        }
        i += 1;
    }
    assert(tokens.len() == parts@.len());
    false
}

/// Whether a `Connection` value asks for nothing but to close.
pub open spec fn only_close(value: Seq<char>) -> bool {
    forall|i: int|
        0 <= i < split_at_char(value, ',').len() ==> {
            let t = trimmed(#[trigger] split_at_char(value, ',')[i]);
            t.len() == 0 || same_fold(t, "close"@)
        }
}

fn asks_only_close(value: &str) -> (r: bool)
    ensures
        r == only_close(value@),
{
    let parts = split(value, ',');
    let ghost tokens = split_at_char(value@, ',');
    let mut i: usize = 0;
    while i < parts.len()
        invariant
            i <= parts@.len(),
            views(parts@) == tokens,
            tokens == split_at_char(value@, ','),
            forall|j: int|
                0 <= j < i ==> {
                    let t = trimmed(#[trigger] tokens[j]);
                    t.len() == 0 || same_fold(t, "close"@)
                },
        decreases parts@.len() - i,
    {
        assert(tokens[i as int] == parts@[i as int]@);
        let t = trim(parts[i].as_str());
        if !t.is_empty() && !eq_fold(t, "close") {
            return false;
        }
        i += 1;
    }
    assert(tokens.len() == parts@.len());
    true
}

/// What is wrong with a header of an ordinary request: headers that belong to one hop
/// or announce a body the edge does not take.
pub open spec fn client_content_fault(h: LoweredHeader, http2: bool) -> Option<u16> {
    let l = h.lower@;
    if l == "te"@ {
        if http2 && same_fold(trimmed(h.value@), "trailers"@) { None } else { Some(400) }
    } else if l == "expect"@ || l == "trailer"@ || l == "transfer-encoding"@ || l
        == "http2-settings"@ || l == "keep-alive"@ || l == "proxy-connection"@ {
        Some(400)
    } else if l == "connection"@ && !only_close(h.value@) {
        Some(400)
    } else {
        None
    }
}

/// The fault of the last of `hs` in an ordinary request.
pub open spec fn client_fault(http2: bool) -> spec_fn(Seq<LoweredHeader>) -> Option<u16> {
    |hs: Seq<LoweredHeader>| header_fault(hs, client_content_fault(hs.last(), http2))
}

/// The host name that `presented` names, without a port, equals `expected` up to case.
pub open spec fn host_matches(presented: Seq<char>, expected: Seq<char>) -> bool {
    let host = trimmed(presented);
    if host.len() > 0 && host[0] == '[' && first(host, ']') < host.len() {
        same_fold(host.subrange(1, first(host, ']')), expected)
    } else {
        same_fold(host.take(first(host, ':')), expected)
    }
}

pub fn host_matches_server_name(presented: &str, expected: &str) -> (r: bool)
    ensures
        r == host_matches(presented@, expected@),
{
    let host = trim(presented);
    let n: usize = host.unicode_len();
    if starts_with(host, '[') {
        let close: usize = find_char(host, ']');
        if close < n {
            proof {
                crate::text::lemma_first_range(host@, ']');
            }
            return eq_fold(host.substring_char(1, close), expected);
        }
    }
    let colon: usize = find_char(host, ':');
    assert(host@.subrange(0, colon as int) =~= host@.take(colon as int));
    eq_fold(host.substring_char(0, colon), expected)
}

/// Whether the host a public request names, and the `Host` header beside it, are the
/// edge's own.
pub open spec fn is_public_host(
    expected: Seq<char>,
    presented: Seq<char>,
    host: Option<Seq<char>>,
) -> bool {
    host_matches(presented, expected) && (host matches Some(h) ==> host_matches(h, expected))
}

/// A request for somebody else's host is misdirected: 421.
pub fn check_public_host(expected: &str, presented: &str, host_value: Option<&str>) -> (r: Result<
    (),
    u16,
>)
    ensures
        r == (if is_public_host(expected@, presented@, opt_str(host_value)) {
            Ok::<(), u16>(())
        } else {
            Err::<(), u16>(421)
        }),
{
    if !host_matches_server_name(presented, expected) {
        return Err(421);
    }
    if let Some(host) = host_value {
        if !host_matches_server_name(host, expected) {
            return Err(421);
        }
    }
    Ok(())
}

/// The body length that the headers announce: at most one `Content-Length`, a whole
/// number.
pub open spec fn announced(hs: Seq<LoweredHeader>) -> Result<Option<u64>, u16> {
    if named(hs, "content-length"@) == 0 {
        Ok(None)
    } else if named(hs, "content-length"@) == 1 {
        match whole(trimmed(value_of(hs, "content-length"@)->0), u64::MAX as nat) {
            Some(n) => Ok(Some(n as u64)),
            None => Err(400),
        }
    } else {
        Err(400)
    }
}

proof fn lemma_named_grows(hs: Seq<LoweredHeader>, name: Seq<char>, i: int)
    requires
        0 <= i <= hs.len(),
    ensures
        named(hs.take(i), name) <= named(hs, name),
        named(hs.take(i), name) == named(hs, name) ==> value_of(hs.take(i), name) == value_of(
            hs,
            name,
        ),
    decreases hs.len() - i,
{
    if i < hs.len() {
        lemma_named_grows(hs, name, i + 1);
        assert(hs.take(i + 1).drop_last() =~= hs.take(i));
    } else {
        assert(hs.take(i) =~= hs);
    }
}

proof fn lemma_named_value(hs: Seq<LoweredHeader>, name: Seq<char>)
    ensures
        named(hs, name) == 0 <==> value_of(hs, name) is None,
    decreases hs.len(),
{
    if hs.len() > 0 {
        lemma_named_value(hs.drop_last(), name);
    }
}

pub fn content_length(headers: &[LoweredHeader]) -> (r: Result<Option<u64>, u16>)
    ensures
        r == announced(headers@),
{
    let mut seen: Option<u64> = None;
    let mut i: usize = 0;
    let ghost hs = headers@;
    let ghost name = "content-length"@;
    assert(hs.take(0) =~= Seq::<LoweredHeader>::empty());
    while i < headers.len()
        invariant
            i <= headers@.len(),
            hs == headers@,
            name == "content-length"@,
            seen is None ==> named(hs.take(i as int), name) == 0,
            seen matches Some(n) ==> named(hs.take(i as int), name) == 1 && value_of(
                hs.take(i as int),
                name,
            ) is Some && whole(trimmed(value_of(hs.take(i as int), name)->0), u64::MAX as nat)
                == Some(n as nat),
        decreases headers@.len() - i,
    {
        let h = &headers[i];
        assert(hs.take(i + 1).drop_last() =~= hs.take(i as int));
        proof {
            lemma_named_grows(hs, name, i + 1);
        }
        if same(h.lower.as_str(), "content-length") {
            if seen.is_some() {
                return Err(400);
            }
            match parse_whole(trim(h.value.as_str()), u64::MAX) {
                None => {
                    return Err(400);
                },
                Some(n) => {
                    seen = Some(n);
                },
            }
        }
        i += 1;
    }
    assert(hs.take(i as int) =~= hs);
    Ok(seen)
}

/// Whether a request line is one that the edge serves: a path, and an address in the
/// place where its protocol version puts it.
pub open spec fn well_addressed(req: RequestHead) -> bool {
    &&& req.path_and_query matches Some(p) && p@.len() > 0 && p@[0] == '/'
    &&& if req.http2 {
        &&& req.scheme matches Some(s) ==> same_fold(s@, "https"@)
        &&& req.authority is Some
    } else {
        req.scheme is None && req.authority is None
    }
    &&& !same_fold(req.method@, "CONNECT"@)
}

/// Whether the request names one host: HTTP/1 by one `Host` header, HTTP/2 by its
/// authority, which a `Host` header must repeat.
pub open spec fn names_one_host(req: RequestHead, hs: Seq<LoweredHeader>) -> bool {
    &&& named(hs, "host"@) <= 1
    &&& if req.http2 {
        value_of(hs, "host"@) matches Some(h) ==> req.authority matches Some(a) ==> same_fold(
            h,
            a@,
        )
    } else {
        named(hs, "host"@) == 1
    }
}

/// The host that a request presents as its destination.
pub open spec fn presented_host(req: RequestHead, hs: Seq<LoweredHeader>) -> Option<Seq<char>> {
    if req.http2 { opt_view(req.authority) } else { value_of(hs, "host"@) }
}

/// Whether the host of the request is the public one, where the edge has one.
pub open spec fn rightly_directed(
    req: RequestHead,
    hs: Seq<LoweredHeader>,
    server_name: Option<Seq<char>>,
) -> bool {
    server_name matches Some(expected) ==> (presented_host(req, hs) matches Some(p)
        && is_public_host(expected, p, value_of(hs, "host"@)))
}

/// What is owed to an ordinary request: the body length it announces, or the status
/// of its first fault.
pub open spec fn client_verdict(
    req: RequestHead,
    hs: Seq<LoweredHeader>,
    max_body_bytes: u64,
    server_name: Option<Seq<char>>,
) -> Result<Option<u64>, u16> {
    if !well_addressed(req) {
        Err(400)
    } else if hs.len() > MAX_REQUEST_HEADERS {
        Err(431)
    } else {
        match first_fault(hs, client_fault(req.http2)) {
            Some(status) => Err(status),
            None => if !names_one_host(req, hs) {
                Err(400)
            } else if !rightly_directed(req, hs, server_name) {
                Err(421)
            } else {
                match announced(hs) {
                    Err(status) => Err(status),
                    Ok(Some(len)) => if len > max_body_bytes {
                        Err(413)
                    } else {
                        Ok(Some(len))
                    },
                    Ok(None) => Ok(None),
                }
            },
        }
    }
}

fn is_well_addressed(req: &RequestHead) -> (r: bool)
    ensures
        r == well_addressed(*req),
{
    match &req.path_and_query {
        None => {
            return false;
        },
        Some(p) => if !starts_with(p.as_str(), '/') {
            return false;
        },
    }
    if req.http2 {
        if let Some(s) = &req.scheme {
            if !eq_fold(s.as_str(), "https") {
                return false;
            }
        }
        if req.authority.is_none() {
            return false;
        }
    } else if req.scheme.is_some() || req.authority.is_some() {
        return false;
    }
    !eq_fold(req.method.as_str(), "CONNECT")
}

fn has_client_fault(h: &LoweredHeader, http2: bool) -> (r: bool)
    ensures
        client_content_fault(*h, http2) == (if r { Some(400u16) } else { None }),
{
    let l = h.lower.as_str();
    if same(l, "te") {
        return !(http2 && eq_fold(trim(h.value.as_str()), "trailers"));
    }
    if same(l, "expect") || same(l, "trailer") || same(l, "transfer-encoding") || same(
        l,
        "http2-settings",
    ) || same(l, "keep-alive") || same(l, "proxy-connection") {
        return true;
    }
    same(l, "connection") && !asks_only_close(h.value.as_str())
}

/// Judges an ordinary request.
pub fn validate_client_request(
    req: &RequestHead,
    headers: &[LoweredHeader],
    max_body_bytes: u64,
    public_server_name: Option<&str>,
) -> (r: Result<Option<u64>, u16>)
    ensures
        r == client_verdict(*req, headers@, max_body_bytes, opt_str(public_server_name)),
{
    if !is_well_addressed(req) {
        return Err(400);
    }
    if headers.len() > MAX_REQUEST_HEADERS {
        return Err(431);
    }
    let ghost hs = headers@;
    let ghost f = client_fault(req.http2);
    let mut host_count: usize = 0;
    let mut host_value: Option<&str> = None;
    let mut header_bytes: usize = 0;
    let mut i: usize = 0;
    assert(hs.take(0) =~= Seq::<LoweredHeader>::empty());
    while i < headers.len()
        invariant
            i <= headers@.len() <= MAX_REQUEST_HEADERS,
            hs == headers@,
            well_addressed(*req),
            f == client_fault(req.http2),
            first_fault(hs.take(i as int), f) is None,
            header_bytes == weight(hs.take(i as int)),
            host_count == named(hs.take(i as int), "host"@),
            host_count <= i,
            opt_str(host_value) == value_of(hs.take(i as int), "host"@),
        decreases headers@.len() - i,
    {
        let h = &headers[i];
        let ghost next = hs.take(i + 1);
        proof {
            assert(next.drop_last() =~= hs.take(i as int));
            assert(next.last() == *h);
            if first_fault(next, f) is Some {
                lemma_fault_stands(hs, f, i + 1);
            }
            assert(first_fault(next, f) == f(next));
        }
        match accumulate_header_bytes(header_bytes, h.name.as_str(), h.value.as_str()) {
            Err(status) => {
                return Err(status);
            },
            Ok(sum) => {
                header_bytes = sum;
            },
        }
        if same(h.lower.as_str(), "host") {
            host_count = host_count + 1;
            host_value = Some(h.value.as_str());
        }
        if has_client_fault(h, req.http2) {
            return Err(400);
        }
        i += 1;
    }
    assert(hs.take(i as int) =~= hs);
    if host_count > 1 {
        return Err(400);
    }
    let authority = as_deref(&req.authority);
    if req.http2 {
        if let (Some(host), Some(name)) = (host_value, authority) {
            if !eq_fold(host, name) {
                return Err(400);
            }
        }
    } else if host_count != 1 {
        return Err(400);
    }
    if let Some(expected) = public_server_name {
        let presented = if req.http2 {
            authority
        } else {
            host_value
        };
        proof {
            lemma_named_value(hs, "host"@);
        }
        match presented {
            None => {
                return Err(400);
            },
            Some(p) => {
                if let Err(status) = check_public_host(expected, p, host_value) {
                    return Err(status);
                }
            },
        }
    }
    match content_length(headers) {
        Err(status) => Err(status),
        Ok(None) => Ok(None),
        Ok(Some(len)) => if len > max_body_bytes {
            Err(413)
        } else {
            Ok(Some(len))
        },
    }
}

proof fn lemma_no_refused_header(hs: Seq<LoweredHeader>, http2: bool, name: Seq<char>)
    requires
        first_fault(hs, client_fault(http2)) is None,
        name == "transfer-encoding"@ || name == "expect"@ || name == "trailer"@ || name
            == "http2-settings"@ || name == "keep-alive"@ || name == "proxy-connection"@,
        "te"@ != name,
    ensures
        named(hs, name) == 0,
        weight(hs) <= MAX_REQUEST_HEADER_BYTES,
    decreases hs.len(),
{
    if hs.len() > 0 {
        lemma_no_refused_header(hs.drop_last(), http2, name);
        assert(client_fault(http2)(hs) is None);
    }
}

/// A request that passes reads one way only: it has one host and at most one length, which
/// is within the cap, no other framing of its body, and a head of bounded size.
pub proof fn accepted_requests_are_unambiguous(
    req: RequestHead,
    hs: Seq<LoweredHeader>,
    max_body_bytes: u64,
    server_name: Option<Seq<char>>,
)
    requires
        client_verdict(req, hs, max_body_bytes, server_name) is Ok,
    ensures
        named(hs, "transfer-encoding"@) == 0,
        named(hs, "content-length"@) <= 1,
        named(hs, "host"@) <= 1,
        !req.http2 ==> named(hs, "host"@) == 1,
        req.http2 ==> req.authority is Some,
        hs.len() <= MAX_REQUEST_HEADERS,
        weight(hs) <= MAX_REQUEST_HEADER_BYTES,
        client_verdict(req, hs, max_body_bytes, server_name) matches Ok(Some(len)) ==> len
            <= max_body_bytes,
{
    reveal_strlit("te");
    reveal_strlit("transfer-encoding");
    assert("te"@.len() != "transfer-encoding"@.len());
    lemma_no_refused_header(hs, req.http2, "transfer-encoding"@);
}

/// The `i`-th of `hs` is the last that is called `name`.
pub open spec fn last_at(hs: Seq<LoweredHeader>, name: Seq<char>, i: int) -> bool {
    &&& 0 <= i < hs.len()
    &&& hs[i].lower@ == name
    &&& forall|j: int| i < j < hs.len() ==> (#[trigger] hs[j]).lower@ != name
}

/// The `i`-th of `hs` is the only one that is called `name`.
pub open spec fn only_at(hs: Seq<LoweredHeader>, name: Seq<char>, i: int) -> bool {
    &&& 0 <= i < hs.len()
    &&& hs[i].lower@ == name
    &&& forall|j: int| 0 <= j < hs.len() && j != i ==> (#[trigger] hs[j]).lower@ != name
}

/// None of `hs` is called `name`.
pub open spec fn absent(hs: Seq<LoweredHeader>, name: Seq<char>) -> bool {
    forall|j: int| 0 <= j < hs.len() ==> (#[trigger] hs[j]).lower@ != name
}

/// Headers are counted and found by their names: none, one, or the last of several.
pub proof fn headers_are_found_by_name(hs: Seq<LoweredHeader>, name: Seq<char>, i: int, j: int)
    ensures
        absent(hs, name) <==> named(hs, name) == 0,
        absent(hs, name) <==> value_of(hs, name) is None,
        last_at(hs, name, i) ==> value_of(hs, name) == Some(hs[i].value@),
        only_at(hs, name, i) ==> named(hs, name) == 1 && value_of(hs, name) == Some(hs[i].value@),
        named(hs, name) == 1 ==> exists|k: int| only_at(hs, name, k),
        0 <= i < j < hs.len() && hs[i].lower@ == name && hs[j].lower@ == name ==> named(hs, name)
            >= 2,
        value_of(hs, name) is Some ==> exists|k: int| last_at(hs, name, k),
    decreases hs.len(),
{
    if hs.len() > 0 {
        let rest = hs.drop_last();
        let n = hs.len() - 1;
        assert(hs.last() == hs[n]);
        headers_are_found_by_name(rest, name, i, j);
        if absent(hs, name) {
            assert forall|k: int| 0 <= k < rest.len() implies (#[trigger] rest[k]).lower@ != name by {
                assert(rest[k] == hs[k]);
            }
        }
        if absent(rest, name) && hs.last().lower@ != name {
            assert forall|k: int| 0 <= k < hs.len() implies (#[trigger] hs[k]).lower@ != name by {
                if k < n {
                    assert(rest[k] == hs[k]);
                }
            }
        }
        if last_at(hs, name, i) && i < n {
            assert forall|k: int| i < k < rest.len() implies (#[trigger] rest[k]).lower@ != name by {
                assert(rest[k] == hs[k]);
            }
            assert(last_at(rest, name, i));
        }
        if only_at(hs, name, i) {
            assert forall|k: int| 0 <= k < rest.len() && k != i implies (#[trigger] rest[k]).lower@
                != name by {
                assert(rest[k] == hs[k]);
            }
            if i < n {
                assert(only_at(rest, name, i));
                assert(hs[n].lower@ != name);
            } else {
                assert(absent(rest, name));
            }
        }
        if named(hs, name) == 1 {
            if hs.last().lower@ == name {
                assert(absent(rest, name));
                assert forall|k: int| 0 <= k < hs.len() && k != n implies (#[trigger] hs[k]).lower@
                    != name by {
                    assert(rest[k] == hs[k]);
                }
                assert(only_at(hs, name, n));
            } else {
                let k = choose|k: int| only_at(rest, name, k);
                assert(rest[k] == hs[k]);
                assert forall|m: int| 0 <= m < hs.len() && m != k implies (#[trigger] hs[m]).lower@
                    != name by {
                    if m < n {
                        assert(rest[m] == hs[m]);
                    }
                }
                assert(only_at(hs, name, k));
            }
        }
        if 0 <= i < j < hs.len() && hs[i].lower@ == name && hs[j].lower@ == name {
            assert(rest[i] == hs[i]);
            if j == n {
                assert(!absent(rest, name));
            } else {
                assert(rest[j] == hs[j]);
            }
        }
        if value_of(hs, name) is Some {
            if hs.last().lower@ == name {
                assert(last_at(hs, name, n));
            } else {
                let k = choose|k: int| last_at(rest, name, k);
                assert(rest[k] == hs[k]);
                assert forall|m: int| k < m < hs.len() implies (#[trigger] hs[m]).lower@ != name by {
                    if m < n {
                        assert(rest[m] == hs[m]);
                    }
                }
                assert(last_at(hs, name, k));
            }
        }
    }
}

/// The size of a head is the sum over its headers: the bytes of name and value, and the
/// four of colon, blank and line end.
pub proof fn the_head_weighs_what_its_headers_do(a: Seq<LoweredHeader>, b: Seq<LoweredHeader>)
    ensures
        weight(a + b) == weight(a) + weight(b),
        a.len() == 1 ==> weight(a) == encode_utf8(a[0].name@).len() + encode_utf8(
            a[0].value@,
        ).len() + encode_utf8(": \r\n"@).len(),
        a.len() == 0 ==> weight(a) == 0,
    decreases b.len(),
{
    reveal_strlit(": \r\n");
    vstd::utf8::is_ascii_chars_encode_utf8(": \r\n"@);
    if a.len() == 1 {
        assert(a.drop_last() =~= Seq::<LoweredHeader>::empty());
        assert(weight(a.drop_last()) == 0);
    }
    if b.len() == 0 {
        assert(a + b =~= a);
    } else {
        assert((a + b).drop_last() =~= a + b.drop_last());
        the_head_weighs_what_its_headers_do(a, b.drop_last());
    }
}

/// A list is searched throughout: it names a token if what stands before or what stands
/// behind one of its commas does, and asks only to close if both do. One without a comma
/// names the token that it is, whatever its case and the white space around it.
pub proof fn lists_are_searched_throughout(a: Seq<char>, b: Seq<char>, token: Seq<char>)
    ensures
        has_token(a + seq![','] + b, token) <==> has_token(a, token) || has_token(b, token),
        !a.contains(',') ==> (has_token(a, token) <==> lowered(trimmed(a)) == lowered(token)),
        only_close(a + seq![','] + b) <==> only_close(a) && only_close(b),
        !a.contains(',') ==> (only_close(a) <==> trimmed(a).len() == 0 || lowered(trimmed(a))
            == "close"@),
{
    pieces_of_joined_texts(a, b, ',');
    let s = a + seq![','] + b;
    let pa = split_at_char(a, ',');
    let pb = split_at_char(b, ',');
    let ps = split_at_char(s, ',');
    assert(ps == pa + pb);
    if has_token(a, token) {
        let i = choose|i: int|
            0 <= i < pa.len() && same_fold(trimmed(#[trigger] split_at_char(a, ',')[i]), token);
        assert(ps[i] == pa[i]);
    }
    if has_token(b, token) {
        let i = choose|i: int|
            0 <= i < pb.len() && same_fold(trimmed(#[trigger] split_at_char(b, ',')[i]), token);
        assert(ps[pa.len() + i] == pb[i]);
    }
    if has_token(s, token) {
        let i = choose|i: int|
            0 <= i < ps.len() && same_fold(trimmed(#[trigger] split_at_char(s, ',')[i]), token);
        if i < pa.len() {
            assert(pa[i] == ps[i]);
        } else {
            assert(pb[i - pa.len()] == ps[i]);
        }
    }
    if only_close(a) && only_close(b) {
        assert forall|i: int| 0 <= i < ps.len() implies {
            let t = trimmed(#[trigger] split_at_char(s, ',')[i]);
            t.len() == 0 || same_fold(t, "close"@)
        } by {
            if i < pa.len() {
                assert(split_at_char(a, ',')[i] == ps[i]);
            } else {
                assert(split_at_char(b, ',')[i - pa.len()] == ps[i]);
            }
        }
    }
    if only_close(s) {
        assert forall|i: int| 0 <= i < pa.len() implies {
            let t = trimmed(#[trigger] split_at_char(a, ',')[i]);
            t.len() == 0 || same_fold(t, "close"@)
        } by {
            assert(split_at_char(s, ',')[i] == pa[i]);
        }
        assert forall|i: int| 0 <= i < pb.len() implies {
            let t = trimmed(#[trigger] split_at_char(b, ',')[i]);
            t.len() == 0 || same_fold(t, "close"@)
        } by {
            assert(split_at_char(s, ',')[pa.len() + i] == pb[i]);
        }
    }
    case_does_not_count(trimmed(a), token);
    case_does_not_count(trimmed(a), "close"@);
    reveal_strlit("close");
    assert(lowered("close"@) =~= "close"@);
    if !a.contains(',') {
        assert(split_at_char(a, ',')[0] == a);
    }
}

/// Where in a list a token stands does not matter: first, last, between others or alone,
/// in whatever case and with whatever white space around it.
pub proof fn tokens_are_found_anywhere(
    a: Seq<char>,
    before: Seq<char>,
    t: Seq<char>,
    after: Seq<char>,
    b: Seq<char>,
    token: Seq<char>,
)
    requires
        all_white(before),
        all_white(after),
        t.len() > 0,
        !is_white(t[0]),
        !is_white(t.last()),
        !t.contains(','),
        lowered(t) == lowered(token),
    ensures
        has_token(before + t + after, token),
        has_token(a + seq![','] + (before + t + after), token),
        has_token((before + t + after) + seq![','] + b, token),
        has_token(a + seq![','] + (before + t + after) + seq![','] + b, token),
{
    let p = before + t + after;
    trimming_takes_what_is_around(before, t, after);
    assert(!p.contains(',')) by {
        if p.contains(',') {
            let j = choose|j: int| 0 <= j < p.len() && p[j] == ',';
            if j < before.len() {
                assert(is_white(before[j]));
            } else if j < before.len() + t.len() {
                assert(t.contains(t[j - before.len()]));
            } else {
                assert(is_white(after[j - before.len() - t.len()]));
            }
        }
    }
    lists_are_searched_throughout(p, b, token);
    lists_are_searched_throughout(a, p, token);
    lists_are_searched_throughout(a + seq![','] + p, b, token);
}

/// A host is matched by its name alone, in whatever case: the port behind it does not
/// count, nor the white space around it.
pub proof fn hosts_match_by_name(
    a: Seq<char>,
    name: Seq<char>,
    port: Seq<char>,
    b: Seq<char>,
    expected: Seq<char>,
)
    requires
        all_white(a),
        all_white(b),
        name.len() > 0,
        !is_white(name[0]),
        name[0] != '[',
        !name.contains(':'),
        !is_white((name + port).last()),
        port.len() > 0 ==> port[0] == ':',
    ensures
        host_matches(a + name + port + b, expected) <==> lowered(name) == lowered(expected),
{
    let h = name + port;
    assert(a + name + port + b =~= a + h + b);
    assert(h[0] == name[0]);
    trimming_takes_what_is_around(a, h, b);
    assert forall|j: int| 0 <= j < name.len() implies h[j] != ':' by {
        assert(h[j] == name[j]);
        assert(name.contains(name[j]));
    }
    lemma_first_at(h, ':', name.len() as int);
    assert(h.take(name.len() as int) =~= name);
    case_does_not_count(name, expected);
}

/// A bracketed address is matched by what stands between the brackets.
pub proof fn bracketed_hosts_match_by_address(
    a: Seq<char>,
    address: Seq<char>,
    port: Seq<char>,
    b: Seq<char>,
    expected: Seq<char>,
)
    requires
        all_white(a),
        all_white(b),
        !address.contains(']'),
        port.len() > 0 ==> !is_white(port.last()),
    ensures
        host_matches(a + seq!['['] + address + seq![']'] + port + b, expected) <==> lowered(address)
            == lowered(expected),
{
    let h = seq!['['] + address + seq![']'] + port;
    assert(a + seq!['['] + address + seq![']'] + port + b =~= a + h + b);
    assert(h[0] == '[');
    assert(h.last() == (if port.len() > 0 {
        port.last()
    } else {
        ']'
    }));
    trimming_takes_what_is_around(a, h, b);
    let close = address.len() as int + 1;
    assert(h[close] == ']');
    assert forall|j: int| 0 <= j < close implies h[j] != ']' by {
        if j > 0 {
            assert(h[j] == address[j - 1]);
            assert(address.contains(address[j - 1]));
        }
    }
    lemma_first_at(h, ']', close);
    assert(h.subrange(1, close) =~= address);
    case_does_not_count(address, expected);
}

/// The names of the headers that no ordinary request may carry.
pub open spec fn refused_names() -> Seq<Seq<char>> {
    seq![
        "expect"@,
        "trailer"@,
        "transfer-encoding"@,
        "http2-settings"@,
        "keep-alive"@,
        "proxy-connection"@,
    ]
}

/// Whether a header may stand in an ordinary request: its name is one, is none of those
/// that belong to one hop, and where it speaks of trailers or of the connection it says
/// no more than it may.
pub open spec fn may_pass(h: LoweredHeader, http2: bool) -> bool {
    &&& valid_name(encode_utf8(h.name@))
    &&& !refused_names().contains(h.lower@)
    &&& h.lower@ == "te"@ ==> http2 && lowered(trimmed(h.value@)) == "trailers"@
    &&& h.lower@ == "connection"@ ==> only_close(h.value@)
}

proof fn lemma_refused_names(name: Seq<char>)
    ensures
        refused_names().contains(name) <==> (name == "expect"@ || name == "trailer"@ || name
            == "transfer-encoding"@ || name == "http2-settings"@ || name == "keep-alive"@ || name
            == "proxy-connection"@),
        refused_names().contains(name) ==> name != "te"@ && name != "connection"@,
        "te"@ != "connection"@,
{
    let r = refused_names();
    assert(r[0] == "expect"@ && r[1] == "trailer"@ && r[2] == "transfer-encoding"@ && r[3]
        == "http2-settings"@ && r[4] == "keep-alive"@ && r[5] == "proxy-connection"@);
    reveal_strlit("te");
    reveal_strlit("connection");
    reveal_strlit("expect");
    reveal_strlit("trailer");
    reveal_strlit("transfer-encoding");
    reveal_strlit("http2-settings");
    reveal_strlit("keep-alive");
    reveal_strlit("proxy-connection");
    assert("keep-alive"@[0] == 'k' && "connection"@[0] == 'c');
}

proof fn lemma_passes(h: LoweredHeader, http2: bool)
    ensures
        may_pass(h, http2) <==> valid_name(encode_utf8(h.name@)) && client_content_fault(h, http2)
            is None,
        client_content_fault(h, http2) is Some ==> client_content_fault(h, http2) == Some(400u16),
{
    lemma_refused_names(h.lower@);
    reveal_strlit("trailers");
    assert(lowered("trailers"@) =~= "trailers"@);
    case_does_not_count(trimmed(h.value@), "trailers"@);
}

/// All headers of `hs` may stand in an ordinary request.
pub open spec fn all_may_pass(hs: Seq<LoweredHeader>, http2: bool) -> bool {
    forall|i: int| 0 <= i < hs.len() ==> may_pass(#[trigger] hs[i], http2)
}

proof fn lemma_client_faults(hs: Seq<LoweredHeader>, http2: bool)
    ensures
        first_fault(hs, client_fault(http2)) is None <==> all_may_pass(hs, http2) && weight(hs)
            <= MAX_REQUEST_HEADER_BYTES,
        all_may_pass(hs, http2) && weight(hs) > MAX_REQUEST_HEADER_BYTES ==> first_fault(
            hs,
            client_fault(http2),
        ) == Some(431u16),
        !all_may_pass(hs, http2) && weight(hs) <= MAX_REQUEST_HEADER_BYTES ==> first_fault(
            hs,
            client_fault(http2),
        ) == Some(400u16),
    decreases hs.len(),
{
    if hs.len() > 0 {
        let rest = hs.drop_last();
        lemma_client_faults(rest, http2);
        lemma_passes(hs.last(), http2);
        assert(hs.last() == hs[hs.len() - 1]);
        if all_may_pass(hs, http2) {
            assert forall|i: int| 0 <= i < rest.len() implies may_pass(#[trigger] rest[i], http2) by {
                assert(rest[i] == hs[i]);
            }
        }
        if all_may_pass(rest, http2) && may_pass(hs.last(), http2) {
            assert forall|i: int| 0 <= i < hs.len() implies may_pass(#[trigger] hs[i], http2) by {
                if i < rest.len() {
                    assert(rest[i] == hs[i]);
                }
            }
        }
        assert(client_fault(http2)(hs) == header_fault(
            hs,
            client_content_fault(hs.last(), http2),
        ));
    }
}

/// Whether a request line asks for a path of this edge, in the form of its version.
pub open spec fn asks_for_a_path(req: RequestHead) -> bool {
    &&& req.path_and_query is Some
    &&& req.path_and_query->0@.len() > 0
    &&& req.path_and_query->0@[0] == '/'
    &&& lowered(req.method@) != "connect"@
    &&& req.http2 <==> req.authority is Some
    &&& req.scheme is Some ==> req.http2 && lowered(req.scheme->0@) == "https"@
}

proof fn lemma_asks_for_a_path(req: RequestHead)
    ensures
        asks_for_a_path(req) <==> well_addressed(req),
{
    reveal_strlit("CONNECT");
    reveal_strlit("connect");
    reveal_strlit("https");
    case_does_not_count(req.method@, "CONNECT"@);
    assert(lowered("CONNECT"@) =~= "connect"@);
    assert(lowered("https"@) =~= "https"@);
    if let Some(s) = req.scheme {
        case_does_not_count(s@, "https"@);
    }
}

/// Whether a request names its host as it must: over HTTP/1 with one `Host` header, over
/// HTTP/2 with its authority, which one `Host` header may repeat in whatever case.
pub open spec fn has_its_host(req: RequestHead, hs: Seq<LoweredHeader>) -> bool {
    if req.http2 {
        ||| absent(hs, "host"@)
        ||| exists|i: int|
            only_at(hs, "host"@, i) && lowered(hs[i].value@) == lowered(req.authority->0@)
    } else {
        exists|i: int| only_at(hs, "host"@, i)
    }
}

proof fn lemma_has_its_host(req: RequestHead, hs: Seq<LoweredHeader>)
    requires
        req.http2 ==> req.authority is Some,
    ensures
        has_its_host(req, hs) <==> names_one_host(req, hs),
{
    let name = "host"@;
    headers_are_found_by_name(hs, name, 0, 0);
    if named(hs, name) == 1 {
        let k = choose|k: int| only_at(hs, name, k);
        headers_are_found_by_name(hs, name, k, k);
        if req.http2 {
            case_does_not_count(hs[k].value@, req.authority->0@);
        }
    }
    if has_its_host(req, hs) {
        if req.http2 {
            if !absent(hs, name) {
                let i = choose|i: int|
                    only_at(hs, "host"@, i) && lowered(hs[i].value@) == lowered(
                        req.authority->0@,
                    );
                headers_are_found_by_name(hs, name, i, i);
            }
        } else {
            let i = choose|i: int| only_at(hs, "host"@, i);
            headers_are_found_by_name(hs, name, i, i);
        }
    }
}

/// Whether every host that a request names is the edge's own: its authority and each of
/// its `Host` headers.
pub open spec fn is_for(
    req: RequestHead,
    hs: Seq<LoweredHeader>,
    expected: Seq<char>,
) -> bool {
    &&& req.http2 ==> host_matches(req.authority->0@, expected)
    &&& forall|i: int|
        0 <= i < hs.len() && (#[trigger] hs[i]).lower@ == "host"@ ==> host_matches(
            hs[i].value@,
            expected,
        )
}

proof fn lemma_is_for(req: RequestHead, hs: Seq<LoweredHeader>, expected: Seq<char>)
    requires
        req.http2 ==> req.authority is Some,
        has_its_host(req, hs),
    ensures
        is_for(req, hs, expected) <==> rightly_directed(req, hs, Some(expected)),
{
    let name = "host"@;
    lemma_has_its_host(req, hs);
    headers_are_found_by_name(hs, name, 0, 0);
    if named(hs, name) == 1 {
        let k = choose|k: int| only_at(hs, name, k);
        headers_are_found_by_name(hs, name, k, k);
        if rightly_directed(req, hs, Some(expected)) {
            assert forall|i: int| 0 <= i < hs.len() && (#[trigger] hs[i]).lower@ == "host"@ implies
                host_matches(hs[i].value@, expected) by {
                assert(i == k);
            }
        }
        if is_for(req, hs, expected) {
            assert(hs[k].lower@ == "host"@);
        }
    }
}

/// The lengths that a request announces are one number at most.
pub open spec fn announces(hs: Seq<LoweredHeader>, length: Option<u64>) -> bool {
    match length {
        None => absent(hs, "content-length"@),
        Some(n) => exists|i: int|
            only_at(hs, "content-length"@, i) && #[trigger] whole(
                trimmed(hs[i].value@),
                u64::MAX as nat,
            ) == Some(n as nat),
    }
}

proof fn lemma_announces(hs: Seq<LoweredHeader>, length: Option<u64>)
    ensures
        announces(hs, length) <==> announced(hs) == Ok::<Option<u64>, u16>(length),
        announced(hs) is Err ==> announced(hs) == Err::<Option<u64>, u16>(400),
{
    let name = "content-length"@;
    headers_are_found_by_name(hs, name, 0, 0);
    if named(hs, name) == 1 {
        let k = choose|k: int| only_at(hs, name, k);
        headers_are_found_by_name(hs, name, k, k);
        if let Some(n) = length {
            if announced(hs) == Ok::<Option<u64>, u16>(length) {
                let w = whole(trimmed(hs[k].value@), u64::MAX as nat);
                if w is Some {
                    lemma_whole_bound(trimmed(hs[k].value@), u64::MAX as nat);
                }
                assert(w == Some(n as nat));
            }
        }
    }
    if announces(hs, length) {
        if let Some(n) = length {
            let i = choose|i: int|
                only_at(hs, "content-length"@, i) && #[trigger] whole(
                    trimmed(hs[i].value@),
                    u64::MAX as nat,
                ) == Some(n as nat);
            headers_are_found_by_name(hs, name, i, i);
        }
    }
}

proof fn lemma_whole_bound(s: Seq<char>, max: nat)
    ensures
        whole(s, max) matches Some(n) ==> n <= max,
{
}

/// An ordinary request is accepted exactly if it asks for a path, its headers are few,
/// small and may pass, it names one host, which is the edge's own where that has a name,
/// and it announces at most one length, which is within the cap. What is returned is that
/// length, and nothing where none is announced.
pub proof fn ordinary_requests_pass(
    req: RequestHead,
    hs: Seq<LoweredHeader>,
    max_body_bytes: u64,
    server_name: Option<Seq<char>>,
    length: Option<u64>,
)
    ensures
        client_verdict(req, hs, max_body_bytes, server_name) == Ok::<Option<u64>, u16>(length)
            <==> {
            &&& asks_for_a_path(req)
            &&& hs.len() <= 100
            &&& weight(hs) <= 65536
            &&& all_may_pass(hs, req.http2)
            &&& has_its_host(req, hs)
            &&& server_name is Some ==> is_for(req, hs, server_name->0)
            &&& announces(hs, length)
            &&& length is Some ==> length->0 <= max_body_bytes
        },
{
    lemma_asks_for_a_path(req);
    lemma_client_faults(hs, req.http2);
    lemma_announces(hs, length);
    if asks_for_a_path(req) {
        lemma_has_its_host(req, hs);
        if has_its_host(req, hs) {
            if let Some(expected) = server_name {
                lemma_is_for(req, hs, expected);
            }
        }
    }
}

/// The length that is returned is the announced one: the number in the one
/// `Content-Length` of the request, with white space around it or without, and nothing
/// only where there is no such header.
pub proof fn the_announced_length_is_returned(
    req: RequestHead,
    hs: Seq<LoweredHeader>,
    max_body_bytes: u64,
    server_name: Option<Seq<char>>,
    i: int,
    a: Seq<char>,
    n: u64,
    b: Seq<char>,
)
    requires
        client_verdict(req, hs, max_body_bytes, server_name) is Ok,
        all_white(a),
        all_white(b),
    ensures
        ({
            let r = client_verdict(req, hs, max_body_bytes, server_name)->Ok_0;
            &&& r is None <==> absent(hs, "content-length"@)
            &&& 0 <= i < hs.len() && hs[i].lower@ == "content-length"@ && hs[i].value@ == a
                + decimal(n as nat) + b ==> r == Some(n)
        }),
{
    let r = client_verdict(req, hs, max_body_bytes, server_name)->Ok_0;
    ordinary_requests_pass(req, hs, max_body_bytes, server_name, r);
    ordinary_requests_pass(req, hs, max_body_bytes, server_name, None);
    if 0 <= i < hs.len() && hs[i].lower@ == "content-length"@ && hs[i].value@ == a + decimal(
        n as nat,
    ) + b {
        assert(!absent(hs, "content-length"@));
        let m = r->0;
        let k = choose|k: int|
            only_at(hs, "content-length"@, k) && #[trigger] whole(
                trimmed(hs[k].value@),
                u64::MAX as nat,
            ) == Some(m as nat);
        assert(k == i);
        numbers_are_read_back(n as nat, u64::MAX as nat);
        let d = decimal(n as nat);
        assert('0' <= d[0] && d[0] <= '9');
        assert('0' <= d[d.len() - 1] && d[d.len() - 1] <= '9');
        trimming_takes_what_is_around(a, d, b);
    }
}

/// What is refused is refused with the status of its fault: a line, a header or a host
/// that is not in order with 400, a head that is too large with 431, a host that is not the
/// edge's with 421, a length that is no number with 400 and one over the cap with 413.
pub proof fn every_fault_has_its_status(
    req: RequestHead,
    hs: Seq<LoweredHeader>,
    max_body_bytes: u64,
    server_name: Option<Seq<char>>,
)
    ensures
        ({
            let v = client_verdict(req, hs, max_body_bytes, server_name);
            let small = hs.len() <= 100 && weight(hs) <= 65536;
            let clean = asks_for_a_path(req) && small && all_may_pass(hs, req.http2);
            let direct = server_name is Some ==> is_for(req, hs, server_name->0);
            &&& !asks_for_a_path(req) ==> v == Err::<Option<u64>, u16>(400)
            &&& asks_for_a_path(req) && hs.len() > 100 ==> v == Err::<
                Option<u64>,
                u16,
            >(431)
            &&& asks_for_a_path(req) && all_may_pass(hs, req.http2) && !small ==> v == Err::<
                Option<u64>,
                u16,
            >(431)
            &&& asks_for_a_path(req) && small && !all_may_pass(hs, req.http2) ==> v == Err::<
                Option<u64>,
                u16,
            >(400)
            &&& clean && !has_its_host(req, hs) ==> v == Err::<Option<u64>, u16>(400)
            &&& clean && has_its_host(req, hs) && !direct ==> v == Err::<Option<u64>, u16>(421)
            &&& clean && has_its_host(req, hs) && direct && (forall|l: Option<u64>|
                !#[trigger] announces(hs, l)) ==> v == Err::<Option<u64>, u16>(400)
            &&& clean && has_its_host(req, hs) && direct ==> forall|n: u64| #[trigger]
                announces(hs, Some(n)) && n > max_body_bytes ==> v == Err::<Option<u64>, u16>(413)
        }),
{
    lemma_asks_for_a_path(req);
    lemma_client_faults(hs, req.http2);
    if asks_for_a_path(req) {
        lemma_has_its_host(req, hs);
        if has_its_host(req, hs) {
            if let Some(expected) = server_name {
                lemma_is_for(req, hs, expected);
            }
        }
    }
    if let Ok(l) = announced(hs) {
        lemma_announces(hs, l);
    } else {
        lemma_announces(hs, None);
    }
    assert forall|n: u64| #[trigger] announces(hs, Some(n)) implies announced(hs) == Ok::<
        Option<u64>,
        u16,
    >(Some(n)) by {
        lemma_announces(hs, Some(n));
    }
}

/// The first header at fault decides: what comes after it does not matter.
pub proof fn the_first_fault_decides(
    req: RequestHead,
    a: Seq<LoweredHeader>,
    b: Seq<LoweredHeader>,
    max_body_bytes: u64,
    server_name: Option<Seq<char>>,
)
    requires
        (a + b).len() <= 100,
        asks_for_a_path(req),
        !all_may_pass(a, req.http2) || weight(a) > 65536,
    ensures
        client_verdict(req, a + b, max_body_bytes, server_name) == client_verdict(
            req,
            a,
            max_body_bytes,
            server_name,
        ),
{
    lemma_asks_for_a_path(req);
    lemma_client_faults(a, req.http2);
    assert((a + b).take(a.len() as int) =~= a);
    lemma_fault_stands(a + b, client_fault(req.http2), a.len() as int);
}

/// An attempt to upgrade to the Action Cable socket.
pub open spec fn cable_attempt(req: RequestHead, hs: Seq<LoweredHeader>) -> bool {
    req.path@ == "/cable"@ && exists|i: int|
        0 <= i < hs.len() && (#[trigger] hs[i]).lower@ == "upgrade"@ && same_fold(
            trimmed(hs[i].value@),
            "websocket"@,
        )
}

pub fn is_action_cable_upgrade_attempt(req: &RequestHead, headers: &[LoweredHeader]) -> (r: bool)
    ensures
        r == cable_attempt(*req, headers@),
{
    if !same(req.path.as_str(), "/cable") {
        return false;
    }
    let mut i: usize = 0;
    while i < headers.len()
        invariant
            i <= headers@.len(),
            req.path@ == "/cable"@,
            forall|j: int|
                0 <= j < i ==> !((#[trigger] headers@[j]).lower@ == "upgrade"@ && same_fold(
                    trimmed(headers@[j].value@),
                    "websocket"@,
                )),
        decreases headers@.len() - i,
    {
        let h = &headers[i];
        if same(h.lower.as_str(), "upgrade") && eq_fold(trim(h.value.as_str()), "websocket") {
            assert(headers@[i as int] == *h);
            return true;
        }
        i += 1;
    }
    false
}

/// A header of a gRPC request, with what the content-type and timeout grammars say of
/// its value.
pub struct GrpcHeader {
    pub header: LoweredHeader,
    pub native: bool,
    pub web: bool,
    pub timeout_ok: bool,
}

/// The headers themselves.
pub open spec fn plain(hs: Seq<GrpcHeader>) -> Seq<LoweredHeader> {
    hs.map_values(|h: GrpcHeader| h.header)
}

/// Whether one header announces native gRPC.
pub open spec fn grpc_attempt(hs: Seq<GrpcHeader>) -> bool {
    exists|i: int|
        0 <= i < hs.len() && (#[trigger] hs[i]).header.lower@ == "content-type"@ && hs[i].native
}

pub fn is_native_grpc_request_attempt(headers: &[GrpcHeader]) -> (r: bool)
    ensures
        r == grpc_attempt(headers@),
{
    let mut i: usize = 0;
    while i < headers.len()
        invariant
            i <= headers@.len(),
            forall|j: int|
                0 <= j < i ==> !((#[trigger] headers@[j]).header.lower@ == "content-type"@
                    && headers@[j].native),
        decreases headers@.len() - i,
    {
        let h = &headers[i];
        if same(h.header.lower.as_str(), "content-type") && h.native {
            assert(headers@[i as int] == *h);
            return true;
        }
        i += 1;
    }
    false
}

/// What is wrong with the last of `hs` in a unary gRPC request.
pub open spec fn grpc_content_fault(hs: Seq<GrpcHeader>) -> Option<u16> {
    let h = hs.last();
    let l = h.header.lower@;
    if l == "host"@ {
        None
    } else if l == "content-type"@ {
        if h.web { Some(415) } else { None }
    } else if l == "te"@ {
        if same_fold(trimmed(h.header.value@), "trailers"@) { None } else { Some(400) }
    } else if l == "grpc-timeout"@ {
        if named(plain(hs), "grpc-timeout"@) > 1 || !h.timeout_ok { Some(400) } else { None }
    } else if l == "connection"@ || l == "upgrade"@ || l == "transfer-encoding"@ || l == "expect"@
        || l == "trailer"@ || l == "http2-settings"@ || l == "keep-alive"@ || l
        == "proxy-connection"@ {
        Some(400)
    } else {
        None
    }
}

pub open spec fn grpc_fault() -> spec_fn(Seq<GrpcHeader>) -> Option<u16> {
    |hs: Seq<GrpcHeader>| header_fault(plain(hs), grpc_content_fault(hs))
}

/// Whether the last content type of `hs` is native gRPC.
pub open spec fn native_last(hs: Seq<GrpcHeader>) -> bool
    decreases hs.len(),
{
    if hs.len() == 0 {
        false
    } else if hs.last().header.lower@ == "content-type"@ {
        hs.last().native
    } else {
        native_last(hs.drop_last())
    }
}

/// Whether a gRPC request line is a POST over HTTP/2 to a path of an authority.
pub open spec fn grpc_addressed(req: RequestHead) -> bool {
    &&& req.http2
    &&& req.method@ == "POST"@
    &&& req.path_and_query matches Some(p) && p@.len() > 0 && p@[0] == '/'
    &&& req.scheme matches Some(s) ==> same_fold(s@, "https"@)
    &&& req.authority is Some
}

/// What is owed to a unary gRPC request.
pub open spec fn grpc_verdict(
    req: RequestHead,
    hs: Seq<GrpcHeader>,
    max_body_bytes: u64,
    server_name: Option<Seq<char>>,
) -> Result<(), u16> {
    let ps = plain(hs);
    if !grpc_addressed(req) {
        Err(400)
    } else if hs.len() > MAX_REQUEST_HEADERS {
        Err(431)
    } else {
        match first_fault(hs, grpc_fault()) {
            Some(status) => Err(status),
            None => if named(ps, "host"@) > 1 || named(ps, "content-type"@) != 1 || !native_last(hs)
                || named(ps, "te"@) == 0 {
                Err(400)
            } else if (value_of(ps, "host"@) matches Some(h) && !same_fold(h, req.authority->0@)) {
                Err(400)
            } else if !rightly_directed(req, ps, server_name) {
                Err(421)
            } else {
                match announced(ps) {
                    Err(status) => Err(status),
                    Ok(Some(len)) => if len > max_body_bytes { Err(413) } else { Ok(()) },
                    Ok(None) => Ok(()),
                }
            },
        }
    }
}

/// The announced length, read off the headers of a gRPC request.
fn grpc_content_length(headers: &[GrpcHeader]) -> (r: Result<Option<u64>, u16>)
    ensures
        r == announced(plain(headers@)),
{
    let mut seen: Option<u64> = None;
    let mut i: usize = 0;
    let ghost hs = plain(headers@);
    let ghost name = "content-length"@;
    assert(hs.take(0) =~= Seq::<LoweredHeader>::empty());
    while i < headers.len()
        invariant
            i <= headers@.len(),
            hs == plain(headers@),
            name == "content-length"@,
            seen is None ==> named(hs.take(i as int), name) == 0,
            seen matches Some(n) ==> named(hs.take(i as int), name) == 1 && value_of(
                hs.take(i as int),
                name,
            ) is Some && whole(trimmed(value_of(hs.take(i as int), name)->0), u64::MAX as nat)
                == Some(n as nat),
        decreases headers@.len() - i,
    {
        let h = &headers[i].header;
        assert(hs.take(i + 1).drop_last() =~= hs.take(i as int));
        assert(hs.take(i + 1).last() == *h);
        proof {
            lemma_named_grows(hs, name, i + 1);
        }
        if same(h.lower.as_str(), "content-length") {
            if seen.is_some() {
                return Err(400);
            }
            match parse_whole(trim(h.value.as_str()), u64::MAX) {
                None => {
                    return Err(400);
                },
                Some(n) => {
                    seen = Some(n);
                },
            }
        }
        i += 1;
    }
    assert(hs.take(i as int) =~= hs);
    Ok(seen)
}

fn is_grpc_addressed(req: &RequestHead) -> (r: bool)
    ensures
        r == grpc_addressed(*req),
{
    if !req.http2 || !same(req.method.as_str(), "POST") {
        return false;
    }
    match &req.path_and_query {
        None => {
            return false;
        },
        Some(p) => if !starts_with(p.as_str(), '/') {
            return false;
        },
    }
    if let Some(s) = &req.scheme {
        if !eq_fold(s.as_str(), "https") {
            return false;
        }
    }
    req.authority.is_some()
}

fn is_hop_header(l: &str) -> (r: bool)
    ensures
        r == (l@ == "connection"@ || l@ == "upgrade"@ || l@ == "transfer-encoding"@ || l@
            == "expect"@ || l@ == "trailer"@ || l@ == "http2-settings"@ || l@ == "keep-alive"@
            || l@ == "proxy-connection"@),
{
    same(l, "connection") || same(l, "upgrade") || same(l, "transfer-encoding") || same(l, "expect")
        || same(l, "trailer") || same(l, "http2-settings") || same(l, "keep-alive") || same(
        l,
        "proxy-connection",
    )
}

/// Judges a unary gRPC request.
#[verifier::rlimit(40)]
pub fn validate_grpc_unary_request(
    req: &RequestHead,
    headers: &[GrpcHeader],
    max_body_bytes: u64,
    public_server_name: Option<&str>,
) -> (r: Result<(), u16>)
    ensures
        r == grpc_verdict(*req, headers@, max_body_bytes, opt_str(public_server_name)),
{
    if !is_grpc_addressed(req) {
        return Err(400);
    }
    if headers.len() > MAX_REQUEST_HEADERS {
        return Err(431);
    }
    let authority = match as_deref(&req.authority) {
        None => {
            return Err(400);
        },
        Some(a) => a,
    };
    let ghost hs = headers@;
    let ghost f = grpc_fault();
    let mut host_count: usize = 0;
    let mut host_value: Option<&str> = None;
    let mut content_type_count: usize = 0;
    let mut saw_native_grpc: bool = false;
    let mut te_count: usize = 0;
    let mut grpc_timeout_count: usize = 0;
    let mut header_bytes: usize = 0;
    let mut i: usize = 0;
    proof {
        assert(hs.take(0) =~= Seq::<GrpcHeader>::empty());
        assert(plain(hs.take(0)) =~= Seq::<LoweredHeader>::empty());
        lemma_grpc_names_differ();
    }
    while i < headers.len()
        invariant
            i <= headers@.len() <= MAX_REQUEST_HEADERS,
            hs == headers@,
            grpc_addressed(*req),
            f == grpc_fault(),
            names_differ(),
            first_fault(hs.take(i as int), f) is None,
            header_bytes == weight(plain(hs.take(i as int))),
            host_count == named(plain(hs.take(i as int)), "host"@),
            content_type_count == named(plain(hs.take(i as int)), "content-type"@),
            te_count == named(plain(hs.take(i as int)), "te"@),
            grpc_timeout_count == named(plain(hs.take(i as int)), "grpc-timeout"@),
            host_count <= i,
            content_type_count <= i,
            te_count <= i,
            grpc_timeout_count <= i,
            saw_native_grpc == native_last(hs.take(i as int)),
            opt_str(host_value) == value_of(plain(hs.take(i as int)), "host"@),
        decreases headers@.len() - i,
    {
        let h = &headers[i];
        let ghost next = hs.take(i + 1);
        proof {
            assert(next.drop_last() =~= hs.take(i as int));
            assert(next.last() == *h);
            assert(plain(next).drop_last() =~= plain(hs.take(i as int)));
            assert(plain(next).last() == h.header);
            if first_fault(next, f) is Some {
                lemma_fault_stands(hs, f, i + 1);
            }
            assert(first_fault(next, f) == f(next));
        }
        match accumulate_header_bytes(
            header_bytes,
            h.header.name.as_str(),
            h.header.value.as_str(),
        ) {
            Err(status) => {
                return Err(status);
            },
            Ok(sum) => {
                header_bytes = sum;
            },
        }
        let l = h.header.lower.as_str();
        if same(l, "host") {
            host_count = host_count + 1;
            host_value = Some(h.header.value.as_str());
        } else if same(l, "content-type") {
            content_type_count = content_type_count + 1;
            if h.web {
                return Err(415);
            }
            saw_native_grpc = h.native;
        } else if same(l, "te") {
            te_count = te_count + 1;
            if !eq_fold(trim(h.header.value.as_str()), "trailers") {
                return Err(400);
            }
        } else if same(l, "grpc-timeout") {
            grpc_timeout_count = grpc_timeout_count + 1;
            if grpc_timeout_count > 1 || !h.timeout_ok {
                return Err(400);
            }
        } else if is_hop_header(l) {
            return Err(400);
        }
        i += 1;
    }
    assert(hs.take(i as int) =~= hs);
    if host_count > 1 || content_type_count != 1 || !saw_native_grpc || te_count == 0 {
        return Err(400);
    }
    if let Some(host) = host_value {
        if !eq_fold(host, authority) {
            return Err(400);
        }
    }
    if let Some(expected) = public_server_name {
        if let Err(status) = check_public_host(expected, authority, host_value) {
            return Err(status);
        }
    }
    match grpc_content_length(headers) {
        Err(status) => Err(status),
        Ok(None) => Ok(()),
        Ok(Some(len)) => if len > max_body_bytes {
            Err(413)
        } else {
            Ok(())
        },
    }
}

/// The header names that the rules single out differ from one another.
spec fn names_differ() -> bool {
    &&& "host"@ != "content-type"@
    &&& "host"@ != "te"@
    &&& "host"@ != "grpc-timeout"@
    &&& "content-type"@ != "te"@
    &&& "content-type"@ != "grpc-timeout"@
    &&& "te"@ != "grpc-timeout"@
}

proof fn lemma_grpc_names_differ()
    ensures
        names_differ(),
{
    reveal_strlit("host");
    reveal_strlit("content-type");
    reveal_strlit("te");
    reveal_strlit("grpc-timeout");
    assert("host"@.len() == 4);
    assert("content-type"@.len() == 12);
    assert("te"@.len() == 2);
    assert("grpc-timeout"@.len() == 12);
    assert("content-type"@[0] == 'c');
    assert("grpc-timeout"@[0] == 'g');
}

/// The position of the first `://` in `s`, or the length.
pub open spec fn scheme_end(s: Seq<char>) -> int
    decreases s.len(),
{
    if s.len() < 3 {
        s.len() as int
    } else if s[0] == ':' && s[1] == '/' && s[2] == '/' {
        0
    } else {
        1 + scheme_end(s.drop_first())
    }
}

proof fn lemma_scheme_end(s: Seq<char>, i: int)
    requires
        0 <= i <= s.len(),
        forall|j: int| 0 <= j < i && j + 2 < s.len() ==> !(#[trigger] s[j] == ':' && s[j + 1] == '/' && s[j + 2] == '/'),
        i < s.len() ==> i + 2 < s.len() && s[i] == ':' && s[i + 1] == '/' && s[i + 2] == '/',
    ensures
        scheme_end(s) == i,
    decreases s.len(),
{
    if s.len() >= 3 && i > 0 {
        assert(!(s[0] == ':' && s[1] == '/' && s[2] == '/'));
        let t = s.drop_first();
        assert forall|j: int| 0 <= j < i - 1 && j + 2 < t.len() implies !(#[trigger] t[j] == ':' && t[j + 1] == '/'
            && t[j + 2] == '/') by {
            assert(s[j + 1] == t[j]);
        }
        lemma_scheme_end(t, i - 1);
    }
}

fn find_scheme_end(s: &str) -> (r: usize)
    ensures
        r == scheme_end(s@),
        r <= s@.len(),
        r < s@.len() ==> r + 3 <= s@.len(),
{
    let cs = chars_of(s);
    let n: usize = cs.len();
    let mut i: usize = 0;
    while n - i > 2 && !(cs[i] == ':' && cs[i + 1] == '/' && cs[i + 2] == '/')
        invariant
            i <= n,
            n == cs@.len(),
            cs@ == s@,
            forall|j: int| 0 <= j < i && j + 2 < s@.len() ==> !(#[trigger] s@[j] == ':' && s@[j + 1] == '/' && s@[j + 2]
                == '/'),
        decreases n - i,
    {
        i += 1;
    }
    let r: usize = if n - i > 2 {
        i
    } else {
        n
    };
    proof {
        lemma_scheme_end(s@, r as int);
    }
    r
}

/// The port of an origin `rest`: what follows the last colon, unless the colon follows
/// a bracketed address.
pub open spec fn port_matches(
    rest: Seq<char>,
    url_scheme: Seq<char>,
    server_port: u16,
) -> bool {
    let c = last(rest, ':');
    if c >= 0 && !(c > 0 && rest[c - 1] == ']') {
        whole(rest.skip(c + 1), u16::MAX as nat) == Some(server_port as nat)
    } else {
        (url_scheme == "http"@ && server_port == 80) || (url_scheme == "https"@ && server_port
            == 443)
    }
}

/// Whether an `Origin` is the edge itself: same scheme, host and port, and no path.
pub open spec fn origin_is_edge(
    origin: Seq<char>,
    url_scheme: Seq<char>,
    server_name: Seq<char>,
    server_port: u16,
) -> bool {
    let o = trimmed(origin);
    let e = scheme_end(o);
    let rest = o.skip(e + 3);
    &&& e < o.len()
    &&& same_fold(o.take(e), url_scheme)
    &&& first(rest, '/') == rest.len()
    &&& host_matches(rest, server_name)
    &&& port_matches(rest, url_scheme, server_port)
}

pub fn origin_matches_edge(
    origin: &str,
    url_scheme: &str,
    server_name: &str,
    server_port: u16,
) -> (r: bool)
    ensures
        r == origin_is_edge(origin@, url_scheme@, server_name@, server_port),
{
    let o = trim(origin);
    let n: usize = o.unicode_len();
    let e: usize = find_scheme_end(o);
    if e >= n {
        return false;
    }
    let scheme = o.substring_char(0, e);
    let rest = o.substring_char(e + 3, n);
    assert(o@.subrange(0, e as int) =~= o@.take(e as int));
    assert(o@.subrange(e + 3, n as int) =~= o@.skip(e + 3));
    if !eq_fold(scheme, url_scheme) {
        return false;
    }
    let m: usize = rest.unicode_len();
    if find_char(rest, '/') < m {
        return false;
    }
    if !host_matches_server_name(rest, server_name) {
        return false;
    }
    let c: usize = after_last(rest, ':');
    if c > 0 && !(c > 1 && rest.get_char(c - 2) == ']') {
        let port = rest.substring_char(c, m);
        assert(rest@.subrange(c as int, m as int) =~= rest@.skip(c as int));
        match parse_whole(port, u16::MAX as u64) {
            Some(p) => p == server_port as u64,
            None => false,
        }
    } else {
        (same(url_scheme, "http") && server_port == 80) || (same(url_scheme, "https")
            && server_port == 443)
    }
}

/// The characters of a WebSocket key.
pub open spec fn is_key_char(c: char) -> bool {
    ||| '0' <= c && c <= '9'
    ||| 'A' <= c && c <= 'Z'
    ||| 'a' <= c && c <= 'z'
    ||| c == '+'
    ||| c == '/'
    ||| c == '='
}

/// A WebSocket key is twenty-four characters of base64.
pub open spec fn valid_key(value: Seq<char>) -> bool {
    let t = trimmed(value);
    t.len() == 24 && forall|i: int| 0 <= i < t.len() ==> is_key_char(#[trigger] t[i])
}

pub fn is_valid_websocket_key(value: &str) -> (r: bool)
    ensures
        r == valid_key(value@),
{
    let t = trim(value);
    let cs = chars_of(t);
    if cs.len() != 24 {
        return false;
    }
    let mut i: usize = 0;
    while i < cs.len()
        invariant
            i <= cs@.len(),
            cs@ == t@,
            t@ == trimmed(value@),
            forall|j: int| 0 <= j < i ==> is_key_char(#[trigger] cs@[j]),
        decreases cs@.len() - i,
    {
        let c: char = cs[i];
        let ok: bool = ('0' <= c && c <= '9') || ('A' <= c && c <= 'Z') || ('a' <= c && c <= 'z')
            || c == '+' || c == '/' || c == '=';
        if !ok {
            assert(!is_key_char(t@[i as int]));
            return false;
        }
        i += 1;
    }
    true
}

/// The headers that no upgrade to Action Cable may carry.
pub open spec fn cable_content_fault(h: LoweredHeader) -> Option<u16> {
    let l = h.lower@;
    if l == "content-length"@ || l == "transfer-encoding"@ || l == "expect"@ || l == "trailer"@ || l
        == "http2-settings"@ || l == "keep-alive"@ || l == "proxy-connection"@ {
        Some(400)
    } else {
        None
    }
}

pub open spec fn cable_fault() -> spec_fn(Seq<LoweredHeader>) -> Option<u16> {
    |hs: Seq<LoweredHeader>| header_fault(hs, cable_content_fault(hs.last()))
}

/// Whether a `Connection` header of `hs` asks for an upgrade.
pub open spec fn asks_upgrade(hs: Seq<LoweredHeader>) -> bool
    decreases hs.len(),
{
    hs.len() > 0 && (asks_upgrade(hs.drop_last()) || (hs.last().lower@ == "connection"@
        && has_token(hs.last().value@, "upgrade"@)))
}

/// Whether the headers make up an Action Cable handshake; of a repeated header the
/// last one counts.
pub open spec fn is_handshake(hs: Seq<LoweredHeader>) -> bool {
    &&& asks_upgrade(hs)
    &&& value_of(hs, "upgrade"@) matches Some(v) && same_fold(trimmed(v), "websocket"@)
    &&& value_of(hs, "sec-websocket-key"@) matches Some(v) && valid_key(v)
    &&& value_of(hs, "sec-websocket-version"@) matches Some(v) && trimmed(v) == "13"@
    &&& value_of(hs, "sec-websocket-protocol"@) matches Some(v) && has_token(
        v,
        "actioncable-v1-json"@,
    )
}

/// What is owed to an upgrade to Action Cable.
pub open spec fn cable_verdict(
    req: RequestHead,
    hs: Seq<LoweredHeader>,
    public_name: Option<Seq<char>>,
    url_scheme: Seq<char>,
    server_name: Seq<char>,
    server_port: u16,
) -> Result<(), u16> {
    if req.http2 || req.method@ != "GET"@ || req.path@ != "/cable"@ || req.scheme is Some
        || req.authority is Some {
        Err(400)
    } else if hs.len() > MAX_REQUEST_HEADERS {
        Err(431)
    } else {
        match first_fault(hs, cable_fault()) {
            Some(status) => Err(status),
            None => if named(hs, "host"@) != 1 {
                Err(400)
            } else {
                let host = value_of(hs, "host"@)->0;
                if (public_name matches Some(expected) && !host_matches(host, expected))
                    || !host_matches(host, server_name) {
                    Err(421)
                } else if !is_handshake(hs) {
                    Err(400)
                } else {
                    match value_of(hs, "origin"@) {
                        None => Err(403),
                        Some(o) => if origin_is_edge(o, url_scheme, server_name, server_port) {
                            Ok(())
                        } else {
                            Err(403)
                        },
                    }
                }
            },
        }
    }
}

fn is_refused_in_upgrade(l: &str) -> (r: bool)
    ensures
        r == (l@ == "content-length"@ || l@ == "transfer-encoding"@ || l@ == "expect"@ || l@
            == "trailer"@ || l@ == "http2-settings"@ || l@ == "keep-alive"@ || l@
            == "proxy-connection"@),
{
    same(l, "content-length") || same(l, "transfer-encoding") || same(l, "expect") || same(
        l,
        "trailer",
    ) || same(l, "http2-settings") || same(l, "keep-alive") || same(l, "proxy-connection")
}

/// The value of the last header called `name`.
fn header_value<'a>(headers: &'a [LoweredHeader], name: &str) -> (r: Option<&'a str>)
    ensures
        opt_str(r) == value_of(headers@, name@),
{
    let mut found: Option<&'a str> = None;
    let mut i: usize = 0;
    let ghost hs = headers@;
    assert(hs.take(0) =~= Seq::<LoweredHeader>::empty());
    while i < headers.len()
        invariant
            i <= headers@.len(),
            hs == headers@,
            opt_str(found) == value_of(hs.take(i as int), name@),
        decreases headers@.len() - i,
    {
        assert(hs.take(i + 1).drop_last() =~= hs.take(i as int));
        if same(headers[i].lower.as_str(), name) {
            found = Some(headers[i].value.as_str());
        }
        i += 1;
    }
    assert(hs.take(i as int) =~= hs);
    found
}

fn handshake_complete(headers: &[LoweredHeader], connection_upgrade: bool) -> (r: bool)
    requires
        connection_upgrade == asks_upgrade(headers@),
    ensures
        r == is_handshake(headers@),
{
    if !connection_upgrade {
        return false;
    }
    match header_value(headers, "upgrade") {
        None => {
            return false;
        },
        Some(v) => if !eq_fold(trim(v), "websocket") {
            return false;
        },
    }
    match header_value(headers, "sec-websocket-key") {
        None => {
            return false;
        },
        Some(v) => if !is_valid_websocket_key(v) {
            return false;
        },
    }
    match header_value(headers, "sec-websocket-version") {
        None => {
            return false;
        },
        Some(v) => if !same(trim(v), "13") {
            return false;
        },
    }
    match header_value(headers, "sec-websocket-protocol") {
        None => false,
        Some(v) => names_token(v, "actioncable-v1-json"),
    }
}

/// Judges an upgrade to Action Cable.
pub fn validate_action_cable_request(
    req: &RequestHead,
    headers: &[LoweredHeader],
    public_server_name: Option<&str>,
    url_scheme: &str,
    server_name: &str,
    server_port: u16,
) -> (r: Result<(), u16>)
    ensures
        r == cable_verdict(
            *req,
            headers@,
            opt_str(public_server_name),
            url_scheme@,
            server_name@,
            server_port,
        ),
{
    if req.http2 || !same(req.method.as_str(), "GET") || !same(req.path.as_str(), "/cable")
        || req.scheme.is_some() || req.authority.is_some() {
        return Err(400);
    }
    if headers.len() > MAX_REQUEST_HEADERS {
        return Err(431);
    }
    let ghost hs = headers@;
    let ghost f = cable_fault();
    let mut host_count: usize = 0;
    let mut connection_upgrade: bool = false;
    let mut header_bytes: usize = 0;
    let mut i: usize = 0;
    assert(hs.take(0) =~= Seq::<LoweredHeader>::empty());
    while i < headers.len()
        invariant
            i <= headers@.len() <= MAX_REQUEST_HEADERS,
            hs == headers@,
            !req.http2 && req.method@ == "GET"@ && req.path@ == "/cable"@ && req.scheme is None
                && req.authority is None,
            f == cable_fault(),
            first_fault(hs.take(i as int), f) is None,
            header_bytes == weight(hs.take(i as int)),
            host_count == named(hs.take(i as int), "host"@),
            host_count <= i,
            connection_upgrade == asks_upgrade(hs.take(i as int)),
        decreases headers@.len() - i,
    {
        let h = &headers[i];
        let ghost next = hs.take(i + 1);
        proof {
            assert(next.drop_last() =~= hs.take(i as int));
            assert(next.last() == *h);
            if first_fault(next, f) is Some {
                lemma_fault_stands(hs, f, i + 1);
            }
            assert(first_fault(next, f) == f(next));
        }
        match accumulate_header_bytes(header_bytes, h.name.as_str(), h.value.as_str()) {
            Err(status) => {
                return Err(status);
            },
            Ok(sum) => {
                header_bytes = sum;
            },
        }
        let l = h.lower.as_str();
        if is_refused_in_upgrade(l) {
            return Err(400);
        }
        if same(l, "host") {
            host_count = host_count + 1;
        }
        if same(l, "connection") && names_token(h.value.as_str(), "upgrade") {
            connection_upgrade = true;
        }
        i += 1;
    }
    assert(hs.take(i as int) =~= hs);
    if host_count != 1 {
        return Err(400);
    }
    proof {
        lemma_named_value(hs, "host"@);
    }
    let host = match header_value(headers, "host") {
        None => {
            return Err(400);
        },
        Some(host) => host,
    };
    if let Some(expected) = public_server_name {
        if !host_matches_server_name(host, expected) {
            return Err(421);
        }
    }
    if !host_matches_server_name(host, server_name) {
        return Err(421);
    }
    if !handshake_complete(headers, connection_upgrade) {
        return Err(400);
    }
    match header_value(headers, "origin") {
        None => Err(403),
        Some(origin) => if origin_matches_edge(origin, url_scheme, server_name, server_port) {
            Ok(())
        } else {
            Err(403)
        },
    }
}

/// Whether an origin as it is written is the edge's: its scheme, its name and its port,
/// with white space around it or without. Scheme and name may be in whatever case; a port
/// that is left out is the one of the scheme; a path is one too many.
#[verifier::rlimit(40)]
#[verifier::spinoff_prover]
pub proof fn origins_are_told_by_their_parts(
    a: Seq<char>,
    scheme: Seq<char>,
    name: Seq<char>,
    port: nat,
    path: Seq<char>,
    b: Seq<char>,
    url_scheme: Seq<char>,
    server_name: Seq<char>,
    server_port: u16,
)
    requires
        all_white(a),
        all_white(b),
        scheme.len() > 0,
        !is_white(scheme[0]),
        !scheme.contains(':'),
        name.len() > 0,
        name[0] != '[',
        !is_white(name[0]),
        !is_white(name.last()),
        !name.contains(':'),
        !name.contains('/'),
        name.last() != ']',
        path.len() > 0 ==> !is_white(path.last()),
    ensures
        ({
            let front = a + scheme + "://"@ + name;
            let same_place = lowered(scheme) == lowered(url_scheme) && lowered(name) == lowered(
                server_name,
            );
            &&& origin_is_edge(
                front + seq![':'] + decimal(port) + b,
                url_scheme,
                server_name,
                server_port,
            ) <==> same_place && port == server_port
            &&& origin_is_edge(front + b, url_scheme, server_name, server_port) <==> same_place && (
            (url_scheme == "http"@ && server_port == 80) || (url_scheme == "https"@ && server_port
                == 443))
            &&& !origin_is_edge(
                front + seq![':'] + decimal(port) + seq!['/'] + path + b,
                url_scheme,
                server_name,
                server_port,
            )
            &&& !origin_is_edge(a + name + b, url_scheme, server_name, server_port)
        }),
{
    reveal_strlit("://");
    numbers_are_read_back(port, u16::MAX as nat);
    let d = decimal(port);
    assert('0' <= d[d.len() - 1] && d[d.len() - 1] <= '9');
    let front = a + scheme + "://"@ + name;
    let empty = Seq::<char>::empty();
    lemma_origin_parts(a, scheme, name + seq![':'] + d, b);
    assert(front + seq![':'] + d + b =~= a + (scheme + "://"@ + (name + seq![':'] + d)) + b);
    lemma_origin_parts(a, scheme, name, b);
    assert(front + b =~= a + (scheme + "://"@ + name) + b);
    let far = name + seq![':'] + d + seq!['/'] + path;
    assert(far.last() == (if path.len() > 0 {
        path.last()
    } else {
        '/'
    }));
    lemma_origin_parts(a, scheme, far, b);
    assert(front + seq![':'] + d + seq!['/'] + path + b =~= a + (scheme + "://"@ + far) + b);
    case_does_not_count(scheme, url_scheme);
    // With a port.
    let rest = name + seq![':'] + d;
    assert forall|j: int| 0 <= j < rest.len() implies rest[j] != '/' by {
        if j < name.len() {
            assert(rest[j] == name[j]);
            assert(name.contains(name[j]));
        } else if j > name.len() {
            assert(rest[j] == d[j - name.len() - 1]);
        }
    }
    lemma_first_at(rest, '/', rest.len() as int);
    hosts_match_by_name(empty, name, seq![':'] + d, empty, server_name);
    assert((name + (seq![':'] + d)).last() == d.last());
    assert(empty + name + (seq![':'] + d) + empty =~= rest);
    assert(rest[name.len() as int] == ':');
    assert forall|j: int| name.len() < j < rest.len() implies rest[j] != ':' by {
        assert(rest[j] == d[j - name.len() - 1]);
    }
    lemma_last_at(rest, ':', name.len() as int);
    assert(rest.skip(name.len() as int + 1) =~= d);
    assert(rest[name.len() - 1] == name.last());
    // Without one.
    assert forall|j: int| 0 <= j < name.len() implies name[j] != '/' && name[j] != ':' by {
        assert(name.contains(name[j]));
    }
    lemma_first_at(name, '/', name.len() as int);
    hosts_match_by_name(empty, name, empty, empty, server_name);
    assert(name + empty =~= name);
    assert(empty + name + empty + empty =~= name);
    lemma_last_at(name, ':', -1);
    // With a path.
    assert(far[rest.len() as int] == '/');
    crate::text::lemma_first_range(far, '/');
    // Without a scheme.
    trimming_takes_what_is_around(a, name, b);
    lemma_scheme_end(name, name.len() as int);
}

/// What is left of an origin when the white space around it and its scheme are taken away.
proof fn lemma_origin_parts(a: Seq<char>, scheme: Seq<char>, rest: Seq<char>, b: Seq<char>)
    requires
        all_white(a),
        all_white(b),
        scheme.len() > 0,
        !is_white(scheme[0]),
        !scheme.contains(':'),
        rest.len() > 0,
        !is_white(rest.last()),
    ensures
        ({
            let o = scheme + "://"@ + rest;
            &&& trimmed(a + o + b) == o
            &&& scheme_end(o) == scheme.len()
            &&& o.take(scheme.len() as int) == scheme
            &&& o.skip(scheme.len() as int + 3) == rest
        }),
{
    reveal_strlit("://");
    let o = scheme + "://"@ + rest;
    assert(o[0] == scheme[0]);
    assert(o.last() == rest.last());
    trimming_takes_what_is_around(a, o, b);
    let n = scheme.len() as int;
    assert(o[n] == ':' && o[n + 1] == '/' && o[n + 2] == '/');
    assert forall|j: int| 0 <= j < n && j + 2 < o.len() implies !(#[trigger] o[j] == ':' && o[j + 1]
        == '/' && o[j + 2] == '/') by {
        assert(o[j] == scheme[j]);
        assert(scheme.contains(scheme[j]));
    }
    lemma_scheme_end(o, n);
    assert(o.take(n) =~= scheme);
    assert(o.skip(n + 3) =~= rest);
}

/// A WebSocket key is twenty-four characters of the base64 alphabet, padding included; the
/// white space around it does not count.
pub proof fn keys_are_base64(a: Seq<char>, key: Seq<char>, b: Seq<char>)
    requires
        all_white(a),
        all_white(b),
        key.len() > 0,
        !is_white(key[0]),
        !is_white(key.last()),
    ensures
        valid_key(a + key + b) <==> key.len() == 24 && forall|i: int|
            0 <= i < key.len() ==> {
                ||| 'a' <= lower_char(#[trigger] key[i]) && lower_char(key[i]) <= 'z'
                ||| '0' <= key[i] && key[i] <= '9'
                ||| "+/="@.contains(key[i])
            },
        !valid_key(a + b),
{
    trimming_takes_what_is_around(a, key, b);
    trimming_takes_what_is_around(a, Seq::empty(), b);
    assert(a + Seq::<char>::empty() + b =~= a + b);
    reveal_strlit("+/=");
    assert("+/="@[0] == '+' && "+/="@[1] == '/' && "+/="@[2] == '=');
    assert forall|c: char| #[trigger] is_key_char(c) <==> {
        ||| 'a' <= lower_char(c) && lower_char(c) <= 'z'
        ||| '0' <= c && c <= '9'
        ||| "+/="@.contains(c)
    } by {}
    if valid_key(a + key + b) {
        assert forall|i: int| 0 <= i < key.len() implies {
            ||| 'a' <= lower_char(#[trigger] key[i]) && lower_char(key[i]) <= 'z'
            ||| '0' <= key[i] && key[i] <= '9'
            ||| "+/="@.contains(key[i])
        } by {
            assert(is_key_char(key[i]));
        }
    }
}

/// The names of the headers that no upgrade may carry.
pub open spec fn refused_in_upgrades() -> Seq<Seq<char>> {
    refused_names().push("content-length"@)
}

/// Whether the headers of an upgrade are few, small and none of the refused ones.
pub open spec fn fit_for_upgrade(hs: Seq<LoweredHeader>) -> bool {
    &&& hs.len() <= 100
    &&& weight(hs) <= 65536
    &&& forall|i: int|
        0 <= i < hs.len() ==> valid_name(encode_utf8((#[trigger] hs[i]).name@))
            && !refused_in_upgrades().contains(hs[i].lower@)
}

proof fn lemma_upgrade_faults(hs: Seq<LoweredHeader>)
    ensures
        hs.len() <= 100 ==> (first_fault(hs, cable_fault()) is None <==> fit_for_upgrade(hs)),
    decreases hs.len(),
{
    if hs.len() > 0 {
        let rest = hs.drop_last();
        let h = hs.last();
        assert(h == hs[hs.len() - 1]);
        lemma_upgrade_faults(rest);
        lemma_refused_names(h.lower@);
        let r = refused_in_upgrades();
        assert(r.contains(h.lower@) <==> refused_names().contains(h.lower@) || h.lower@
            == "content-length"@) by {
            if refused_names().contains(h.lower@) {
                let k = choose|k: int|
                    0 <= k < refused_names().len() && refused_names()[k] == h.lower@;
                assert(r[k] == h.lower@);
            }
            assert(r[6] == "content-length"@);
            if r.contains(h.lower@) {
                let k = choose|k: int| 0 <= k < r.len() && r[k] == h.lower@;
                if k < 6 {
                    assert(refused_names()[k] == h.lower@);
                }
            }
        }
        assert(cable_fault()(hs) == header_fault(hs, cable_content_fault(h)));
        if fit_for_upgrade(hs) {
            assert forall|i: int| 0 <= i < rest.len() implies valid_name(
                encode_utf8((#[trigger] rest[i]).name@),
            ) && !refused_in_upgrades().contains(rest[i].lower@) by {
                assert(rest[i] == hs[i]);
            }
        }
        if hs.len() <= 100 && first_fault(hs, cable_fault()) is None {
            assert forall|i: int| 0 <= i < hs.len() implies valid_name(
                encode_utf8((#[trigger] hs[i]).name@),
            ) && !refused_in_upgrades().contains(hs[i].lower@) by {
                if i < rest.len() {
                    assert(rest[i] == hs[i]);
                }
            }
        }
    }
}

proof fn lemma_asks_upgrade(hs: Seq<LoweredHeader>)
    ensures
        asks_upgrade(hs) <==> exists|i: int|
            0 <= i < hs.len() && (#[trigger] hs[i]).lower@ == "connection"@ && has_token(
                hs[i].value@,
                "upgrade"@,
            ),
    decreases hs.len(),
{
    if hs.len() > 0 {
        let rest = hs.drop_last();
        lemma_asks_upgrade(rest);
        assert(hs.last() == hs[hs.len() - 1]);
        if asks_upgrade(rest) {
            let i = choose|i: int|
                0 <= i < rest.len() && (#[trigger] rest[i]).lower@ == "connection"@ && has_token(
                    rest[i].value@,
                    "upgrade"@,
                );
            assert(hs[i] == rest[i]);
        }
        if exists|i: int|
            0 <= i < hs.len() && (#[trigger] hs[i]).lower@ == "connection"@ && has_token(
                hs[i].value@,
                "upgrade"@,
            ) {
            let i = choose|i: int|
                0 <= i < hs.len() && (#[trigger] hs[i]).lower@ == "connection"@ && has_token(
                    hs[i].value@,
                    "upgrade"@,
                );
            if i < rest.len() {
                assert(rest[i] == hs[i]);
            }
        }
    }
}

/// Whether the last header of `hs` that is called `name` is there and has a value of which
/// `ok` holds.
pub open spec fn last_is(
    hs: Seq<LoweredHeader>,
    name: Seq<char>,
    ok: spec_fn(Seq<char>) -> bool,
) -> bool {
    exists|i: int| last_at(hs, name, i) && ok(hs[i].value@)
}

proof fn lemma_last_is(hs: Seq<LoweredHeader>, name: Seq<char>, ok: spec_fn(Seq<char>) -> bool)
    ensures
        last_is(hs, name, ok) <==> (value_of(hs, name) is Some && ok(value_of(hs, name)->0)),
{
    headers_are_found_by_name(hs, name, 0, 0);
    if last_is(hs, name, ok) {
        let i = choose|i: int| last_at(hs, name, i) && ok(hs[i].value@);
        headers_are_found_by_name(hs, name, i, i);
    }
    if value_of(hs, name) is Some {
        let k = choose|k: int| last_at(hs, name, k);
        headers_are_found_by_name(hs, name, k, k);
    }
}

/// Whether a request line is that of a cable upgrade.
pub open spec fn asks_for_the_cable(req: RequestHead) -> bool {
    !req.http2 && req.method@ == "GET"@ && req.path@ == "/cable"@ && req.scheme is None
        && req.authority is None
}

/// Whether one `Host` header is there and its value names `server_name`, and the public
/// name where there is one.
pub open spec fn hosted_at(
    hs: Seq<LoweredHeader>,
    public_name: Option<Seq<char>>,
    server_name: Seq<char>,
) -> bool {
    exists|i: int|
        only_at(hs, "host"@, i) && host_matches(hs[i].value@, server_name) && (public_name is Some
            ==> host_matches(hs[i].value@, public_name->0))
}

/// Whether the headers make up the handshake of an Action Cable client: a connection that
/// is to be upgraded, to a WebSocket, with a key, version 13, and the JSON protocol of
/// Action Cable among those on offer.
pub open spec fn shakes_hands(hs: Seq<LoweredHeader>) -> bool {
    &&& exists|i: int|
        0 <= i < hs.len() && (#[trigger] hs[i]).lower@ == "connection"@ && has_token(
            hs[i].value@,
            "upgrade"@,
        )
    &&& last_is(hs, "upgrade"@, |v: Seq<char>| lowered(trimmed(v)) == "websocket"@)
    &&& last_is(hs, "sec-websocket-key"@, |v: Seq<char>| valid_key(v))
    &&& last_is(hs, "sec-websocket-version"@, |v: Seq<char>| trimmed(v) == "13"@)
    &&& last_is(
        hs,
        "sec-websocket-protocol"@,
        |v: Seq<char>| has_token(v, "actioncable-v1-json"@),
    )
}

proof fn lemma_shakes_hands(hs: Seq<LoweredHeader>)
    ensures
        shakes_hands(hs) <==> is_handshake(hs),
{
    lemma_asks_upgrade(hs);
    let websocket = |v: Seq<char>| lowered(trimmed(v)) == "websocket"@;
    let key = |v: Seq<char>| valid_key(v);
    let version = |v: Seq<char>| trimmed(v) == "13"@;
    let protocol = |v: Seq<char>| has_token(v, "actioncable-v1-json"@);
    lemma_last_is(hs, "upgrade"@, websocket);
    lemma_last_is(hs, "sec-websocket-key"@, key);
    lemma_last_is(hs, "sec-websocket-version"@, version);
    lemma_last_is(hs, "sec-websocket-protocol"@, protocol);
    reveal_strlit("websocket");
    assert(lowered("websocket"@) =~= "websocket"@);
    if let Some(v) = value_of(hs, "upgrade"@) {
        case_does_not_count(trimmed(v), "websocket"@);
    }
}

/// Whether the last origin that `hs` names is the edge's own.
pub open spec fn comes_from_the_edge(
    hs: Seq<LoweredHeader>,
    url_scheme: Seq<char>,
    server_name: Seq<char>,
    server_port: u16,
) -> bool {
    last_is(
        hs,
        "origin"@,
        |v: Seq<char>| origin_is_edge(v, url_scheme, server_name, server_port),
    )
}

/// An upgrade is accepted exactly if it is a GET of the cable over HTTP/1, with headers that
/// fit, one host that is the edge's, a whole handshake and an origin that is the edge's.
/// Otherwise it is refused with the status of what is missing: 421 for the host and 403
/// for the origin, and 400 for the rest but for a head that is too large.
pub proof fn cable_upgrades_pass(
    req: RequestHead,
    hs: Seq<LoweredHeader>,
    public_name: Option<Seq<char>>,
    url_scheme: Seq<char>,
    server_name: Seq<char>,
    server_port: u16,
)
    ensures
        ({
            let v = cable_verdict(req, hs, public_name, url_scheme, server_name, server_port);
            let fit = asks_for_the_cable(req) && fit_for_upgrade(hs);
            let one_host = exists|i: int| only_at(hs, "host"@, i);
            let hosted = hosted_at(hs, public_name, server_name);
            let own = comes_from_the_edge(hs, url_scheme, server_name, server_port);
            &&& v is Ok <==> fit && hosted && shakes_hands(hs) && own
            &&& !asks_for_the_cable(req) ==> v == Err::<(), u16>(400)
            &&& asks_for_the_cable(req) && hs.len() > 100 ==> v == Err::<(), u16>(431)
            &&& fit && !one_host ==> v == Err::<(), u16>(400)
            &&& fit && one_host && !hosted ==> v == Err::<(), u16>(421)
            &&& fit && hosted && !shakes_hands(hs) ==> v == Err::<(), u16>(400)
            &&& fit && hosted && shakes_hands(hs) && !own ==> v == Err::<(), u16>(403)
        }),
{
    lemma_upgrade_faults(hs);
    lemma_shakes_hands(hs);
    let own = |v: Seq<char>| origin_is_edge(v, url_scheme, server_name, server_port);
    lemma_last_is(hs, "origin"@, own);
    let name = "host"@;
    headers_are_found_by_name(hs, name, 0, 0);
    if named(hs, name) == 1 {
        let k = choose|k: int| only_at(hs, name, k);
        headers_are_found_by_name(hs, name, k, k);
    }
    if exists|i: int| only_at(hs, name, i) {
        let i = choose|i: int| only_at(hs, name, i);
        headers_are_found_by_name(hs, name, i, i);
        assert forall|k: int| only_at(hs, name, k) implies k == i by {
            assert(hs[k].lower@ == name);
        }
    }
}

/// Whether a header may stand in a unary gRPC request.
pub open spec fn may_pass_grpc(h: GrpcHeader) -> bool {
    &&& valid_name(encode_utf8(h.header.name@))
    &&& !refused_names().contains(h.header.lower@)
    &&& h.header.lower@ != "connection"@
    &&& h.header.lower@ != "upgrade"@
    &&& h.header.lower@ == "content-type"@ ==> !h.web
    &&& h.header.lower@ == "te"@ ==> lowered(trimmed(h.header.value@)) == "trailers"@
    &&& h.header.lower@ == "grpc-timeout"@ ==> h.timeout_ok
}

/// Whether the headers of a gRPC request are few, small, may all pass, and set one timeout
/// at most.
pub open spec fn fit_for_grpc(hs: Seq<GrpcHeader>) -> bool {
    &&& hs.len() <= 100
    &&& weight(plain(hs)) <= 65536
    &&& forall|i: int| 0 <= i < hs.len() ==> may_pass_grpc(#[trigger] hs[i])
    &&& forall|i: int, j: int|
        0 <= i < j < hs.len() && (#[trigger] hs[i]).header.lower@ == "grpc-timeout"@ ==> (
        #[trigger] hs[j]).header.lower@ != "grpc-timeout"@
}

proof fn lemma_names_of_grpc(name: Seq<char>)
    ensures
        refused_names().contains(name) ==> name != "te"@ && name != "host"@ && name
            != "content-type"@ && name != "grpc-timeout"@,
        names_differ(),
        "connection"@ != "te"@ && "connection"@ != "host"@ && "connection"@ != "content-type"@
            && "connection"@ != "grpc-timeout"@,
        "upgrade"@ != "te"@ && "upgrade"@ != "host"@ && "upgrade"@ != "content-type"@ && "upgrade"@
            != "grpc-timeout"@,
{
    lemma_refused_names(name);
    lemma_grpc_names_differ();
    reveal_strlit("te");
    reveal_strlit("host");
    reveal_strlit("content-type");
    reveal_strlit("grpc-timeout");
    reveal_strlit("connection");
    reveal_strlit("upgrade");
    reveal_strlit("expect");
    reveal_strlit("trailer");
    reveal_strlit("transfer-encoding");
    reveal_strlit("http2-settings");
    reveal_strlit("keep-alive");
    reveal_strlit("proxy-connection");
    assert("te"@.len() == 2 && "host"@.len() == 4 && "content-type"@.len() == 12
        && "grpc-timeout"@.len() == 12);
    assert("expect"@.len() == 6 && "trailer"@.len() == 7 && "transfer-encoding"@.len() == 17
        && "http2-settings"@.len() == 14 && "keep-alive"@.len() == 10 && "proxy-connection"@.len()
        == 16 && "connection"@.len() == 10 && "upgrade"@.len() == 7);
}

proof fn lemma_grpc_header(h: GrpcHeader, hs: Seq<GrpcHeader>)
    requires
        hs.len() > 0,
        h == hs.last(),
    ensures
        valid_name(encode_utf8(h.header.name@)) && grpc_content_fault(hs) is None <==> may_pass_grpc(
            h,
        ) && (h.header.lower@ == "grpc-timeout"@ ==> named(plain(hs), "grpc-timeout"@) <= 1),
{
    lemma_refused_names(h.header.lower@);
    lemma_names_of_grpc(h.header.lower@);
    reveal_strlit("trailers");
    assert(lowered("trailers"@) =~= "trailers"@);
    case_does_not_count(trimmed(h.header.value@), "trailers"@);
}

#[verifier::rlimit(40)]
proof fn lemma_grpc_faults(hs: Seq<GrpcHeader>)
    ensures
        hs.len() <= 100 ==> (first_fault(hs, grpc_fault()) is None <==> fit_for_grpc(hs)),
    decreases hs.len(),
{
    if hs.len() > 0 {
        let rest = hs.drop_last();
        let n = hs.len() - 1;
        let h = hs.last();
        let t = "grpc-timeout"@;
        assert(h == hs[n]);
        assert(plain(hs).drop_last() =~= plain(rest));
        assert(plain(hs).last() == h.header);
        lemma_grpc_faults(rest);
        lemma_grpc_header(h, hs);
        headers_are_found_by_name(plain(rest), t, 0, 0);
        assert(grpc_fault()(hs) == header_fault(plain(hs), grpc_content_fault(hs)));
        if hs.len() <= 100 && fit_for_grpc(hs) {
            assert forall|i: int| 0 <= i < rest.len() implies may_pass_grpc(#[trigger] rest[i]) by {
                assert(rest[i] == hs[i]);
            }
            assert forall|i: int, j: int|
                0 <= i < j < rest.len() && (#[trigger] rest[i]).header.lower@ == t implies (
            #[trigger] rest[j]).header.lower@ != t by {
                assert(rest[i] == hs[i] && rest[j] == hs[j]);
            }
            assert(fit_for_grpc(rest));
            if h.header.lower@ == t {
                assert forall|i: int| 0 <= i < plain(rest).len() implies (
                #[trigger] plain(rest)[i]).lower@ != t by {
                    assert(plain(rest)[i] == hs[i].header);
                    assert(hs[n].header.lower@ == t);
                }
            }
        }
        if hs.len() <= 100 && first_fault(hs, grpc_fault()) is None {
            assert forall|i: int| 0 <= i < hs.len() implies may_pass_grpc(#[trigger] hs[i]) by {
                if i < n {
                    assert(rest[i] == hs[i]);
                }
            }
            assert forall|i: int, j: int|
                0 <= i < j < hs.len() && (#[trigger] hs[i]).header.lower@ == t implies (
            #[trigger] hs[j]).header.lower@ != t by {
                if j < n {
                    assert(rest[i] == hs[i] && rest[j] == hs[j]);
                } else {
                    if h.header.lower@ == t {
                        assert(named(plain(rest), t) == 0);
                        assert(plain(rest)[i] == hs[i].header);
                    }
                }
            }
        }
    }
}

proof fn lemma_native_last(hs: Seq<GrpcHeader>, i: int)
    requires
        last_at(plain(hs), "content-type"@, i),
    ensures
        native_last(hs) == hs[i].native,
    decreases hs.len(),
{
    let n = hs.len() - 1;
    if i < n {
        assert(plain(hs)[n].lower@ != "content-type"@);
        let rest = hs.drop_last();
        assert(plain(hs)[i] == plain(rest)[i]);
        assert forall|j: int| i < j < plain(rest).len() implies (#[trigger] plain(rest)[j]).lower@
            != "content-type"@ by {
            assert(plain(rest)[j] == plain(hs)[j]);
        }
        lemma_native_last(rest, i);
    }
}

/// Whether one content type is there, and is that of native gRPC.
pub open spec fn speaks_grpc(hs: Seq<GrpcHeader>) -> bool {
    exists|i: int| only_at(plain(hs), "content-type"@, i) && hs[i].native
}

/// A unary gRPC request is accepted exactly if it is a POST over HTTP/2 to a path of an
/// authority, with headers that fit, one content type, which is that of native gRPC, a
/// promise to take trailers, at most one host, which repeats the authority and is the
/// edge's where that has a name, and at most one length, which is within the cap.
pub proof fn grpc_requests_pass(
    req: RequestHead,
    hs: Seq<GrpcHeader>,
    max_body_bytes: u64,
    server_name: Option<Seq<char>>,
)
    ensures
        ({
            let v = grpc_verdict(req, hs, max_body_bytes, server_name);
            let ps = plain(hs);
            let posted = req.http2 && req.method@ == "POST"@ && asks_for_a_path(req);
            let fit = posted && fit_for_grpc(hs) && speaks_grpc(hs) && !absent(ps, "te"@)
                && has_its_host(req, ps);
            let direct = server_name is Some ==> is_for(req, ps, server_name->0);
            let length = exists|l: Option<u64>| #[trigger] announces(ps, l);
            let small = exists|l: Option<u64>|
                #[trigger] announces(ps, l) && (l is Some ==> l->0 <= max_body_bytes);
            &&& v is Ok <==> fit && direct && small
            &&& !posted ==> v == Err::<(), u16>(400)
            &&& posted && hs.len() > 100 ==> v == Err::<(), u16>(431)
            &&& posted && fit_for_grpc(hs) && !fit ==> v == Err::<(), u16>(400)
            &&& fit && !direct ==> v == Err::<(), u16>(421)
            &&& fit && direct && !length ==> v == Err::<(), u16>(400)
            &&& fit && direct && length && !small ==> v == Err::<(), u16>(413)
        }),
{
    let ps = plain(hs);
    lemma_grpc_faults(hs);
    lemma_asks_for_a_path(req);
    reveal_strlit("POST");
    reveal_strlit("CONNECT");
    assert(req.method@ == "POST"@ ==> !same_fold(req.method@, "CONNECT"@));
    headers_are_found_by_name(ps, "te"@, 0, 0);
    let ct = "content-type"@;
    headers_are_found_by_name(ps, ct, 0, 0);
    if named(ps, ct) == 1 {
        let k = choose|k: int| only_at(ps, ct, k);
        headers_are_found_by_name(ps, ct, k, k);
        assert(last_at(ps, ct, k));
        lemma_native_last(hs, k);
    }
    if speaks_grpc(hs) {
        let i = choose|i: int| only_at(plain(hs), "content-type"@, i) && hs[i].native;
        headers_are_found_by_name(ps, ct, i, i);
        assert(last_at(ps, ct, i));
        lemma_native_last(hs, i);
    }
    if grpc_addressed(req) {
        lemma_has_its_host(req, ps);
        headers_are_found_by_name(ps, "host"@, 0, 0);
        if has_its_host(req, ps) {
            if let Some(expected) = server_name {
                lemma_is_for(req, ps, expected);
            }
        }
    }
    match announced(ps) {
        Ok(l) => {
            lemma_announces(ps, l);
            assert(announces(ps, l));
            assert forall|m: Option<u64>| #[trigger] announces(ps, m) implies m == l by {
                lemma_announces(ps, m);
            }
        },
        Err(_) => {
            lemma_announces(ps, None);
            assert forall|m: Option<u64>| !#[trigger] announces(ps, m) by {
                lemma_announces(ps, m);
            }
        },
    }
}

/// A request tries for the cable, or for native gRPC, if any one of its headers says so,
/// wherever it stands among the others.
pub proof fn attempts_show_in_any_header(
    req: RequestHead,
    a: Seq<LoweredHeader>,
    b: Seq<LoweredHeader>,
    ga: Seq<GrpcHeader>,
    gb: Seq<GrpcHeader>,
)
    ensures
        cable_attempt(req, a + b) <==> cable_attempt(req, a) || cable_attempt(req, b),
        a.len() == 1 ==> (cable_attempt(req, a) <==> req.path@ == "/cable"@ && a[0].lower@
            == "upgrade"@ && lowered(trimmed(a[0].value@)) == "websocket"@),
        grpc_attempt(ga + gb) <==> grpc_attempt(ga) || grpc_attempt(gb),
        ga.len() == 1 ==> (grpc_attempt(ga) <==> ga[0].header.lower@ == "content-type"@
            && ga[0].native),
        a.len() == 0 ==> !cable_attempt(req, a),
        ga.len() == 0 ==> !grpc_attempt(ga),
{
    let s = a + b;
    reveal_strlit("websocket");
    assert(lowered("websocket"@) =~= "websocket"@);
    if a.len() == 1 {
        case_does_not_count(trimmed(a[0].value@), "websocket"@);
    }
    if cable_attempt(req, a) {
        let i = choose|i: int|
            0 <= i < a.len() && (#[trigger] a[i]).lower@ == "upgrade"@ && same_fold(
                trimmed(a[i].value@),
                "websocket"@,
            );
        assert(s[i] == a[i]);
    }
    if cable_attempt(req, b) {
        let i = choose|i: int|
            0 <= i < b.len() && (#[trigger] b[i]).lower@ == "upgrade"@ && same_fold(
                trimmed(b[i].value@),
                "websocket"@,
            );
        assert(s[a.len() + i] == b[i]);
    }
    if cable_attempt(req, s) {
        let i = choose|i: int|
            0 <= i < s.len() && (#[trigger] s[i]).lower@ == "upgrade"@ && same_fold(
                trimmed(s[i].value@),
                "websocket"@,
            );
        if i < a.len() {
            assert(s[i] == a[i]);
        } else {
            assert(s[i] == b[i - a.len()]);
        }
    }
    let gs = ga + gb;
    if grpc_attempt(ga) {
        let i = choose|i: int|
            0 <= i < ga.len() && (#[trigger] ga[i]).header.lower@ == "content-type"@
                && ga[i].native;
        assert(gs[i] == ga[i]);
    }
    if grpc_attempt(gb) {
        let i = choose|i: int|
            0 <= i < gb.len() && (#[trigger] gb[i]).header.lower@ == "content-type"@
                && gb[i].native;
        assert(gs[ga.len() + i] == gb[i]);
    }
    if grpc_attempt(gs) {
        let i = choose|i: int|
            0 <= i < gs.len() && (#[trigger] gs[i]).header.lower@ == "content-type"@
                && gs[i].native;
        if i < ga.len() {
            assert(gs[i] == ga[i]);
        } else {
            assert(gs[i] == gb[i - ga.len()]);
        }
    }
}

/// A client of Action Cable is let in: a GET of the cable with one host and an origin that
/// are the edge's, a key, version 13, and lists that name the upgrade and the protocol
/// anywhere among other tokens, in whatever case and with whatever white space around them.
pub proof fn cable_clients_are_let_in(
    req: RequestHead,
    hs: Seq<LoweredHeader>,
    url_scheme: Seq<char>,
    server_name: Seq<char>,
    server_port: u16,
    at: spec_fn(Seq<char>) -> int,
    others: (Seq<char>, Seq<char>),
    upgrade: Seq<char>,
    protocol: Seq<char>,
)
    requires
        asks_for_the_cable(req),
        fit_for_upgrade(hs),
        only_at(hs, "host"@, at("host"@)),
        host_matches(hs[at("host"@)].value@, server_name),
        last_at(hs, "origin"@, at("origin"@)),
        origin_is_edge(hs[at("origin"@)].value@, url_scheme, server_name, server_port),
        last_at(hs, "sec-websocket-key"@, at("sec-websocket-key"@)),
        valid_key(hs[at("sec-websocket-key"@)].value@),
        last_at(hs, "sec-websocket-version"@, at("sec-websocket-version"@)),
        hs[at("sec-websocket-version"@)].value@ == "13"@,
        last_at(hs, "upgrade"@, at("upgrade"@)),
        lowered(hs[at("upgrade"@)].value@) == "websocket"@,
        last_at(hs, "connection"@, at("connection"@)),
        hs[at("connection"@)].value@ == others.0 + seq![','] + (seq![' '] + upgrade) + seq![',']
            + others.1,
        lowered(upgrade) == "upgrade"@,
        last_at(hs, "sec-websocket-protocol"@, at("sec-websocket-protocol"@)),
        hs[at("sec-websocket-protocol"@)].value@ == others.0 + seq![','] + (seq![' '] + protocol)
            + seq![','] + others.1,
        lowered(protocol) == "actioncable-v1-json"@,
    ensures
        cable_verdict(req, hs, None, url_scheme, server_name, server_port) is Ok,
{
    cable_upgrades_pass(req, hs, None, url_scheme, server_name, server_port);
    reveal_strlit("13");
    reveal_strlit("websocket");
    reveal_strlit("upgrade");
    reveal_strlit("actioncable-v1-json");
    let empty = Seq::<char>::empty();
    trimming_takes_what_is_around(empty, "13"@, empty);
    assert(empty + "13"@ + empty =~= "13"@);
    let w = hs[at("upgrade"@)].value@;
    case_does_not_count(w, w);
    assert(w[0] == 'w' || w[0] == 'W') by {
        assert(lowered(w)[0] == 'w');
    }
    assert(w[8] == 't' || w[8] == 'T') by {
        assert(lowered(w)[8] == 't');
    }
    trimming_takes_what_is_around(empty, w, empty);
    assert(empty + w + empty =~= w);
    lemma_token_in_list(others, upgrade, "upgrade"@);
    lemma_token_in_list(others, protocol, "actioncable-v1-json"@);
    assert(hosted_at(hs, None, server_name));
    let websocket = |v: Seq<char>| lowered(trimmed(v)) == "websocket"@;
    assert(websocket(w));
    assert(last_is(hs, "upgrade"@, websocket));
    let key = |v: Seq<char>| valid_key(v);
    assert(key(hs[at("sec-websocket-key"@)].value@));
    assert(last_is(hs, "sec-websocket-key"@, key));
    let version = |v: Seq<char>| trimmed(v) == "13"@;
    assert(version(hs[at("sec-websocket-version"@)].value@));
    assert(last_is(hs, "sec-websocket-version"@, version));
    let offered = |v: Seq<char>| has_token(v, "actioncable-v1-json"@);
    assert(offered(hs[at("sec-websocket-protocol"@)].value@));
    assert(last_is(hs, "sec-websocket-protocol"@, offered));
    let own = |v: Seq<char>| origin_is_edge(v, url_scheme, server_name, server_port);
    assert(own(hs[at("origin"@)].value@));
    assert(last_is(hs, "origin"@, own));
}

proof fn lemma_token_in_list(others: (Seq<char>, Seq<char>), t: Seq<char>, token: Seq<char>)
    requires
        lowered(t) == token,
        token.len() > 0,
        forall|i: int|
            0 <= i < token.len() ==> #[trigger] token[i] == '-' || '0' <= token[i] && token[i]
                <= '9' || 'a' <= token[i] && token[i] <= 'z',
    ensures
        has_token(
            others.0 + seq![','] + (seq![' '] + t) + seq![','] + others.1,
            token,
        ),
{
    case_does_not_count(t, token);
    assert forall|i: int| 0 <= i < t.len() implies !is_white(#[trigger] t[i]) && t[i] != ',' by {
        let c = t[i];
        assert(token[i] == lowered(t)[i]);
        assert(lowered(t)[i] == lower_char(c));
        if 'A' <= c && c <= 'Z' {
            assert(65 <= c as u32 <= 90);
        } else {
            assert(c == token[i]);
            assert(c == '-' || 48 <= c as u32 <= 57 || 97 <= c as u32 <= 122);
        }
    }
    assert(!t.contains(','));
    let empty = Seq::<char>::empty();
    tokens_are_found_anywhere(others.0, seq![' '], t, empty, others.1, token);
    assert(seq![' '] + t + empty =~= seq![' '] + t);
}

} // verus!
