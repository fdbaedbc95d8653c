//! The request as a frame for a worker: its fields, and the headers that travel in it.
use vstd::prelude::*;

use crate::limits::{MAX_RESPONSE_BYTES, MAX_RESPONSE_HEADER_BYTES};
use crate::text::{
    case_does_not_count, decimal, decimal_text, eq_fold, lowered, opt_str, owned, same, same_fold,
};
use crate::worker_response::{
    closing, is_framing, is_framing_header, pair_views, ResponseHead, TextPair,
};
use crate::worker_wire::LoweredHeader;

verus! {

/// Which of the collected headers go to the worker, as a bit set, with their number and
/// whether a `Host` is among them.
pub struct FrameHeaderPlan {
    pub keep: [u64; 2],
    pub survivor_count: usize,
    pub has_host: bool,
}

impl FrameHeaderPlan {
    pub open spec fn kept(&self, i: int) -> bool {
        0 <= i < 128 && (self.keep@[i / 64] >> ((i % 64) as u64)) & 1u64 == 1u64
    }

    pub fn keeps(&self, i: usize) -> (r: bool)
        ensures
            r == self.kept(i as int),
    {
        i < 128 && (self.keep[i / 64] >> ((i % 64) as u64)) & 1u64 == 1u64
    }
}

/// The names that the edge reserves for itself.
pub open spec fn is_reserved(name: Seq<char>) -> bool {
    name.len() >= 6 && same_fold(name.take(6), "x-oxo-"@)
}

pub fn has_reserved_prefix(name: &str) -> (r: bool)
    ensures
        r == is_reserved(name@),
{
    if name.unicode_len() < 6 {
        return false;
    }
    assert(name@.subrange(0, 6) =~= name@.take(6));
    eq_fold(name.substring_char(0, 6), "x-oxo-")
}

/// A request on its way to a worker.
pub struct RequestFrame {
    pub method: String,
    pub path: String,
    pub query: String,
    pub server_name: String,
    pub server_port: u16,
    pub https: bool,
    pub remote_addr: String,
    pub headers: Vec<(String, String)>,
    pub body: Vec<u8>,
}

/// The headers that a plan keeps, whatever their names.
pub open spec fn planned(hs: Seq<LoweredHeader>, plan: FrameHeaderPlan) -> Seq<TextPair>
    decreases hs.len(),
{
    if hs.len() == 0 {
        Seq::empty()
    } else if plan.kept(hs.len() - 1) {
        planned(hs.drop_last(), plan).push((hs.last().name@, hs.last().value@))
    } else {
        planned(hs.drop_last(), plan)
    }
}

/// `ps` without reserved names.
pub open spec fn unreserved(ps: Seq<TextPair>) -> Seq<TextPair>
    decreases ps.len(),
{
    if ps.len() == 0 {
        Seq::empty()
    } else if is_reserved(ps.last().0) {
        unreserved(ps.drop_last())
    } else {
        unreserved(ps.drop_last()).push(ps.last())
    }
}

/// The headers that go to the worker: those the plan keeps, without reserved names.
pub open spec fn survivors(hs: Seq<LoweredHeader>, plan: FrameHeaderPlan) -> Seq<TextPair>
    decreases hs.len(),
{
    if hs.len() == 0 {
        Seq::empty()
    } else if plan.kept(hs.len() - 1) && !is_reserved(hs.last().name@) {
        survivors(hs.drop_last(), plan).push((hs.last().name@, hs.last().value@))
    } else {
        survivors(hs.drop_last(), plan)
    }
}

/// A list of one header or none.
pub open spec fn maybe(name: Seq<char>, value: Option<Seq<char>>) -> Seq<TextPair> {
    match value {
        Some(v) => seq![(name, v)],
        None => Seq::empty(),
    }
}

/// The `Host` that is made up for a request that names its host elsewhere.
pub open spec fn made_up_host(has_host: bool, authority: Option<Seq<char>>) -> Option<Seq<char>> {
    if has_host { None } else { authority }
}

/// All headers of a frame, in order.
pub open spec fn frame_headers(
    hs: Seq<LoweredHeader>,
    plan: FrameHeaderPlan,
    authority: Option<Seq<char>>,
    stamp: Option<Seq<char>>,
) -> Seq<TextPair> {
    maybe("host"@, made_up_host(plan.has_host, authority)) + survivors(hs, plan) + maybe(
        "x-oxo-ts0"@,
        stamp,
    )
}

/// The number of headers that the frame announces.
pub open spec fn announced_headers(
    plan: FrameHeaderPlan,
    authority: Option<Seq<char>>,
    stamp: Option<Seq<char>>,
) -> int {
    plan.survivor_count + (if made_up_host(plan.has_host, authority) is Some {
        1int
    } else {
        0
    }) + (if stamp is Some {
        1int
    } else {
        0
    })
}

/// The head of a request, with the address it came from and the one it came to.
pub struct FrameRequest<'a> {
    pub method: &'a str,
    pub path: &'a str,
    pub query: &'a str,
    pub authority: Option<&'a str>,
    pub url_scheme: &'a str,
    pub server_name: &'a str,
    pub server_port: u16,
    pub remote_addr: &'a str,
}

/// Whether the fields of a frame are those of the request.
pub open spec fn carries(f: RequestFrame, req: FrameRequest, body: Seq<u8>) -> bool {
    &&& f.method@ == req.method@
    &&& f.path@ == req.path@
    &&& f.query@ == req.query@
    &&& f.server_name@ == req.server_name@
    &&& f.server_port == req.server_port
    &&& f.https == (req.url_scheme@ == "https"@)
    &&& f.remote_addr@ == req.remote_addr@
    &&& f.body@ == body
}

/// Puts a frame together from the collected headers and a plan. A frame whose headers
/// are not as many as it would announce, because the plan kept a reserved name, is
/// refused with 400.
pub fn assemble_request_frame(
    req: &FrameRequest,
    raw_headers: &[LoweredHeader],
    plan: &FrameHeaderPlan,
    body: &[u8],
    stamp: Option<&str>,
) -> (r: Result<RequestFrame, u16>)
    requires
        plan.survivor_count <= usize::MAX - 2,
    ensures
        ({
            let hs = frame_headers(raw_headers@, *plan, opt_str(req.authority), opt_str(stamp));
            if hs.len() == announced_headers(*plan, opt_str(req.authority), opt_str(stamp)) {
                r matches Ok(f) && carries(f, *req, body@) && pair_views(f.headers@) == hs
            } else {
                r matches Err(s) && s == 400
            }
        }),
{
    let mut headers: Vec<(String, String)> = Vec::new();
    let mut count: usize = plan.survivor_count;
    if !plan.has_host {
        if let Some(a) = req.authority {
            headers.push((owned("host"), owned(a)));
            count = count + 1;
        }
    }
    let ghost front = maybe("host"@, made_up_host(plan.has_host, opt_str(req.authority)));
    assert(pair_views(headers@) =~= front);
    let ghost hs = raw_headers@;
    let mut i: usize = 0;
    assert(hs.take(0) =~= Seq::<LoweredHeader>::empty());
    assert(front + survivors(hs.take(0), *plan) =~= front);
    while i < raw_headers.len()
        invariant
            i <= raw_headers@.len(),
            hs == raw_headers@,
            pair_views(headers@) == front + survivors(hs.take(i as int), *plan),
        decreases raw_headers@.len() - i,
    {
        let h = &raw_headers[i];
        let ghost done = headers@;
        assert(hs.take(i + 1).drop_last() =~= hs.take(i as int));
        if plan.keeps(i) && !has_reserved_prefix(h.name.as_str()) {
            headers.push((owned(h.name.as_str()), owned(h.value.as_str())));
            assert(pair_views(headers@) =~= pair_views(done).push((h.name@, h.value@)));
            assert(pair_views(headers@) =~= front + survivors(hs.take(i + 1), *plan));
        }
        i += 1;
    }
    assert(hs.take(i as int) =~= hs);
    if let Some(v) = stamp {
        headers.push((owned("x-oxo-ts0"), owned(v)));
        count = count + 1;
    }
    assert(pair_views(headers@) =~= frame_headers(
        hs,
        *plan,
        opt_str(req.authority),
        opt_str(stamp),
    ));
    if headers.len() != count {
        return Err(400);
    }
    let mut bytes: Vec<u8> = Vec::new();
    bytes.extend_from_slice(body);
    assert(bytes@ =~= body@);
    Ok(
        RequestFrame {
            method: owned(req.method),
            path: owned(req.path),
            query: owned(req.query),
            server_name: owned(req.server_name),
            server_port: req.server_port,
            https: same(req.url_scheme, "https"),
            remote_addr: owned(req.remote_addr),
            headers,
            body: bytes,
        },
    )
}

/// The path of a request and what follows the question mark, if anything does.
pub struct PathAndQuery<'a> {
    pub path: &'a str,
    pub query: Option<&'a str>,
}

/// The head of a request as it goes into a frame; one without a path does not.
pub open spec fn framed_request<'a>(req: FrameRequest<'a>, target: Option<PathAndQuery<'a>>) -> Option<
    FrameRequest<'a>,
> {
    match target {
        None => None,
        Some(t) => Some(
            FrameRequest {
                path: t.path,
                query: match t.query {
                    Some(q) => q,
                    None => "",
                },
                ..req
            },
        ),
    }
}

/// Puts a frame together for a request to `target`; its path and query take the place of
/// those in `req`. A request without a path is refused with 400.
pub fn build_request_frame(
    req: &FrameRequest,
    target: Option<PathAndQuery>,
    raw_headers: &[LoweredHeader],
    plan: &FrameHeaderPlan,
    body: &[u8],
    stamp: Option<&str>,
) -> (r: Result<RequestFrame, u16>)
    requires
        plan.survivor_count <= usize::MAX - 2,
    ensures
        match framed_request(*req, target) {
            None => r matches Err(s) && s == 400,
            Some(req) => {
                let hs = frame_headers(raw_headers@, *plan, opt_str(req.authority), opt_str(stamp));
                if hs.len() == announced_headers(*plan, opt_str(req.authority), opt_str(stamp)) {
                    r matches Ok(f) && carries(f, req, body@) && pair_views(f.headers@) == hs
                } else {
                    r matches Err(s) && s == 400
                }
            },
        },
{
    match target {
        None => Err(400),
        Some(t) => {
            let full = FrameRequest {
                method: req.method,
                path: t.path,
                query: match t.query {
                    Some(q) => q,
                    None => "",
                },
                authority: req.authority,
                url_scheme: req.url_scheme,
                server_name: req.server_name,
                server_port: req.server_port,
                remote_addr: req.remote_addr,
            };
            assemble_request_frame(&full, raw_headers, plan, body, stamp)
        },
    }
}

/// What a frame from a worker may hold.
#[derive(Clone, Copy, Debug, PartialEq, Eq, Structural)]
pub struct FrameCaps {
    pub max_header_bytes: u32,
    pub max_headers: usize,
    pub max_body_bytes: u32,
}

/// The caps on responses, which are not those on requests.
pub fn response_frame_caps() -> (c: FrameCaps)
    ensures
        c.max_header_bytes == MAX_RESPONSE_HEADER_BYTES,
        c.max_headers == 100,
        c.max_body_bytes == MAX_RESPONSE_BYTES,
{
    FrameCaps {
        max_header_bytes: MAX_RESPONSE_HEADER_BYTES as u32,
        max_headers: 100,
        max_body_bytes: MAX_RESPONSE_BYTES as u32,
    }
}

/// Whether one of `ps` is called `name`, in whatever case.
pub open spec fn calls(ps: Seq<TextPair>, name: Seq<char>) -> bool {
    exists|i: int| 0 <= i < ps.len() && same_fold((#[trigger] ps[i]).0, name)
}

/// The headers of a frame made from headers that were sanitized beforehand.
pub open spec fn owned_headers(ps: Seq<TextPair>, authority: Option<Seq<char>>) -> Seq<TextPair> {
    maybe("host"@, made_up_host(calls(ps, "host"@), authority)) + unreserved(ps)
}

/// Puts a frame together from headers that were sanitized beforehand; reserved names
/// are left out.
pub fn assemble_request_frame_owned(
    req: &FrameRequest,
    sanitized_headers: &Vec<(String, String)>,
    body: Vec<u8>,
) -> (f: RequestFrame)
    ensures
        carries(f, *req, body@),
        pair_views(f.headers@) == owned_headers(
            pair_views(sanitized_headers@),
            opt_str(req.authority),
        ),
{
    let ghost ps = pair_views(sanitized_headers@);
    let mut has_host: bool = false;
    let mut i: usize = 0;
    while i < sanitized_headers.len()
        invariant
            i <= sanitized_headers@.len(),
            ps == pair_views(sanitized_headers@),
            has_host == exists|j: int| 0 <= j < i && same_fold((#[trigger] ps[j]).0, "host"@),
        decreases sanitized_headers@.len() - i,
    {
        assert(ps[i as int].0 == sanitized_headers@[i as int].0@);
        if eq_fold(sanitized_headers[i].0.as_str(), "host") {
            has_host = true;
        }
        i += 1;
    }
    let mut headers: Vec<(String, String)> = Vec::new();
    if !has_host {
        if let Some(a) = req.authority {
            headers.push((owned("host"), owned(a)));
        }
    }
    let ghost front = maybe("host"@, made_up_host(calls(ps, "host"@), opt_str(req.authority)));
    assert(pair_views(headers@) =~= front);
    let mut k: usize = 0;
    assert(ps.take(0) =~= Seq::<TextPair>::empty());
    assert(front + unreserved(ps.take(0)) =~= front);
    while k < sanitized_headers.len()
        invariant
            k <= sanitized_headers@.len(),
            ps == pair_views(sanitized_headers@),
            pair_views(headers@) == front + unreserved(ps.take(k as int)),
        decreases sanitized_headers@.len() - k,
    {
        let name = sanitized_headers[k].0.as_str();
        let value = sanitized_headers[k].1.as_str();
        let ghost done = headers@;
        assert(ps.take(k + 1).drop_last() =~= ps.take(k as int));
        assert(ps[k as int] == (name@, value@));
        if !has_reserved_prefix(name) {
            headers.push((owned(name), owned(value)));
            assert(pair_views(headers@) =~= pair_views(done).push((name@, value@)));
            assert(pair_views(headers@) =~= front + unreserved(ps.take(k + 1)));
        }
        k += 1;
    }
    assert(ps.take(k as int) =~= ps);
    RequestFrame {
        method: owned(req.method),
        path: owned(req.path),
        query: owned(req.query),
        server_name: owned(req.server_name),
        server_port: req.server_port,
        https: same(req.url_scheme, "https"),
        remote_addr: owned(req.remote_addr),
        headers,
        body,
    }
}

/// Both ways of putting a frame together give the same headers, as long as the plan
/// knows rightly whether it keeps a `Host`.
pub proof fn both_builders_agree(
    hs: Seq<LoweredHeader>,
    plan: FrameHeaderPlan,
    authority: Option<Seq<char>>,
)
    requires
        plan.has_host == calls(planned(hs, plan), "host"@),
    ensures
        frame_headers(hs, plan, authority, None) == owned_headers(planned(hs, plan), authority),
{
    lemma_survivors(hs, plan);
    assert(frame_headers(hs, plan, authority, None) =~= owned_headers(
        planned(hs, plan),
        authority,
    ));
}

proof fn lemma_survivors(hs: Seq<LoweredHeader>, plan: FrameHeaderPlan)
    ensures
        survivors(hs, plan) == unreserved(planned(hs, plan)),
    decreases hs.len(),
{
    if hs.len() > 0 {
        lemma_survivors(hs.drop_last(), plan);
        if plan.kept(hs.len() - 1) {
            let p = (hs.last().name@, hs.last().value@);
            assert(planned(hs, plan).drop_last() =~= planned(hs.drop_last(), plan));
        }
    }
}

/// No reserved name that a client sent reaches a worker.
pub proof fn no_reserved_name_survives(hs: Seq<LoweredHeader>, plan: FrameHeaderPlan, i: int)
    requires
        0 <= i < survivors(hs, plan).len(),
    ensures
        !is_reserved(survivors(hs, plan)[i].0),
    decreases hs.len(),
{
    if hs.len() > 0 && i < survivors(hs.drop_last(), plan).len() {
        no_reserved_name_survives(hs.drop_last(), plan, i);
    }
}

/// `ps` without the headers that frame a response.
pub open spec fn unframed(ps: Seq<TextPair>) -> Seq<TextPair>
    decreases ps.len(),
{
    if ps.len() == 0 {
        Seq::empty()
    } else if is_framing(ps.last().0) {
        unframed(ps.drop_last())
    } else {
        unframed(ps.drop_last()).push(ps.last())
    }
}

/// No framing header of a worker's answer goes on to the client.
pub proof fn no_framing_header_survives(ps: Seq<TextPair>, i: int)
    requires
        0 <= i < unframed(ps).len(),
    ensures
        !is_framing(unframed(ps)[i].0),
    decreases ps.len(),
{
    if ps.len() > 0 && i < unframed(ps.drop_last()).len() {
        no_framing_header_survives(ps.drop_last(), i);
    }
}

fn drop_framing(headers: &Vec<(String, String)>) -> (r: Vec<(String, String)>)
    ensures
        pair_views(r@) == unframed(pair_views(headers@)),
{
    let ghost ps = pair_views(headers@);
    let mut out: Vec<(String, String)> = Vec::new();
    let mut i: usize = 0;
    assert(ps.take(0) =~= Seq::<TextPair>::empty());
    assert(pair_views(out@) =~= Seq::<TextPair>::empty());
    while i < headers.len()
        invariant
            i <= headers@.len(),
            ps == pair_views(headers@),
            pair_views(out@) == unframed(ps.take(i as int)),
        decreases headers@.len() - i,
    {
        let name = headers[i].0.as_str();
        let value = headers[i].1.as_str();
        let ghost done = out@;
        assert(ps.take(i + 1).drop_last() =~= ps.take(i as int));
        assert(ps[i as int] == (name@, value@));
        if !is_framing_header(name) {
            out.push((owned(name), owned(value)));
            assert(pair_views(out@) =~= pair_views(done).push((name@, value@)));
        }
        i += 1;
    }
    assert(ps.take(i as int) =~= ps);
    out
}

/// The head of a whole response for the client: the worker's headers without those that
/// frame it, its length, and the end of the connection where it is not kept.
pub fn build_response_header(
    status: u16,
    headers: &Vec<(String, String)>,
    body_len: usize,
    keepalive_enabled: bool,
) -> (h: ResponseHead)
    ensures
        h.status == status,
        pair_views(h.headers@) == unframed(pair_views(headers@)).push(
            ("Content-Length"@, decimal(body_len as nat)),
        ) + closing(keepalive_enabled),
{
    let mut out = drop_framing(headers);
    let ghost done = out@;
    out.push((owned("Content-Length"), decimal_text(body_len as u64)));
    if !keepalive_enabled {
        out.push((owned("Connection"), owned("close")));
    }
    assert(pair_views(out@) =~= pair_views(done).push(
        ("Content-Length"@, decimal(body_len as nat)),
    ) + closing(keepalive_enabled));
    ResponseHead { status, headers: out }
}

/// The head of a response that comes in chunks.
pub fn build_response_chunked_header(
    status: u16,
    headers: &Vec<(String, String)>,
    keepalive_enabled: bool,
) -> (h: ResponseHead)
    ensures
        h.status == status,
        pair_views(h.headers@) == unframed(pair_views(headers@)) + closing(keepalive_enabled),
{
    let mut out = drop_framing(headers);
    let ghost done = out@;
    if !keepalive_enabled {
        out.push((owned("Connection"), owned("close")));
    }
    assert(pair_views(out@) =~= pair_views(done) + closing(keepalive_enabled));
    ResponseHead { status, headers: out }
}

/// A name is reserved if it begins with the edge's prefix, in whatever case.
pub proof fn reserved_names_begin_with_the_prefix(name: Seq<char>)
    ensures
        is_reserved(name) <==> exists|rest: Seq<char>| #[trigger]
            ("x-oxo-"@ + rest) == lowered(name),
{
    reveal_strlit("x-oxo-");
    let p = "x-oxo-"@;
    if name.len() >= 6 {
        case_does_not_count(name.take(6), p);
        assert(lowered(p) =~= p);
        assert(lowered(name.take(6)) =~= lowered(name).take(6));
        if is_reserved(name) {
            let rest = lowered(name).skip(6);
            assert(p + rest =~= lowered(name));
        }
    }
    case_does_not_count(name, name);
    if exists|rest: Seq<char>| #[trigger] (p + rest) == lowered(name) {
        let rest = choose|rest: Seq<char>| #[trigger] (p + rest) == lowered(name);
        assert((p + rest).take(6) =~= p);
        assert(name.len() >= 6);
    }
}

/// The headers that are left out are the reserved ones and no others, and those that stay
/// keep their order; likewise with the headers that frame a response.
pub proof fn only_what_must_is_left_out(ps: Seq<TextPair>)
    ensures
        unreserved(ps) == ps.filter(|p: TextPair| !is_reserved(p.0)),
        unframed(ps) == ps.filter(
            |p: TextPair|
                lowered(p.0) != "content-length"@ && lowered(p.0) != "transfer-encoding"@
                    && lowered(p.0) != "connection"@,
        ),
    decreases ps.len(),
{
    reveal(Seq::filter);
    if ps.len() > 0 {
        only_what_must_is_left_out(ps.drop_last());
        crate::worker_response::lemma_framing_names(ps.last().0);
    }
}

/// The headers that a plan keeps are those whose bits are set, in their order.
pub proof fn plans_keep_by_position(hs: Seq<LoweredHeader>, plan: FrameHeaderPlan)
    ensures
        planned(hs, plan) == Seq::new(hs.len(), |i: int| i).filter(
            |i: int| plan.kept(i),
        ).map_values(|i: int| (hs[i].name@, hs[i].value@)),
        survivors(hs, plan) == planned(hs, plan).filter(|p: TextPair| !is_reserved(p.0)),
    decreases hs.len(),
{
    lemma_survivors(hs, plan);
    only_what_must_is_left_out(planned(hs, plan));
    let all = Seq::new(hs.len(), |i: int| i);
    let keep = |i: int| plan.kept(i);
    let text = |i: int| (hs[i].name@, hs[i].value@);
    reveal(Seq::filter);
    if hs.len() > 0 {
        let rest = hs.drop_last();
        let before = Seq::new(rest.len(), |i: int| i);
        let text_before = |i: int| (rest[i].name@, rest[i].value@);
        plans_keep_by_position(rest, plan);
        assert(all.drop_last() =~= before);
        let kept = before.filter(keep);
        lemma_below(before, keep, rest.len() as int);
        assert(kept.map_values(text) =~= kept.map_values(text_before)) by {
            assert forall|k: int| 0 <= k < kept.len() implies text(#[trigger] kept[k])
                == text_before(kept[k]) by {
                assert(rest[kept[k]] == hs[kept[k]]);
            }
        }
        if keep(hs.len() - 1) {
            assert(all.filter(keep) == kept.push(hs.len() - 1));
            assert(kept.push(hs.len() - 1).map_values(text) =~= kept.map_values(text).push(
                text(hs.len() - 1),
            ));
        } else {
            assert(all.filter(keep) == kept);
        }
    } else {
        assert(planned(hs, plan) =~= all.filter(keep).map_values(text));
    }
}

proof fn lemma_below(s: Seq<int>, keep: spec_fn(int) -> bool, n: int)
    requires
        forall|i: int| 0 <= i < s.len() ==> 0 <= #[trigger] s[i] < n,
    ensures
        forall|i: int| 0 <= i < s.filter(keep).len() ==> 0 <= #[trigger] s.filter(keep)[i] < n,
{
    assert forall|i: int| 0 <= i < s.filter(keep).len() implies 0 <= #[trigger] s.filter(keep)[i]
        < n by {
        s.lemma_filter_contains_rev(keep, s.filter(keep)[i]);
        let j = choose|j: int| 0 <= j < s.len() && s[j] == s.filter(keep)[i];
        assert(0 <= s[j] < n);
    }
}

/// A bit that is set in a plan keeps the header of its position and says nothing of any
/// other; no header behind the last bit is kept.
pub proof fn plans_tell_positions_apart(plan: FrameHeaderPlan, with: FrameHeaderPlan, i: int, j: int)
    requires
        0 <= i < 128,
        with.keep@ == plan.keep@.update(
            i / 64,
            plan.keep@[i / 64] | (1u64 << ((i % 64) as u64)),
        ),
    ensures
        with.kept(i),
        j != i ==> with.kept(j) == plan.kept(j),
        j < 0 || j >= 128 ==> !plan.kept(j),
{
    let w = plan.keep@[i / 64];
    let b = (i % 64) as u64;
    assert(plan.keep@.len() == 2);
    assert(((w | (1u64 << b)) >> b) & 1u64 == 1u64) by (bit_vector)
        requires
            b < 64,
    ;
    if 0 <= j < 128 && j != i && j / 64 == i / 64 {
        let c = (j % 64) as u64;
        assert(c != b);
        assert(((w | (1u64 << b)) >> c) & 1u64 == (w >> c) & 1u64) by (bit_vector)
            requires
                b < 64,
                c < 64,
                b != c,
        ;
    }
}

/// A frame has one host: the given one where the headers name one, the authority where
/// they name none; and every other header is a given one.
pub proof fn frames_name_one_host(
    ps: Seq<TextPair>,
    authority: Option<Seq<char>>,
    at: Option<int>,
)
    requires
        match at {
            Some(i) => 0 <= i < ps.len() && lowered(ps[i].0) == "host"@ && forall|j: int|
                0 <= j < ps.len() && j != i ==> lowered((#[trigger] ps[j]).0) != "host"@,
            None => authority is Some && forall|j: int|
                0 <= j < ps.len() ==> lowered((#[trigger] ps[j]).0) != "host"@,
        },
    ensures
        ({
            let hs = owned_headers(ps, authority);
            let host: TextPair = match at {
                Some(i) => ps[i],
                None => ("host"@, authority->0),
            };
            exists|k: int|
                0 <= k < hs.len() && hs[k] == host && forall|j: int|
                    0 <= j < hs.len() && j != k ==> lowered((#[trigger] hs[j]).0) != "host"@
                        && ps.contains(hs[j]) && !is_reserved(hs[j].0)
        }),
{
    let keep = |p: TextPair| !is_reserved(p.0);
    let hs = owned_headers(ps, authority);
    let kept = ps.filter(keep);
    only_what_must_is_left_out(ps);
    reveal_strlit("host");
    assert(lowered("host"@) =~= "host"@);
    assert forall|j: int| 0 <= j < ps.len() implies (same_fold((#[trigger] ps[j]).0, "host"@)
        <==> lowered(ps[j].0) == "host"@) by {
        case_does_not_count(ps[j].0, "host"@);
    }
    broadcast use vstd::seq_lib::group_filter_ensures;

    match at {
        Some(i) => {
            assert(calls(ps, "host"@));
            assert(hs =~= kept);
            reserved_names_begin_with_the_prefix(ps[i].0);
            reveal_strlit("x-oxo-");
            assert(!is_reserved(ps[i].0)) by {
                if is_reserved(ps[i].0) {
                    let rest = choose|rest: Seq<char>| #[trigger]
                        ("x-oxo-"@ + rest) == lowered(ps[i].0);
                    assert(("x-oxo-"@ + rest).len() >= 6);
                }
            }
            lemma_filter_host(ps, keep, i);
            let k = choose|k: int|
                0 <= k < kept.len() && kept[k] == ps[i] && forall|j: int|
                    0 <= j < kept.len() && j != k ==> lowered((#[trigger] kept[j]).0) != "host"@;
            assert forall|j: int| 0 <= j < hs.len() && j != k implies lowered((#[trigger] hs[j]).0)
                != "host"@ && ps.contains(hs[j]) && !is_reserved(hs[j].0) by {
                ps.lemma_filter_contains_rev(keep, kept[j]);
                assert(keep(kept[j]));
            }
        },
        None => {
            assert(!calls(ps, "host"@));
            assert(hs =~= seq![("host"@, authority->0)] + kept);
            assert forall|j: int| 0 <= j < hs.len() && j != 0 implies lowered((#[trigger] hs[j]).0)
                != "host"@ && ps.contains(hs[j]) && !is_reserved(hs[j].0) by {
                assert(hs[j] == kept[j - 1]);
                ps.lemma_filter_contains_rev(keep, kept[j - 1]);
                assert(keep(kept[j - 1]));
                let m = choose|m: int| 0 <= m < ps.len() && ps[m] == kept[j - 1];
                assert(lowered(ps[m].0) != "host"@);
            }
            assert(hs[0] == ("host"@, authority->0));
        },
    }
}

proof fn lemma_filter_host(ps: Seq<TextPair>, keep: spec_fn(TextPair) -> bool, i: int)
    requires
        0 <= i < ps.len(),
        keep(ps[i]),
        forall|j: int| 0 <= j < ps.len() && j != i ==> lowered((#[trigger] ps[j]).0) != "host"@,
    ensures
        exists|k: int|
            0 <= k < ps.filter(keep).len() && ps.filter(keep)[k] == ps[i] && forall|j: int|
                0 <= j < ps.filter(keep).len() && j != k ==> lowered(
                    (#[trigger] ps.filter(keep)[j]).0,
                ) != "host"@,
    decreases ps.len(),
{
    let rest = ps.drop_last();
    let n = ps.len() - 1;
    reveal(Seq::filter);
    let kept = rest.filter(keep);
    let all = ps.filter(keep);
    if i == n {
        assert(all == kept.push(ps[n]));
        let k = kept.len() as int;
        assert(all[k] == ps[i]);
        assert forall|j: int| 0 <= j < all.len() && j != k implies lowered((#[trigger] all[j]).0)
            != "host"@ by {
            assert(all[j] == kept[j]);
            rest.lemma_filter_contains_rev(keep, kept[j]);
            let m = choose|m: int| 0 <= m < rest.len() && rest[m] == kept[j];
            assert(ps[m] == kept[j]);
        }
    } else {
        assert(rest[i] == ps[i]);
        assert forall|j: int| 0 <= j < rest.len() && j != i implies lowered((#[trigger] rest[j]).0)
            != "host"@ by {
            assert(rest[j] == ps[j]);
        }
        lemma_filter_host(rest, keep, i);
        let k = choose|k: int|
            0 <= k < kept.len() && kept[k] == rest[i] && forall|j: int|
                0 <= j < kept.len() && j != k ==> lowered((#[trigger] kept[j]).0) != "host"@;
        assert(lowered(ps[n].0) != "host"@);
        assert(all[k] == ps[i]);
        assert forall|j: int| 0 <= j < all.len() && j != k implies lowered((#[trigger] all[j]).0)
            != "host"@ by {
            if j < kept.len() {
                assert(all[j] == kept[j]);
            } else {
                assert(all[j] == ps[n]);
            }
        }
    }
}

/// A frame announces as many headers as it holds exactly if its plan counted the
/// survivors rightly. Of two frames that differ in the stamp alone, the one with the
/// stamp has it last and is otherwise the same.
pub proof fn frames_count_and_stamp(
    hs: Seq<LoweredHeader>,
    plan: FrameHeaderPlan,
    authority: Option<Seq<char>>,
    stamp: Seq<char>,
)
    ensures
        ({
            let bare = frame_headers(hs, plan, authority, None);
            let stamped = frame_headers(hs, plan, authority, Some(stamp));
            &&& bare.len() == announced_headers(plan, authority, None) <==> survivors(
                hs,
                plan,
            ).len() == plan.survivor_count
            &&& stamped.len() == announced_headers(plan, authority, Some(stamp)) <==> survivors(
                hs,
                plan,
            ).len() == plan.survivor_count
            &&& stamped == bare.push(("x-oxo-ts0"@, stamp))
        }),
{
    let bare = frame_headers(hs, plan, authority, None);
    assert(frame_headers(hs, plan, authority, Some(stamp)) =~= bare.push(("x-oxo-ts0"@, stamp)));
}

/// A frame tells a worker all of a request: each field is the request's own, and the
/// worker learns of a secure connection exactly from the scheme.
pub proof fn frames_tell_the_request(f: RequestFrame, req: FrameRequest, body: Seq<u8>)
    requires
        carries(f, req, body),
    ensures
        f.method@ == req.method@ && f.path@ == req.path@ && f.query@ == req.query@,
        f.server_name@ == req.server_name@ && f.server_port == req.server_port,
        f.remote_addr@ == req.remote_addr@ && f.body@ == body,
        f.https <==> req.url_scheme@ == "https"@,
{
}

} // verus!
