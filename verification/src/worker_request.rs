//! The body of a request as it is read from the client, the request as it is written
//! to a worker over the text hop, and the walk over the workers until one answers.
use vstd::prelude::*;
use vstd::utf8::encode_utf8;

use crate::text::{case_does_not_count, decimal, decimal_text, eq_fold, lowered, same_fold};
use crate::worker_response::{header_lines_are_read_whole, header_of, sent_line};
use crate::worker_wire::{
    has_control, has_invalid_header_value_bytes, is_valid_header_name, valid_name, RequestHead,
};

verus! {

/// How the body of a request is to be read.
#[derive(Clone, Copy, Debug, PartialEq, Eq, Structural)]
pub enum BodyPlan {
    /// There is no body.
    Empty,
    /// The body is as long as announced.
    Exact { expected: usize },
    /// The body ends with its stream and may be this long.
    Stream { max: usize },
}

/// How the body is to be read: as announced, else over HTTP/2 until the stream ends,
/// else not at all. An announced length that no buffer can hold is refused with 413.
pub open spec fn body_plan(
    content_length: Option<u64>,
    http2: bool,
    max_body_bytes: u64,
) -> Result<BodyPlan, u16> {
    match content_length {
        Some(n) => if n == 0 {
            Ok(BodyPlan::Empty)
        } else if n > usize::MAX {
            Err(413)
        } else {
            Ok(BodyPlan::Exact { expected: n as usize })
        },
        None => if !http2 {
            Ok(BodyPlan::Empty)
        } else {
            Ok(
                BodyPlan::Stream {
                    max: if max_body_bytes > usize::MAX {
                        usize::MAX
                    } else {
                        max_body_bytes as usize
                    },
                },
            )
        },
    }
}

/// What one read from the client gave.
pub enum BodyEvent {
    Chunk { bytes: Vec<u8> },
    End,
    Failed,
    TimedOut,
}

/// A body while it is read.
pub struct BodyReader {
    plan: BodyPlan,
    body: Vec<u8>,
}

impl BodyReader {
    pub closed spec fn plan(&self) -> BodyPlan {
        self.plan
    }

    /// The bytes read so far.
    pub closed spec fn view(&self) -> Seq<u8> {
        self.body@
    }

    /// Never more than the plan allows.
    pub open spec fn wf(&self) -> bool {
        match self.plan() {
            BodyPlan::Empty => self@.len() == 0,
            BodyPlan::Exact { expected } => self@.len() <= expected,
            BodyPlan::Stream { max } => self@.len() <= max,
        }
    }

    pub fn begin(content_length: Option<u64>, http2: bool, max_body_bytes: u64) -> (r: Result<
        BodyReader,
        u16,
    >)
        ensures
            match body_plan(content_length, http2, max_body_bytes) {
                Ok(plan) => r matches Ok(b) && b.plan() == plan && b@ == Seq::<u8>::empty()
                    && b.wf(),
                Err(status) => r matches Err(s) && s == status,
            },
    {
        let plan: BodyPlan = match content_length {
            Some(n) => if n == 0 {
                BodyPlan::Empty
            } else if n > usize::MAX as u64 {
                return Err(413);
            } else {
                BodyPlan::Exact { expected: n as usize }
            },
            None => if !http2 {
                BodyPlan::Empty
            } else if max_body_bytes > usize::MAX as u64 {
                BodyPlan::Stream { max: usize::MAX }
            } else {
                BodyPlan::Stream { max: max_body_bytes as usize }
            },
        };
        Ok(BodyReader { plan, body: Vec::new() })
    }

    /// Whether the body is complete without another read.
    pub open spec fn complete(&self) -> bool {
        match self.plan() {
            BodyPlan::Empty => true,
            BodyPlan::Exact { expected } => self@.len() == expected,
            BodyPlan::Stream { max } => false,
        }
    }

    pub fn is_complete(&self) -> (r: bool)
        ensures
            r == self.complete(),
    {
        match self.plan {
            BodyPlan::Empty => true,
            BodyPlan::Exact { expected } => self.body.len() == expected,
            BodyPlan::Stream { max: _ } => false,
        }
    }

    /// Takes in what one read gave and says whether the body is complete. A body that
    /// breaks off or overruns its announced length is refused with 400, one that grows
    /// past the bound with 413, one that does not come in time with 408.
    pub fn step(&mut self, event: BodyEvent) -> (r: Result<bool, u16>)
        requires
            old(self).wf(),
            !old(self).complete(),
        ensures
            (event matches BodyEvent::Chunk { bytes } ==> (r is Ok ==> final(self)@ == old(self)@
                + bytes@)),
            r is Err ==> final(self)@ == old(self)@,
            (old(self).plan() matches BodyPlan::Exact { expected } ==> (r == Ok::<bool, u16>(true)
                ==> final(self)@.len() == expected)),
            (old(self).plan() is Exact && event is End) ==> r == Err::<bool, u16>(400),
            (old(self).plan() is Stream && event is End) ==> r == Ok::<bool, u16>(true),
            event is TimedOut <==> r == Err::<bool, u16>(408),
            final(self).plan() == old(self).plan(),
            final(self).wf(),
            match event {
                BodyEvent::Chunk { bytes } => {
                    let sum = old(self)@.len() + bytes@.len();
                    let fits = match old(self).plan() {
                        BodyPlan::Empty => false,
                        BodyPlan::Exact { expected } => sum <= expected,
                        BodyPlan::Stream { max } => sum <= max,
                    };
                    if fits {
                        &&& final(self)@ == old(self)@ + bytes@
                        &&& r == Ok::<bool, u16>(final(self).complete())
                    } else {
                        &&& final(self)@ == old(self)@
                        &&& r == (if old(self).plan() is Exact {
                            Err::<bool, u16>(400)
                        } else {
                            Err::<bool, u16>(413)
                        })
                    }
                },
                BodyEvent::End => final(self)@ == old(self)@ && r == (if old(self).plan() is Stream {
                    Ok::<bool, u16>(true)
                } else {
                    Err::<bool, u16>(400)
                }),
                BodyEvent::Failed => final(self)@ == old(self)@ && r == Err::<bool, u16>(400),
                BodyEvent::TimedOut => final(self)@ == old(self)@ && r == Err::<bool, u16>(408),
            },
    {
        match event {
            BodyEvent::Chunk { bytes } => {
                let sum: usize = self.body.len().saturating_add(bytes.len());
                let exact: bool = self.body.len() <= usize::MAX - bytes.len();
                match self.plan {
                    BodyPlan::Empty => Err(413),
                    BodyPlan::Exact { expected } => {
                        if !exact || sum > expected {
                            return Err(400);
                        }
                        let mut more = bytes;
                        self.body.append(&mut more);
                        Ok(self.body.len() == expected)
                    },
                    BodyPlan::Stream { max } => {
                        if !exact || sum > max {
                            return Err(413);
                        }
                        let mut more = bytes;
                        self.body.append(&mut more);
                        Ok(false)
                    },
                }
            },
            BodyEvent::End => match self.plan {
                BodyPlan::Stream { max: _ } => Ok(true),
                _ => Err(400),
            },
            BodyEvent::Failed => Err(400),
            BodyEvent::TimedOut => Err(408),
        }
    }

    /// The body.
    pub fn into_body(self) -> (r: Vec<u8>)
        ensures
            r@ == self@,
    {
        self.body
    }
}

/// A header that a worker request can carry.
pub open spec fn valid_line(name: Seq<char>, value: Seq<char>) -> bool {
    valid_name(encode_utf8(name)) && !has_control(encode_utf8(value))
}

/// The bytes of one header line.
pub open spec fn line_bytes(name: Seq<char>, value: Seq<char>) -> Seq<u8> {
    encode_utf8(name) + encode_utf8(": "@) + encode_utf8(value) + encode_utf8("\r\n"@)
}

/// Appends one header line; a header that no line can carry is refused with 400.
pub fn append_header_line(request: &mut Vec<u8>, name: &str, value: &str) -> (r: Result<(), u16>)
    ensures
        if valid_line(name@, value@) {
            r is Ok && final(request)@ == old(request)@ + line_bytes(name@, value@)
        } else {
            r == Err::<(), u16>(400) && final(request)@ == old(request)@
        },
{
    if !is_valid_header_name(name.as_bytes()) || has_invalid_header_value_bytes(value.as_bytes()) {
        return Err(400);
    }
    push_text(request, name);
    push_text(request, ": ");
    push_text(request, value);
    push_text(request, "\r\n");
    assert(request@ =~= old(request)@ + line_bytes(name@, value@));
    Ok(())
}

/// Appends the bytes of `s`.
fn push_text(out: &mut Vec<u8>, s: &str)
    ensures
        final(out)@ == old(out)@ + encode_utf8(s@),
{
    out.extend_from_slice(s.as_bytes());
    assert(out@ =~= old(out)@ + encode_utf8(s@));
}

/// A header as it is handed to the text hop.
pub type HeaderPair = (String, String);

/// Whether one of `hs` is called `name`, in whatever case.
pub open spec fn has_header(hs: Seq<HeaderPair>, name: Seq<char>) -> bool {
    exists|i: int| 0 <= i < hs.len() && same_fold((#[trigger] hs[i]).0@, name)
}

/// The headers that the edge writes itself.
pub open spec fn is_own_header(name: Seq<char>) -> bool {
    same_fold(name, "connection"@) || same_fold(name, "content-length"@)
}

/// The lines of those headers that are passed on.
pub open spec fn passed_on(hs: Seq<HeaderPair>) -> Seq<u8>
    decreases hs.len(),
{
    if hs.len() == 0 {
        Seq::empty()
    } else if is_own_header(hs.last().0@) {
        passed_on(hs.drop_last())
    } else {
        passed_on(hs.drop_last()) + line_bytes(hs.last().0@, hs.last().1@)
    }
}

/// Whether every header that is passed on can be carried by a line.
pub open spec fn all_valid(hs: Seq<HeaderPair>) -> bool {
    forall|i: int|
        0 <= i < hs.len() ==> is_own_header((#[trigger] hs[i]).0@) || valid_line(hs[i].0@, hs[i].1@)
}

/// The `Host` line that is added for a request that names its host elsewhere.
pub open spec fn added_host(req: RequestHead, hs: Seq<HeaderPair>) -> Option<Seq<char>> {
    if has_header(hs, "host"@) {
        None
    } else {
        match req.authority {
            Some(a) => Some(a@),
            None => None,
        }
    }
}

/// The request as it goes to a worker over the text hop: one request per connection,
/// with its length spelled out.
pub open spec fn request_bytes(req: RequestHead, hs: Seq<HeaderPair>, body: Seq<u8>) -> Seq<u8> {
    encode_utf8(req.method@) + encode_utf8(" "@) + encode_utf8(req.path_and_query->0@)
        + encode_utf8(" HTTP/1.1\r\n"@) + (match added_host(req, hs) {
        Some(a) => line_bytes("Host"@, a),
        None => Seq::empty(),
    }) + passed_on(hs) + line_bytes("Content-Length"@, decimal(body.len() as nat)) + line_bytes(
        "Connection"@,
        "close"@,
    ) + encode_utf8("\r\n"@) + body
}

/// Whether a request can be written at all.
pub open spec fn writable(req: RequestHead, hs: Seq<HeaderPair>) -> bool {
    &&& req.path_and_query is Some
    &&& added_host(req, hs) matches Some(a) ==> valid_line("Host"@, a)
    &&& all_valid(hs)
}

proof fn lemma_ascii_bytes(s: Seq<char>)
    requires
        vstd::utf8::is_ascii_chars(s),
    ensures
        encode_utf8(s) == Seq::new(s.len(), |i: int| s[i] as u8),
{
    vstd::utf8::is_ascii_chars_encode_utf8(s);
    assert(encode_utf8(s) =~= Seq::new(s.len(), |i: int| s[i] as u8));
}

proof fn lemma_decimal_digits(n: nat)
    ensures
        decimal(n).len() > 0,
        forall|i: int| 0 <= i < decimal(n).len() ==> '0' <= #[trigger] decimal(n)[i] && decimal(n)[i] <= '9',
    decreases n,
{
    if n >= 10 {
        lemma_decimal_digits(n / 10);
    }
}

proof fn lemma_own_lines_valid(n: nat)
    ensures
        valid_line("Content-Length"@, decimal(n)),
        valid_line("Connection"@, "close"@),
{
    reveal_strlit("Content-Length");
    reveal_strlit("Connection");
    reveal_strlit("close");
    lemma_ascii_bytes("Content-Length"@);
    lemma_ascii_bytes("Connection"@);
    lemma_ascii_bytes("close"@);
    lemma_decimal_digits(n);
    lemma_ascii_bytes(decimal(n));
    let d = encode_utf8(decimal(n));
    assert forall|i: int| 0 <= i < d.len() implies !crate::worker_wire::is_control_byte(
        #[trigger] d[i],
    ) by {
        assert(d[i] == decimal(n)[i] as u8);
    }
}

/// Writes a request for a worker of the text hop.
pub fn build_worker_request(req: &RequestHead, headers: &Vec<HeaderPair>, body: &[u8]) -> (r: Result<
    Vec<u8>,
    u16,
>)
    ensures
        if writable(*req, headers@) {
            r matches Ok(bytes) && bytes@ == request_bytes(*req, headers@, body@)
        } else {
            r matches Err(status) && status == 400
        },
{
    let path = match &req.path_and_query {
        None => {
            return Err(400);
        },
        Some(p) => p.as_str(),
    };
    let ghost hs = headers@;
    let mut has_host: bool = false;
    let mut i: usize = 0;
    while i < headers.len()
        invariant
            i <= headers@.len(),
            hs == headers@,
            has_host == exists|j: int| 0 <= j < i && same_fold((#[trigger] hs[j]).0@, "host"@),
        decreases headers@.len() - i,
    {
        if eq_fold(headers[i].0.as_str(), "host") {
            assert(same_fold(hs[i as int].0@, "host"@));
            has_host = true;
        }
        i += 1;
    }
    let mut out: Vec<u8> = Vec::new();
    push_text(&mut out, req.method.as_str());
    push_text(&mut out, " ");
    push_text(&mut out, path);
    push_text(&mut out, " HTTP/1.1\r\n");
    let ghost line = out@;
    assert(line =~= encode_utf8(req.method@) + encode_utf8(" "@) + encode_utf8(path@)
        + encode_utf8(" HTTP/1.1\r\n"@));
    if !has_host {
        if let Some(a) = &req.authority {
            if let Err(status) = append_header_line(&mut out, "Host", a.as_str()) {
                return Err(status);
            }
        }
    }
    let ghost front = out@;
    assert(front =~= line + (match added_host(*req, hs) {
        Some(a) => line_bytes("Host"@, a),
        None => Seq::empty(),
    }));
    let mut k: usize = 0;
    assert(hs.take(0) =~= Seq::<HeaderPair>::empty());
    while k < headers.len()
        invariant
            k <= headers@.len(),
            hs == headers@,
            out@ =~= front + passed_on(hs.take(k as int)),
            forall|j: int|
                0 <= j < k ==> is_own_header((#[trigger] hs[j]).0@) || valid_line(
                    hs[j].0@,
                    hs[j].1@,
                ),
        decreases headers@.len() - k,
    {
        let name = headers[k].0.as_str();
        let value = headers[k].1.as_str();
        assert(hs.take(k + 1).drop_last() =~= hs.take(k as int));
        if !(eq_fold(name, "connection") || eq_fold(name, "content-length")) {
            if let Err(status) = append_header_line(&mut out, name, value) {
                assert(!valid_line(hs[k as int].0@, hs[k as int].1@));
                return Err(status);
            }
        }
        k += 1;
    }
    assert(hs.take(k as int) =~= hs);
    proof {
        lemma_own_lines_valid(body@.len());
    }
    let length = decimal_text(body.len() as u64);
    if let Err(status) = append_header_line(&mut out, "Content-Length", length.as_str()) {
        return Err(status);
    }
    if let Err(status) = append_header_line(&mut out, "Connection", "close") {
        return Err(status);
    }
    push_text(&mut out, "\r\n");
    out.extend_from_slice(body);
    assert(out@ =~= request_bytes(*req, hs, body@));
    Ok(out)
}

/// A header as text.
pub type TextLine = (Seq<char>, Seq<char>);

/// The lines of headers, one behind the other.
pub open spec fn lines_of(lines: Seq<TextLine>) -> Seq<u8>
    decreases lines.len(),
{
    if lines.len() == 0 {
        Seq::empty()
    } else {
        lines_of(lines.drop_last()) + line_bytes(lines.last().0, lines.last().1)
    }
}

/// The headers that a worker is sent: the host, where only the authority names it, then
/// the given ones but for those on length and connection, then the length of the body and
/// word that the connection closes.
pub open spec fn sent_lines(req: RequestHead, hs: Seq<HeaderPair>, length: nat) -> Seq<TextLine> {
    let named = exists|i: int| 0 <= i < hs.len() && lowered((#[trigger] hs[i]).0@) == "host"@;
    let host = if !named && req.authority is Some {
        seq![("Host"@, req.authority->0@)]
    } else {
        Seq::<TextLine>::empty()
    };
    let given = hs.filter(
        |h: HeaderPair| lowered(h.0@) != "connection"@ && lowered(h.0@) != "content-length"@,
    ).map_values(|h: HeaderPair| (h.0@, h.1@));
    host + given + seq![("Content-Length"@, decimal(length)), ("Connection"@, "close"@)]
}

proof fn lemma_lines_join(a: Seq<TextLine>, b: Seq<TextLine>)
    ensures
        lines_of(a + b) == lines_of(a) + lines_of(b),
    decreases b.len(),
{
    if b.len() == 0 {
        assert(a + b =~= a);
        assert(lines_of(a) + lines_of(b) =~= lines_of(a));
    } else {
        assert((a + b).drop_last() =~= a + b.drop_last());
        lemma_lines_join(a, b.drop_last());
        assert(lines_of(a + b) =~= lines_of(a) + lines_of(b));
    }
}

proof fn lemma_one_text_line(l: TextLine)
    ensures
        lines_of(seq![l]) == line_bytes(l.0, l.1),
{
    assert(seq![l].drop_last() =~= Seq::<TextLine>::empty());
    assert(lines_of(seq![l].drop_last()) =~= Seq::<u8>::empty());
    assert(lines_of(seq![l]) =~= line_bytes(l.0, l.1));
}

proof fn lemma_own_names(name: Seq<char>)
    ensures
        is_own_header(name) <==> lowered(name) == "connection"@ || lowered(name)
            == "content-length"@,
        same_fold(name, "host"@) <==> lowered(name) == "host"@,
        lowered("Host"@) == "host"@,
        lowered("Content-Length"@) == "content-length"@,
        lowered("Connection"@) == "connection"@,
        "host"@ != "connection"@,
        "host"@ != "content-length"@,
{
    reveal_strlit("host");
    reveal_strlit("Host");
    reveal_strlit("connection");
    reveal_strlit("Connection");
    reveal_strlit("content-length");
    reveal_strlit("Content-Length");
    case_does_not_count(name, "host"@);
    case_does_not_count(name, "connection"@);
    case_does_not_count(name, "content-length"@);
    assert(lowered("host"@) =~= "host"@);
    assert(lowered("connection"@) =~= "connection"@);
    assert(lowered("content-length"@) =~= "content-length"@);
    assert(lowered("Host"@) =~= "host"@);
    assert(lowered("Connection"@) =~= "connection"@);
    assert(lowered("Content-Length"@) =~= "content-length"@);
    assert("host"@.len() == 4 && "connection"@.len() == 10 && "content-length"@.len() == 14);
}

proof fn lemma_passed_on(hs: Seq<HeaderPair>)
    ensures
        passed_on(hs) == lines_of(
            hs.filter(
                |h: HeaderPair|
                    lowered(h.0@) != "connection"@ && lowered(h.0@) != "content-length"@,
            ).map_values(|h: HeaderPair| (h.0@, h.1@)),
        ),
    decreases hs.len(),
{
    let keep = |h: HeaderPair|
        lowered(h.0@) != "connection"@ && lowered(h.0@) != "content-length"@;
    let text = |h: HeaderPair| (h.0@, h.1@);
    reveal(Seq::filter);
    if hs.len() > 0 {
        let rest = hs.drop_last();
        let h = hs.last();
        lemma_passed_on(rest);
        lemma_own_names(h.0@);
        let kept = rest.filter(keep);
        if keep(h) {
            assert(hs.filter(keep) == kept.push(h));
            let t = kept.push(h).map_values(text);
            assert(t.drop_last() =~= kept.map_values(text));
            assert(t.last() == text(h));
        } else {
            assert(hs.filter(keep) == kept);
        }
    } else {
        assert(hs.filter(keep).map_values(text) =~= Seq::<TextLine>::empty());
    }
}

proof fn lemma_added_host(req: RequestHead, hs: Seq<HeaderPair>)
    ensures
        has_header(hs, "host"@) <==> exists|i: int|
            0 <= i < hs.len() && lowered((#[trigger] hs[i]).0@) == "host"@,
{
    assert forall|i: int| 0 <= i < hs.len() implies (same_fold((#[trigger] hs[i]).0@, "host"@)
        <==> lowered(hs[i].0@) == "host"@) by {
        lemma_own_names(hs[i].0@);
    }
}

proof fn lemma_regroup(f: Seq<u8>, a: Seq<u8>, p: Seq<u8>, l: Seq<u8>, c: Seq<u8>)
    ensures
        f + a + p + l + c == f + ((a + p) + (l + c)),
{
    assert(f + a + p + l + c =~= f + ((a + p) + (l + c)));
}

/// The lines that come before the edge's own.
spec fn front_lines(req: RequestHead, hs: Seq<HeaderPair>) -> Seq<TextLine> {
    match added_host(req, hs) {
        Some(a) => seq![("Host"@, a)],
        None => Seq::<TextLine>::empty(),
    }
}

proof fn lemma_sent_lines(req: RequestHead, hs: Seq<HeaderPair>, length: nat)
    ensures
        sent_lines(req, hs, length) == front_lines(req, hs) + hs.filter(
            |h: HeaderPair| lowered(h.0@) != "connection"@ && lowered(h.0@) != "content-length"@,
        ).map_values(|h: HeaderPair| (h.0@, h.1@)) + seq![
            ("Content-Length"@, decimal(length)),
            ("Connection"@, "close"@),
        ],
{
    lemma_added_host(req, hs);
}

proof fn lemma_written_bytes(req: RequestHead, hs: Seq<HeaderPair>, body: Seq<u8>)
    ensures
        req.path_and_query is Some ==> request_bytes(req, hs, body) == encode_utf8(req.method@)
            + encode_utf8(" "@) + encode_utf8(req.path_and_query->0@) + encode_utf8(
            " HTTP/1.1\r\n"@,
        ) + lines_of(sent_lines(req, hs, body.len())) + encode_utf8("\r\n"@) + body,
{
    lemma_passed_on(hs);
    lemma_sent_lines(req, hs, body.len());
    let keep = |h: HeaderPair|
        lowered(h.0@) != "connection"@ && lowered(h.0@) != "content-length"@;
    let text = |h: HeaderPair| (h.0@, h.1@);
    let host = front_lines(req, hs);
    let given = hs.filter(keep).map_values(text);
    let own1: TextLine = ("Content-Length"@, decimal(body.len()));
    let own2: TextLine = ("Connection"@, "close"@);
    lemma_lines_join(host + given, seq![own1, own2]);
    lemma_lines_join(host, given);
    lemma_lines_join(seq![own1], seq![own2]);
    assert(seq![own1, own2] =~= seq![own1] + seq![own2]);
    lemma_one_text_line(own1);
    lemma_one_text_line(own2);
    let added = match added_host(req, hs) {
        Some(a) => line_bytes("Host"@, a),
        None => Seq::<u8>::empty(),
    };
    if let Some(a) = added_host(req, hs) {
        lemma_one_text_line(("Host"@, a));
    }
    assert(lines_of(host) == added);
    let first = encode_utf8(req.method@) + encode_utf8(" "@) + encode_utf8(req.path_and_query->0@)
        + encode_utf8(" HTTP/1.1\r\n"@);
    lemma_regroup(
        first,
        added,
        passed_on(hs),
        line_bytes(own1.0, own1.1),
        line_bytes(own2.0, own2.1),
    );
}

#[verifier::spinoff_prover]
proof fn lemma_writable_lines(req: RequestHead, hs: Seq<HeaderPair>, length: nat)
    ensures
        writable(req, hs) <==> req.path_and_query is Some && forall|i: int|
            0 <= i < sent_lines(req, hs, length).len() ==> valid_line(
                (#[trigger] sent_lines(req, hs, length)[i]).0,
                sent_lines(req, hs, length)[i].1,
            ),
{
    broadcast use vstd::seq_lib::group_filter_ensures;

    lemma_sent_lines(req, hs, length);
    lemma_own_lines_valid(length);
    let keep = |h: HeaderPair|
        lowered(h.0@) != "connection"@ && lowered(h.0@) != "content-length"@;
    let text = |h: HeaderPair| (h.0@, h.1@);
    let host = front_lines(req, hs);
    let kept = hs.filter(keep);
    let given = kept.map_values(text);
    let own1: TextLine = ("Content-Length"@, decimal(length));
    let own2: TextLine = ("Connection"@, "close"@);
    let all = sent_lines(req, hs, length);
    let n = host.len();
    let m = given.len();
    if writable(req, hs) {
        assert forall|i: int| 0 <= i < all.len() implies valid_line(
            (#[trigger] all[i]).0,
            all[i].1,
        ) by {
            if i < n {
                assert(all[i] == host[i]);
            } else if i < n + m {
                let h = kept[i - n];
                assert(all[i] == text(h));
                hs.lemma_filter_contains_rev(keep, h);
                assert(keep(h));
                let k = choose|k: int| 0 <= k < hs.len() && hs[k] == h;
                lemma_own_names(hs[k].0@);
            } else if i == n + m {
                assert(all[i] == own1);
            } else {
                assert(all[i] == own2);
            }
        }
    }
    if forall|i: int| 0 <= i < all.len() ==> valid_line((#[trigger] all[i]).0, all[i].1) {
        if let Some(a) = added_host(req, hs) {
            assert(all[0] == ("Host"@, a));
        }
        assert forall|k: int| 0 <= k < hs.len() implies is_own_header((#[trigger] hs[k]).0@)
            || valid_line(hs[k].0@, hs[k].1@) by {
            lemma_own_names(hs[k].0@);
            if keep(hs[k]) {
                assert(hs.contains(hs[k]));
                assert(kept.contains(hs[k]));
                let i = choose|i: int| 0 <= i < kept.len() && kept[i] == hs[k];
                assert(all[n + i] == text(hs[k]));
            }
        }
    }
}

/// A request is written as its line, the headers that a worker is sent, an empty line and
/// the body; and it is written exactly if it has a path and every one of those headers can
/// stand in a line.
pub proof fn requests_are_written_whole(req: RequestHead, hs: Seq<HeaderPair>, body: Seq<u8>)
    ensures
        req.path_and_query is Some ==> request_bytes(req, hs, body) == encode_utf8(req.method@)
            + encode_utf8(" "@) + encode_utf8(req.path_and_query->0@) + encode_utf8(
            " HTTP/1.1\r\n"@,
        ) + lines_of(sent_lines(req, hs, body.len())) + encode_utf8("\r\n"@) + body,
        writable(req, hs) <==> req.path_and_query is Some && forall|i: int|
            0 <= i < sent_lines(req, hs, body.len()).len() ==> valid_line(
                (#[trigger] sent_lines(req, hs, body.len())[i]).0,
                sent_lines(req, hs, body.len())[i].1,
            ),
{
    lemma_written_bytes(req, hs, body);
    lemma_writable_lines(req, hs, body.len());
}

/// A worker is told one host: where the headers name one, that one, as it was given; where
/// they name none, the authority. The length and the connection are told once each.
pub proof fn workers_are_told_one_host(
    req: RequestHead,
    hs: Seq<HeaderPair>,
    length: nat,
    at: Option<int>,
)
    requires
        match at {
            Some(i) => 0 <= i < hs.len() && lowered(hs[i].0@) == "host"@ && forall|j: int|
                0 <= j < hs.len() && j != i ==> lowered((#[trigger] hs[j]).0@) != "host"@,
            None => req.authority is Some && forall|j: int|
                0 <= j < hs.len() ==> lowered((#[trigger] hs[j]).0@) != "host"@,
        },
    ensures
        ({
            let ls = sent_lines(req, hs, length);
            let host: TextLine = match at {
                Some(i) => (hs[i].0@, hs[i].1@),
                None => ("Host"@, req.authority->0@),
            };
            let n = ls.len() as int;
            &&& n >= 3
            &&& exists|k: int|
                0 <= k < n - 2 && ls[k] == host && forall|j: int|
                    0 <= j < n && j != k ==> lowered((#[trigger] ls[j]).0) != "host"@
            &&& ls[n - 2] == ("Content-Length"@, decimal(length))
            &&& ls[n - 1] == ("Connection"@, "close"@)
            &&& forall|j: int|
                0 <= j < n - 2 ==> lowered((#[trigger] ls[j]).0) != "content-length"@ && lowered(
                    ls[j].0,
                ) != "connection"@
        }),
{
    let keep = |h: HeaderPair|
        lowered(h.0@) != "connection"@ && lowered(h.0@) != "content-length"@;
    let text = |h: HeaderPair| (h.0@, h.1@);
    let kept = hs.filter(keep);
    let given = kept.map_values(text);
    let ls = sent_lines(req, hs, length);
    let n = ls.len() as int;
    broadcast use vstd::seq_lib::group_filter_ensures;

    lemma_own_names("host"@);
    let host: TextLine = match at {
        Some(i) => (hs[i].0@, hs[i].1@),
        None => ("Host"@, req.authority->0@),
    };
    let own = seq![("Content-Length"@, decimal(length)), ("Connection"@, "close"@)];
    match at {
        Some(i) => {
            lemma_filter_one(hs, keep, i);
            assert(keep(hs[i]));
            let k = choose|k: int|
                0 <= k < kept.len() && kept[k] == hs[i] && forall|j: int|
                    0 <= j < kept.len() && j != k ==> lowered((#[trigger] kept[j]).0@) != "host"@;
            assert(ls =~= given + own);
            assert(ls[k] == host);
            assert forall|j: int| 0 <= j < n && j != k implies lowered((#[trigger] ls[j]).0)
                != "host"@ by {
                if j < n - 2 {
                    assert(ls[j] == text(kept[j]));
                }
            }
            assert forall|j: int| 0 <= j < n - 2 implies lowered((#[trigger] ls[j]).0)
                != "content-length"@ && lowered(ls[j].0) != "connection"@ by {
                assert(ls[j] == text(kept[j]));
                assert(keep(kept[j]));
            }
        },
        None => {
            assert(ls =~= seq![host] + given + own);
            assert(ls[0] == host);
            assert forall|j: int| 0 <= j < n && j != 0 implies lowered((#[trigger] ls[j]).0)
                != "host"@ by {
                if j < n - 2 {
                    assert(ls[j] == text(kept[j - 1]));
                    hs.lemma_filter_contains_rev(keep, kept[j - 1]);
                    let m = choose|m: int| 0 <= m < hs.len() && hs[m] == kept[j - 1];
                    assert(lowered(hs[m].0@) != "host"@);
                }
            }
            assert forall|j: int| 0 <= j < n - 2 implies lowered((#[trigger] ls[j]).0)
                != "content-length"@ && lowered(ls[j].0) != "connection"@ by {
                if j > 0 {
                    assert(ls[j] == text(kept[j - 1]));
                    assert(keep(kept[j - 1]));
                }
            }
        },
    }
}

proof fn lemma_filter_one(hs: Seq<HeaderPair>, keep: spec_fn(HeaderPair) -> bool, i: int)
    requires
        0 <= i < hs.len(),
        lowered(hs[i].0@) == "host"@,
        keep(hs[i]),
        forall|j: int|
            0 <= j < hs.len() && j != i ==> lowered((#[trigger] hs[j]).0@) != "host"@,
    ensures
        exists|k: int|
            0 <= k < hs.filter(keep).len() && hs.filter(keep)[k] == hs[i] && forall|j: int|
                0 <= j < hs.filter(keep).len() && j != k ==> lowered(
                    (#[trigger] hs.filter(keep)[j]).0@,
                ) != "host"@,
    decreases hs.len(),
{
    let rest = hs.drop_last();
    let n = hs.len() - 1;
    reveal(Seq::filter);
    let kept = rest.filter(keep);
    let all = hs.filter(keep);
    if i == n {
        assert(all == kept.push(hs[n]));
        let k = kept.len() as int;
        assert(all[k] == hs[i]);
        assert forall|j: int| 0 <= j < all.len() && j != k implies lowered((#[trigger] all[j]).0@)
            != "host"@ by {
            assert(all[j] == kept[j]);
            rest.lemma_filter_contains_rev(keep, kept[j]);
            let m = choose|m: int| 0 <= m < rest.len() && rest[m] == kept[j];
            assert(hs[m] == kept[j]);
        }
    } else {
        assert(rest[i] == hs[i]);
        assert forall|j: int| 0 <= j < rest.len() && j != i implies lowered((#[trigger] rest[j]).0@)
            != "host"@ by {
            assert(rest[j] == hs[j]);
        }
        lemma_filter_one(rest, keep, i);
        let k = choose|k: int|
            0 <= k < kept.len() && kept[k] == rest[i] && forall|j: int|
                0 <= j < kept.len() && j != k ==> lowered((#[trigger] kept[j]).0@) != "host"@;
        assert(lowered(hs[n].0@) != "host"@);
        assert(all[k] == hs[i]);
        assert forall|j: int| 0 <= j < all.len() && j != k implies lowered((#[trigger] all[j]).0@)
            != "host"@ by {
            if j < kept.len() {
                assert(all[j] == kept[j]);
            } else {
                assert(all[j] == hs[n]);
            }
        }
    }
}

/// A header line that is written can be read again: up to its line end it is the line of
/// that name and that value.
pub proof fn written_lines_are_read_back(name: Seq<char>, value: Seq<char>)
    requires
        valid_line(name, value),
        value.len() > 0 ==> {
            let v = encode_utf8(value);
            v.len() > 0 && v[0] != 32 && v[0] != 9 && v.last() != 32 && v.last() != 9
        },
    ensures
        line_bytes(name, value).last() == 10,
        header_of(line_bytes(name, value).drop_last()) == Some(
            (encode_utf8(name), encode_utf8(value)),
        ),
{
    reveal_strlit(": ");
    reveal_strlit("\r\n");
    lemma_ascii_bytes(": "@);
    lemma_ascii_bytes("\r\n"@);
    vstd::utf8::encode_utf8_valid_utf8(value);
    let h = (encode_utf8(name), encode_utf8(value));
    if value.len() == 0 {
        assert(value =~= Seq::<char>::empty());
        assert(vstd::utf8::is_ascii_chars(value));
        lemma_ascii_bytes(value);
    }
    header_lines_are_read_whole(h);
    assert(encode_utf8(": "@) =~= seq![58u8, 32u8]);
    assert(encode_utf8("\r\n"@) =~= seq![13u8, 10u8]);
    assert(line_bytes(name, value).drop_last() =~= sent_line(h).push(13));
}

/// The body is read as it was announced: nothing where nothing is, all of it where a length
/// is, and over HTTP/2 up to the cap where none is. No plan reads more than a buffer holds.
pub proof fn bodies_are_read_as_announced(
    content_length: Option<u64>,
    http2: bool,
    max_body_bytes: u64,
    n: usize,
)
    ensures
        ({
            let plan = body_plan(content_length, http2, max_body_bytes);
            &&& plan is Err ==> plan->Err_0 == 413 && content_length is Some && content_length->0
                > usize::MAX
            &&& content_length is Some && content_length->0 > usize::MAX ==> plan is Err
            &&& content_length is Some ==> plan == body_plan(content_length, !http2, 0)
            &&& plan == Ok::<BodyPlan, u16>(BodyPlan::Empty) <==> content_length == Some(0u64) || (
            content_length is None && !http2)
            &&& n > 0 ==> (plan == Ok::<BodyPlan, u16>(BodyPlan::Exact { expected: n })
                <==> content_length == Some(n as u64))
            &&& plan == Ok::<BodyPlan, u16>(BodyPlan::Stream { max: n }) <==> http2
                && content_length is None && (n == max_body_bytes || (n == usize::MAX
                && max_body_bytes > usize::MAX))
        }),
{
}

/// How far a request got with one worker of the text hop.
pub enum SendProgress {
    Draining,
    ConnectFailed,
    WriteFailed,
    Answered { result: Result<u16, u16> },
}

/// Why a worker gave no answer: it could not be reached, or the request may already
/// have been seen.
#[derive(Clone, Copy, Debug, PartialEq, Eq, Structural)]
pub enum WorkerSendError {
    Connect,
    AfterWrite { status: u16 },
}

/// Only a failure to connect leaves the request free to go to another worker.
pub fn send_outcome(progress: SendProgress) -> (r: Result<u16, WorkerSendError>)
    ensures
        progress is ConnectFailed <==> r == Err::<u16, WorkerSendError>(WorkerSendError::Connect),
        r is Ok ==> (progress matches SendProgress::Answered { result } && result is Ok
            && result->Ok_0 == r->Ok_0),
        r == (match progress {
            SendProgress::Draining => Err::<u16, WorkerSendError>(
                WorkerSendError::AfterWrite { status: 503 },
            ),
            SendProgress::ConnectFailed => Err(WorkerSendError::Connect),
            SendProgress::WriteFailed => Err(WorkerSendError::AfterWrite { status: 502 }),
            SendProgress::Answered { result } => match result {
                Ok(status) => Ok(status),
                Err(status) => Err(WorkerSendError::AfterWrite { status }),
            },
        }),
{
    match progress {
        SendProgress::Draining => Err(WorkerSendError::AfterWrite { status: 503 }),
        SendProgress::ConnectFailed => Err(WorkerSendError::Connect),
        SendProgress::WriteFailed => Err(WorkerSendError::AfterWrite { status: 502 }),
        SendProgress::Answered { result } => match result {
            Ok(status) => Ok(status),
            Err(status) => Err(WorkerSendError::AfterWrite { status }),
        },
    }
}

/// A walk over the workers of the text hop.
pub struct HttpHop {
    workers: usize,
    start: usize,
    tried: usize,
}

/// What to do next in a walk.
#[derive(Clone, Copy, Debug, PartialEq, Eq)]
pub enum HopMove {
    Try { worker: usize },
    Done { result: Result<u16, u16> },
}

impl HttpHop {
    pub closed spec fn workers(&self) -> int {
        self.workers as int
    }

    pub closed spec fn start(&self) -> int {
        self.start as int
    }

    /// How many workers could not be reached.
    pub closed spec fn tried(&self) -> int {
        self.tried as int
    }

    pub open spec fn wf(&self) -> bool {
        0 <= self.tried() && (self.workers() == 0 || 0 <= self.start() < self.workers())
            && self.tried() <= self.workers() && 2 * self.workers() <= usize::MAX
    }

    /// The worker that is tried next.
    pub open spec fn current(&self) -> int {
        (self.start() + self.tried()) % self.workers()
    }

    /// Starts at the worker that the running number `ticket` falls on.
    pub fn begin(workers: usize, ticket: usize) -> (h: HttpHop)
        requires
            2 * workers <= usize::MAX,
        ensures
            workers > 0 ==> 0 <= h.current() < workers && h.current() == ticket % workers,
            h.wf(),
            h.workers() == workers,
            h.tried() == 0,
            workers > 0 ==> h.start() == ticket % workers,
    {
        proof {
            if workers > 0 {
                vstd::arithmetic::div_mod::lemma_small_mod(
                    (ticket % workers) as nat,
                    workers as nat,
                );
            }
        }
        HttpHop {
            workers,
            start: if workers == 0 {
                0
            } else {
                ticket % workers
            },
            tried: 0,
        }
    }

    /// The worker to try, or 503 when all were tried in vain.
    pub fn next(&self) -> (m: HopMove)
        requires
            self.wf(),
        ensures
            m == (if self.tried() < self.workers() {
                HopMove::Try { worker: self.current() as usize }
            } else {
                HopMove::Done { result: Err::<u16, u16>(503) }
            }),
    {
        if self.tried < self.workers {
            HopMove::Try { worker: (self.start + self.tried) % self.workers }
        } else {
            HopMove::Done { result: Err(503) }
        }
    }

    /// Takes in what the worker gave: an answer or a failure after the request was
    /// written ends the walk, a failed connection moves it on.
    pub fn advance(&mut self, outcome: Result<u16, WorkerSendError>) -> (m: HopMove)
        requires
            old(self).wf(),
            old(self).tried() < old(self).workers(),
        ensures
            final(self).wf(),
            final(self).workers() == old(self).workers(),
            final(self).start() == old(self).start(),
            final(self).tried() == old(self).tried() + (if outcome == Err::<u16, WorkerSendError>(
                WorkerSendError::Connect,
            ) {
                1int
            } else {
                0
            }),
            m == (match outcome {
                Ok(status) => HopMove::Done { result: Ok::<u16, u16>(status) },
                Err(WorkerSendError::AfterWrite { status }) => HopMove::Done {
                    result: Err::<u16, u16>(status),
                },
                Err(WorkerSendError::Connect) => if final(self).tried() < final(self).workers() {
                    HopMove::Try { worker: final(self).current() as usize }
                } else {
                    HopMove::Done { result: Err::<u16, u16>(503) }
                },
            }),
    {
        match outcome {
            Ok(status) => HopMove::Done { result: Ok(status) },
            Err(WorkerSendError::AfterWrite { status }) => HopMove::Done { result: Err(status) },
            Err(WorkerSendError::Connect) => {
                self.tried = self.tried + 1;
                self.next()
            },
        }
    }
}

/// A walk comes to every worker once: it goes to a worker of the fleet as long as there is
/// one that it has not been to, and never to the same one twice.
pub proof fn walks_come_to_every_worker_once(a: HttpHop, b: HttpHop)
    requires
        a.wf(),
        b.wf(),
        a.workers() == b.workers(),
        a.start() == b.start(),
        a.tried() < b.tried() < b.workers(),
    ensures
        0 <= a.current() < a.workers(),
        a.current() != b.current(),
        b.tried() == a.tried() + 1 ==> b.current() == a.current() + 1 || (b.current() == 0
            && a.current() == a.workers() - 1),
{
    let n = a.workers();
    let x = a.start() + a.tried();
    let y = b.start() + b.tried();
    if x < n {
        vstd::arithmetic::div_mod::lemma_small_mod(x as nat, n as nat);
    } else {
        vstd::arithmetic::div_mod::lemma_small_mod((x - n) as nat, n as nat);
        vstd::arithmetic::div_mod::lemma_mod_add_multiples_vanish(x - n, n);
    }
    if y < n {
        vstd::arithmetic::div_mod::lemma_small_mod(y as nat, n as nat);
    } else {
        vstd::arithmetic::div_mod::lemma_small_mod((y - n) as nat, n as nat);
        vstd::arithmetic::div_mod::lemma_mod_add_multiples_vanish(y - n, n);
    }
}

} // verus!
