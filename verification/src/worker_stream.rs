//! Reading an answer of the text hop piece by piece: first the head, then either the
//! rest of a whole response or one chunk after another.
use vstd::prelude::*;
use vstd::utf8::{decode_utf8, valid_utf8};

use crate::fairness::{saturated, LongLivedAdmission, LongLivedRegistry};
use crate::limits::{MAX_RESPONSE_BYTES, MAX_RESPONSE_HEADER_BYTES};
use crate::text::{
    all_white, case_does_not_count, chars_of, find_char, first, is_white, lemma_first_at,
    lower_char, lowered, text_of, trim, trimmed, trimming_takes_what_is_around,
};
use crate::worker_response::{
    can_be_sent, chunked_by, find_header_end, heads_are_heard_as_sent, is_head_end, lines,
    names_encoding, sent_head, worker_response_is_chunked, ByteHeader,
};

verus! {

/// An answer while its head, and then its body, comes in.
pub struct ResponseReader {
    bytes: Vec<u8>,
}

/// How far the head has come.
#[derive(Clone, Copy, Debug, PartialEq, Eq, Structural)]
pub enum HeadProgress {
    More,
    Chunked { head_end: usize },
    Whole,
}

/// Where the head of `bytes` ends, as far as it is known.
pub open spec fn head_verdict(bytes: Seq<u8>, end: Option<usize>) -> Result<HeadProgress, u16> {
    match end {
        Some(e) => if e > MAX_RESPONSE_HEADER_BYTES {
            Err(502)
        } else {
            match chunked_by(lines(bytes.take(e as int)).skip(1)) {
                Some(true) => Ok(HeadProgress::Chunked { head_end: e }),
                Some(false) => Ok(HeadProgress::Whole),
                None => Err(502),
            }
        },
        None => if bytes.len() > MAX_RESPONSE_HEADER_BYTES {
            Err(502)
        } else {
            Ok(HeadProgress::More)
        },
    }
}

impl ResponseReader {
    /// The bytes that have come in.
    pub closed spec fn view(&self) -> Seq<u8> {
        self.bytes@
    }

    pub fn new() -> (r: ResponseReader)
        ensures
            r@ == Seq::<u8>::empty(),
    {
        ResponseReader { bytes: Vec::new() }
    }

    /// Takes in one read while the head is incomplete. An answer that ends before its
    /// head does, or whose head or whole is too large, is answered with 502.
    pub fn take_head(&mut self, read: &[u8]) -> (r: Result<HeadProgress, u16>)
        ensures
            r is Ok ==> read@.len() > 0 && final(self)@.len() <= 67108864,
            (r matches Ok(HeadProgress::More) ==> final(self)@.len() <= 65536),
            (r matches Ok(HeadProgress::Chunked { head_end }) ==> head_end <= 65536),
            r is Err ==> r->Err_0 == 502,
            final(self)@ == old(self)@ + read@,
            read@.len() == 0 || final(self)@.len() > MAX_RESPONSE_BYTES ==> r == Err::<
                HeadProgress,
                u16,
            >(502),
            read@.len() > 0 && final(self)@.len() <= MAX_RESPONSE_BYTES ==> exists|end: Option<usize>|
                is_head_end(final(self)@, end) && #[trigger] head_verdict(final(self)@, end) == r,
    {
        self.bytes.extend_from_slice(read);
        assert(self.bytes@ =~= old(self)@ + read@);
        if read.len() == 0 {
            return Err(502);
        }
        if self.bytes.len() > MAX_RESPONSE_BYTES {
            return Err(502);
        }
        let end: Option<usize> = find_header_end(self.bytes.as_slice());
        let r: Result<HeadProgress, u16> = match end {
            Some(e) => if e > MAX_RESPONSE_HEADER_BYTES {
                Err(502)
            } else {
                let head = vstd::slice::slice_subrange(self.bytes.as_slice(), 0, e);
                assert(self.bytes@.subrange(0, e as int) =~= self.bytes@.take(e as int));
                match worker_response_is_chunked(head) {
                    Err(_) => Err(502),
                    Ok(true) => Ok(HeadProgress::Chunked { head_end: e }),
                    Ok(false) => Ok(HeadProgress::Whole),
                }
            },
            None => if self.bytes.len() > MAX_RESPONSE_HEADER_BYTES {
                Err(502)
            } else {
                Ok(HeadProgress::More)
            },
        };
        assert(is_head_end(self@, end) && head_verdict(self@, end) == r);
        r
    }

    /// Takes in one read of the body of a whole response and says whether it is
    /// complete, which the end of the connection tells.
    pub fn take_body(&mut self, read: &[u8]) -> (r: Result<bool, u16>)
        ensures
            r == Ok::<bool, u16>(true) <==> read@.len() == 0,
            r == Ok::<bool, u16>(false) ==> final(self)@.len() <= 67108864,
            final(self)@ == old(self)@ + read@,
            r == (if read@.len() == 0 {
                Ok::<bool, u16>(true)
            } else if final(self)@.len() > MAX_RESPONSE_BYTES {
                Err::<bool, u16>(502)
            } else {
                Ok::<bool, u16>(false)
            }),
    {
        self.bytes.extend_from_slice(read);
        assert(self.bytes@ =~= old(self)@ + read@);
        if read.len() == 0 {
            Ok(true)
        } else if self.bytes.len() > MAX_RESPONSE_BYTES {
            Err(502)
        } else {
            Ok(false)
        }
    }

    /// The bytes that have come in.
    pub fn bytes(&self) -> (r: &[u8])
        ensures
            r@ == self@,
    {
        self.bytes.as_slice()
    }

    /// What came in after a head that ends at `head_end`.
    pub fn after_head(&self, head_end: usize) -> (r: Vec<u8>)
        requires
            head_end + 4 <= self@.len(),
        ensures
            r@ == self@.skip(head_end + 4),
    {
        let n: usize = self.bytes.len();
        let tail = vstd::slice::slice_subrange(self.bytes.as_slice(), head_end + 4, n);
        let mut out: Vec<u8> = Vec::new();
        out.extend_from_slice(tail);
        assert(out@ =~= self@.skip(head_end + 4));
        out
    }
}

/// The value of a hexadecimal digit.
pub open spec fn hex_value(c: char) -> Option<nat> {
    if '0' <= c && c <= '9' {
        Some((c as nat - '0' as nat) as nat)
    } else if 'a' <= c && c <= 'f' {
        Some((c as nat - 'a' as nat + 10) as nat)
    } else if 'A' <= c && c <= 'F' {
        Some((c as nat - 'A' as nat + 10) as nat)
    } else {
        None
    }
}

/// The number that a row of hexadecimal digits denotes.
pub open spec fn hex_number(s: Seq<char>) -> Option<nat>
    decreases s.len(),
{
    if s.len() == 0 {
        Some(0)
    } else {
        match (hex_number(s.drop_last()), hex_value(s.last())) {
            (Some(n), Some(d)) => Some(n * 16 + d),
            _ => None,
        }
    }
}

proof fn lemma_hex_grows(s: Seq<char>, i: int)
    requires
        0 <= i <= s.len(),
        hex_number(s) is Some,
    ensures
        hex_number(s.take(i)) is Some,
        hex_number(s.take(i))->0 <= hex_number(s)->0,
    decreases s.len() - i,
{
    if i < s.len() {
        lemma_hex_grows(s, i + 1);
        assert(s.take(i + 1).drop_last() =~= s.take(i));
    } else {
        assert(s.take(i) =~= s);
    }
}

/// The size that a chunk line announces: hexadecimal, before any extension.
pub open spec fn size_of_line(line: Seq<u8>) -> Option<nat> {
    if !valid_utf8(line) {
        None
    } else {
        let text = decode_utf8(line);
        let size = trimmed(text.take(first(text, ';')));
        if size.len() == 0 {
            None
        } else {
            match hex_number(size) {
                Some(n) => if n <= usize::MAX { Some(n) } else { None },
                None => None,
            }
        }
    }
}

fn hex_digit(c: char) -> (r: Option<usize>)
    ensures
        match hex_value(c) {
            Some(d) => r == Some(d as usize) && d < 16,
            None => r is None,
        },
{
    if '0' <= c && c <= '9' {
        Some((c as usize) - 48)
    } else if 'a' <= c && c <= 'f' {
        Some((c as usize) - 87)
    } else if 'A' <= c && c <= 'F' {
        Some((c as usize) - 55)
    } else {
        None
    }
}

/// Reads the size off a chunk line; a line without one is answered with 502.
pub fn parse_chunk_size(line: &[u8]) -> (r: Result<usize, u16>)
    ensures
        match size_of_line(line@) {
            Some(n) => r == Ok::<usize, u16>(n as usize),
            None => r == Err::<usize, u16>(502),
        },
{
    let text = match text_of(line) {
        None => {
            return Err(502);
        },
        Some(t) => t,
    };
    let end: usize = find_char(text, ';');
    assert(text@.subrange(0, end as int) =~= text@.take(end as int));
    let size = trim(text.substring_char(0, end));
    let cs = chars_of(size);
    if cs.len() == 0 {
        return Err(502);
    }
    let mut n: usize = 0;
    let mut i: usize = 0;
    assert(size@.take(0) =~= Seq::<char>::empty());
    while i < cs.len()
        invariant
            i <= cs@.len(),
            cs@ == size@,
            cs@.len() > 0,
            valid_utf8(line@),
            size@ == trimmed(decode_utf8(line@).take(first(decode_utf8(line@), ';'))),
            hex_number(size@.take(i as int)) == Some(n as nat),
        decreases cs@.len() - i,
    {
        proof {
            assert(size@.take(i + 1).drop_last() =~= size@.take(i as int));
            if hex_number(size@) is Some {
                lemma_hex_grows(size@, i + 1);
            }
        }
        match hex_digit(cs[i]) {
            None => {
                return Err(502);
            },
            Some(d) => {
                if n > usize::MAX / 16 {
                    return Err(502);
                }
                let shifted: usize = n * 16;
                if d > usize::MAX - shifted {
                    return Err(502);
                }
                n = shifted + d;
            },
        }
        i += 1;
    }
    assert(size@.take(i as int) =~= size@);
    Ok(n)
}

/// Whether a line break stands at position `i` of `s`.
pub open spec fn break_at(s: Seq<u8>, i: int) -> bool {
    0 <= i && i + 2 <= s.len() && s[i] == 13 && s[i + 1] == 10
}

/// The position of the first line break of `s`, or the length.
pub open spec fn line_end(s: Seq<u8>) -> int
    decreases s.len(),
{
    if s.len() < 2 {
        s.len() as int
    } else if break_at(s, 0) {
        0
    } else {
        1 + line_end(s.drop_first())
    }
}

proof fn lemma_line_end(s: Seq<u8>, i: int)
    requires
        0 <= i <= s.len(),
        forall|j: int| 0 <= j < i ==> !#[trigger] break_at(s, j),
        i < s.len() ==> break_at(s, i),
    ensures
        line_end(s) == i,
    decreases s.len(),
{
    if s.len() >= 2 && i > 0 {
        assert(!break_at(s, 0));
        let t = s.drop_first();
        assert forall|j: int| 0 <= j < i - 1 implies !#[trigger] break_at(t, j) by {
            assert(break_at(t, j) == break_at(s, j + 1));
        }
        assert(i < s.len() ==> break_at(t, i - 1));
        lemma_line_end(t, i - 1);
    }
}

fn find_break(s: &[u8]) -> (r: usize)
    ensures
        r == line_end(s@),
        r <= s@.len(),
        r < s@.len() ==> r + 2 <= s@.len() && break_at(s@, r as int),
{
    let n: usize = s.len();
    let mut i: usize = 0;
    while n - i >= 2 && !(s[i] == 13 && s[i + 1] == 10)
        invariant
            i <= n,
            n == s@.len(),
            forall|j: int| 0 <= j < i ==> !#[trigger] break_at(s@, j),
        decreases n - i,
    {
        assert(!break_at(s@, i as int));
        i += 1;
    }
    let r: usize = if n - i >= 2 {
        i
    } else {
        n
    };
    proof {
        lemma_line_end(s@, r as int);
    }
    r
}

/// What a chunked body waits for.
#[derive(Clone, Copy, Debug, PartialEq, Eq, Structural)]
pub enum ChunkPhase {
    /// A line with the size of the next chunk.
    Size,
    /// The bytes of a chunk and the line break after them.
    Data { size: usize },
    /// The line break after the last chunk.
    Last,
}

/// A chunked body while it comes in.
pub struct ChunkStream {
    pending: Vec<u8>,
    decoded: u64,
    phase: ChunkPhase,
    head_sent: bool,
}

/// What the bytes at hand allow.
pub enum ChunkStep {
    /// Nothing yet: more bytes are needed.
    NeedMore,
    /// A size was read; the next step goes on from there.
    Sized,
    /// A chunk for the client.
    Chunk { bytes: Vec<u8> },
    /// The body is complete.
    Finished,
    /// The body is broken or too large.
    Failed,
}

/// The size of the next chunk and the bytes after its line, if the line is complete.
pub open spec fn next_size(pending: Seq<u8>) -> Option<(Option<nat>, Seq<u8>)> {
    let e = line_end(pending);
    if e < pending.len() {
        Some((size_of_line(pending.take(e)), pending.skip(e + 2)))
    } else {
        None
    }
}

/// A chunk of `size` bytes, whether a line break follows it, and the bytes after that,
/// if they have all come in.
pub open spec fn next_chunk(pending: Seq<u8>, size: int) -> Option<(Seq<u8>, bool, Seq<u8>)> {
    if size + 2 <= pending.len() {
        Some((pending.take(size), break_at(pending, size), pending.skip(size + 2)))
    } else {
        None
    }
}

/// What was written as a chunk is read as that chunk: a size line, the bytes and a line
/// break give back the bytes and leave what follows.
pub proof fn chunk_round_trip(line: Seq<u8>, data: Seq<u8>, rest: Seq<u8>)
    requires
        size_of_line(line) == Some(data.len()),
        forall|i: int| 0 <= i < line.len() ==> line[i] != 10,
    ensures
        next_size(line + seq![13u8, 10u8] + data + seq![13u8, 10u8] + rest) == Some(
            (Some(data.len()), data + seq![13u8, 10u8] + rest),
        ),
        next_chunk(data + seq![13u8, 10u8] + rest, data.len() as int) == Some((data, true, rest)),
{
    let all = line + seq![13u8, 10u8] + data + seq![13u8, 10u8] + rest;
    assert forall|j: int| 0 <= j < line.len() implies !#[trigger] break_at(all, j) by {
        if j + 1 < line.len() {
            assert(all[j + 1] == line[j + 1]);
        } else {
            assert(all[j + 1] == 13);
        }
    }
    assert(break_at(all, line.len() as int));
    lemma_line_end(all, line.len() as int);
    assert(all.take(line.len() as int) =~= line);
    assert(all.skip(line.len() as int + 2) =~= data + seq![13u8, 10u8] + rest);
    let tail = data + seq![13u8, 10u8] + rest;
    assert(tail.take(data.len() as int) =~= data);
    assert(tail.skip(data.len() as int + 2) =~= rest);
    assert(break_at(tail, data.len() as int));
}

impl ChunkStream {
    pub closed spec fn pending(&self) -> Seq<u8> {
        self.pending@
    }

    /// The bytes of all chunks announced so far.
    pub closed spec fn decoded(&self) -> u64 {
        self.decoded
    }

    pub closed spec fn phase(&self) -> ChunkPhase {
        self.phase
    }

    /// Whether the head has gone to the client.
    pub closed spec fn head_sent(&self) -> bool {
        self.head_sent
    }

    /// A chunk that is being read was counted against the bound.
    pub open spec fn wf(&self) -> bool {
        &&& self.decoded() <= MAX_RESPONSE_BYTES
        &&& self.phase() matches ChunkPhase::Data { size } ==> size <= MAX_RESPONSE_BYTES
    }

    /// Starts with the bytes that came in behind the head.
    pub fn begin(initial: Vec<u8>) -> (s: ChunkStream)
        ensures
            s.wf(),
            s.pending() == initial@,
            s.decoded() == 0,
            s.phase() == ChunkPhase::Size,
            !s.head_sent(),
    {
        ChunkStream { pending: initial, decoded: 0, phase: ChunkPhase::Size, head_sent: false }
    }

    /// Takes in one read. The end of the connection, and a size line that does not end,
    /// are answered with 502.
    pub fn feed(&mut self, read: &[u8]) -> (r: Result<(), u16>)
        requires
            old(self).wf(),
        ensures
            r is Ok ==> read@.len() > 0,
            r is Ok && old(self).phase() is Size ==> final(self).pending().len() <= 65536,
            final(self).wf(),
            final(self).pending() == old(self).pending() + read@,
            final(self).decoded() == old(self).decoded(),
            final(self).phase() == old(self).phase(),
            final(self).head_sent() == old(self).head_sent(),
            r == (if read@.len() == 0 || (old(self).phase() is Size && final(self).pending().len()
                > MAX_RESPONSE_HEADER_BYTES) {
                Err::<(), u16>(502)
            } else {
                Ok::<(), u16>(())
            }),
    {
        self.pending.extend_from_slice(read);
        assert(self.pending@ =~= old(self).pending@ + read@);
        if read.len() == 0 {
            return Err(502);
        }
        if self.phase == ChunkPhase::Size && self.pending.len() > MAX_RESPONSE_HEADER_BYTES {
            return Err(502);
        }
        Ok(())
    }

    /// Says whether the head is still to be written, and takes it as written.
    pub fn take_head(&mut self) -> (r: bool)
        ensures
            r == !old(self).head_sent(),
            final(self).head_sent(),
            final(self).pending() == old(self).pending(),
            final(self).decoded() == old(self).decoded(),
            final(self).phase() == old(self).phase(),
    {
        let r: bool = !self.head_sent;
        self.head_sent = true;
        r
    }

    /// Goes one step on with the bytes at hand; each announced chunk is counted against
    /// the connection's allowance.
    pub fn step(
        &mut self,
        admission: &mut LongLivedAdmission,
        registry: &mut LongLivedRegistry,
    ) -> (r: ChunkStep)
        requires
            old(self).wf(),
        ensures
            (r matches ChunkStep::Chunk { bytes } ==> old(self).pending() == bytes@ + seq![13u8, 10u8]
                + final(self).pending() && old(self).phase() == (ChunkPhase::Data {
                size: bytes@.len() as usize,
            })),
            r is Sized ==> old(self).phase() is Size && exists|e: int|
                #[trigger] break_at(old(self).pending(), e) && old(self).pending().skip(e + 2)
                    == final(self).pending(),
            r is Finished ==> old(self).phase() is Last && old(self).pending().len() >= 2,
            r is NeedMore ==> *final(self) == *old(self),
            r !is Failed ==> final(self).wf(),
            final(self).head_sent() == old(self).head_sent(),
            final(admission).is_complete() == old(admission).is_complete(),
            final(admission).is_drained() == old(admission).is_drained(),
            match old(self).phase() {
                ChunkPhase::Size => match next_size(old(self).pending()) {
                    None => r is NeedMore && *final(self) == *old(self) && *final(admission)
                        == *old(admission) && *final(registry) == *old(registry),
                    Some((None, _)) => r is Failed && *final(admission) == *old(admission)
                        && *final(registry) == *old(registry),
                    Some((Some(n), rest)) => if n == 0 {
                        &&& r is Sized
                        &&& final(self).pending() == rest
                        &&& final(self).phase() == ChunkPhase::Last
                        &&& final(self).decoded() == old(self).decoded()
                        &&& *final(admission) == *old(admission)
                        &&& *final(registry) == *old(registry)
                    } else if old(self).decoded() + n > MAX_RESPONSE_BYTES {
                        r is Failed && *final(admission) == *old(admission) && *final(registry)
                            == *old(registry)
                    } else {
                        &&& final(admission).bytes() == saturated(
                            old(admission).bytes(),
                            n as u64,
                        )
                        &&& final(registry)@ == old(registry)@.streamed(n as u64)
                        &&& if final(admission).bytes() <= old(registry)@.max_buffered_bytes {
                            &&& r is Sized
                            &&& final(self).pending() == rest
                            &&& final(self).phase() == (ChunkPhase::Data { size: n as usize })
                            &&& final(self).decoded() == old(self).decoded() + n
                        } else {
                            r is Failed
                        }
                    },
                },
                ChunkPhase::Data { size } => {
                    &&& *final(admission) == *old(admission)
                    &&& *final(registry) == *old(registry)
                    &&& match next_chunk(old(self).pending(), size as int) {
                        None => r is NeedMore && *final(self) == *old(self),
                        Some((data, closed, rest)) => if closed {
                            &&& r matches ChunkStep::Chunk { bytes } && bytes@ == data
                            &&& final(self).pending() == rest
                            &&& final(self).phase() == ChunkPhase::Size
                            &&& final(self).decoded() == old(self).decoded()
                        } else {
                            r is Failed
                        },
                    }
                },
                ChunkPhase::Last => {
                    &&& *final(admission) == *old(admission)
                    &&& *final(registry) == *old(registry)
                    &&& *final(self) == *old(self)
                    &&& if old(self).pending().len() < 2 {
                        r is NeedMore
                    } else if break_at(old(self).pending(), 0) {
                        r is Finished
                    } else {
                        r is Failed
                    }
                },
            },
    {
        match self.phase {
            ChunkPhase::Size => {
                let n: usize = self.pending.len();
                let e: usize = find_break(self.pending.as_slice());
                if e >= n {
                    return ChunkStep::NeedMore;
                }
                let line = vstd::slice::slice_subrange(self.pending.as_slice(), 0, e);
                assert(self.pending@.subrange(0, e as int) =~= self.pending@.take(e as int));
                let size: usize = match parse_chunk_size(line) {
                    Err(_) => {
                        return ChunkStep::Failed;
                    },
                    Ok(size) => size,
                };
                let rest = self.pending.split_off(e + 2);
                assert(rest@ =~= old(self).pending@.skip(e + 2));
                self.pending = rest;
                if size == 0 {
                    self.phase = ChunkPhase::Last;
                    return ChunkStep::Sized;
                }
                let announced: u64 = match self.decoded.checked_add(size as u64) {
                    None => {
                        return ChunkStep::Failed;
                    },
                    Some(sum) => sum,
                };
                if announced > MAX_RESPONSE_BYTES as u64 {
                    return ChunkStep::Failed;
                }
                if !admission.record_bytes(registry, size as u64) {
                    return ChunkStep::Failed;
                }
                self.decoded = announced;
                self.phase = ChunkPhase::Data { size };
                ChunkStep::Sized
            },
            ChunkPhase::Data { size } => {
                if self.pending.len() < size + 2 {
                    return ChunkStep::NeedMore;
                }
                if !(self.pending[size] == 13 && self.pending[size + 1] == 10) {
                    return ChunkStep::Failed;
                }
                let rest = self.pending.split_off(size + 2);
                let mut data: Vec<u8> = Vec::new();
                let head = vstd::slice::slice_subrange(self.pending.as_slice(), 0, size);
                data.extend_from_slice(head);
                assert(data@ =~= old(self).pending@.take(size as int));
                assert(rest@ =~= old(self).pending@.skip(size + 2));
                self.pending = rest;
                self.phase = ChunkPhase::Size;
                ChunkStep::Chunk { bytes: data }
            },
            ChunkPhase::Last => {
                if self.pending.len() < 2 {
                    ChunkStep::NeedMore
                } else if self.pending[0] == 13 && self.pending[1] == 10 {
                    ChunkStep::Finished
                } else {
                    ChunkStep::Failed
                }
            },
        }
    }
}

/// The digits of `n` to the base of sixteen.
pub open spec fn in_hex(n: nat) -> Seq<char>
    decreases n,
{
    if n < 16 {
        seq!["0123456789abcdef"@[n as int]]
    } else {
        in_hex(n / 16).push("0123456789abcdef"@[(n % 16) as int])
    }
}

proof fn lemma_hex_digits(n: nat)
    requires
        n < 16,
    ensures
        hex_value("0123456789abcdef"@[n as int]) == Some(n),
        ({
            let c = "0123456789abcdef"@[n as int];
            ('0' <= c && c <= '9') || ('a' <= c && c <= 'f')
        }),
{
    reveal_strlit("0123456789abcdef");
}

proof fn lemma_in_hex(n: nat)
    ensures
        in_hex(n).len() > 0,
        hex_number(in_hex(n)) == Some(n),
        forall|i: int|
            0 <= i < in_hex(n).len() ==> ('0' <= #[trigger] in_hex(n)[i] && in_hex(n)[i] <= '9') || (
            'a' <= in_hex(n)[i] && in_hex(n)[i] <= 'f'),
    decreases n,
{
    if n < 16 {
        lemma_hex_digits(n);
        assert(in_hex(n).drop_last() =~= Seq::<char>::empty());
        assert(hex_number(Seq::<char>::empty()) == Some(0nat));
    } else {
        lemma_in_hex(n / 16);
        lemma_hex_digits(n % 16);
        assert(in_hex(n).drop_last() =~= in_hex(n / 16));
    }
}

proof fn lemma_hex_case(a: Seq<char>, b: Seq<char>)
    requires
        lowered(a) == lowered(b),
    ensures
        hex_number(a) == hex_number(b),
    decreases a.len(),
{
    case_does_not_count(a, b);
    case_does_not_count(b, a);
    if a.len() > 0 {
        assert(lowered(a.drop_last()) =~= lowered(a).drop_last());
        assert(lowered(b.drop_last()) =~= lowered(b).drop_last());
        lemma_hex_case(a.drop_last(), b.drop_last());
        let n = a.len() - 1;
        assert(a.len() == b.len());
        assert(lowered(a)[n] == lower_char(a[n]));
        assert(lowered(b)[n] == lower_char(b[n]));
        assert(lower_char(a[n]) == lower_char(b[n]));
        assert(hex_value(a[n]) == hex_value(b[n]));
    }
}

/// The size of a chunk is read off its line: the number that its hexadecimal digits write,
/// small or capital, with white space around them and an extension behind them or without.
pub proof fn chunk_sizes_are_read_back(
    a: Seq<char>,
    digits: Seq<char>,
    b: Seq<char>,
    extension: Seq<char>,
    n: nat,
)
    requires
        all_white(a),
        all_white(b),
        lowered(digits) == in_hex(n),
        extension.len() > 0 ==> extension[0] == ';',
    ensures
        size_of_line(vstd::utf8::encode_utf8(a + digits + b + extension)) == (if n <= usize::MAX {
            Some(n)
        } else {
            None
        }),
        size_of_line(vstd::utf8::encode_utf8(a + extension)) is None,
{
    lemma_in_hex(n);
    case_does_not_count(digits, in_hex(n));
    assert(lowered(in_hex(n)) =~= in_hex(n));
    lemma_hex_case(digits, in_hex(n));
    assert forall|i: int| 0 <= i < digits.len() implies !is_white(#[trigger] digits[i]) && digits[i]
        != ';' by {
        let c = digits[i];
        assert(lowered(digits)[i] == in_hex(n)[i]);
        assert(lower_char(c) == in_hex(n)[i]);
        if 'A' <= c && c <= 'Z' {
            assert(65 <= c as u32 <= 90);
        } else {
            assert(48 <= c as u32 <= 57 || 97 <= c as u32 <= 102);
        }
    }
    lemma_size_text(a, digits, b, extension);
    lemma_size_text(a, Seq::empty(), Seq::empty(), extension);
    assert(a + Seq::<char>::empty() + Seq::<char>::empty() + extension =~= a + extension);
}

proof fn lemma_size_text(a: Seq<char>, digits: Seq<char>, b: Seq<char>, extension: Seq<char>)
    requires
        all_white(a),
        all_white(b),
        extension.len() > 0 ==> extension[0] == ';',
        forall|i: int|
            0 <= i < digits.len() ==> !is_white(#[trigger] digits[i]) && digits[i] != ';',
    ensures
        ({
            let line = vstd::utf8::encode_utf8(a + digits + b + extension);
            let text = decode_utf8(line);
            valid_utf8(line) && trimmed(text.take(first(text, ';'))) == digits
        }),
{
    let text = a + digits + b + extension;
    vstd::utf8::encode_utf8_valid_utf8(text);
    vstd::utf8::encode_utf8_decode_utf8(text);
    let front = a + digits + b;
    assert forall|j: int| 0 <= j < front.len() implies text[j] != ';' by {
        if j < a.len() {
            assert(text[j] == a[j] && is_white(a[j]));
        } else if j < a.len() + digits.len() {
            assert(text[j] == digits[j - a.len()]);
        } else {
            let k = j - a.len() - digits.len();
            assert(text[j] == b[k] && is_white(b[k]));
        }
    }
    lemma_first_at(text, ';', front.len() as int);
    assert(text.take(front.len() as int) =~= front);
    if digits.len() > 0 {
        assert(!is_white(digits[0]) && !is_white(digits[digits.len() - 1]));
    }
    trimming_takes_what_is_around(a, digits, b);
}

/// A line with anything else in the place of a digit announces no size.
pub proof fn only_digits_make_a_size(line: Seq<u8>, i: int)
    requires
        size_of_line(line) is Some,
        ({
            let text = decode_utf8(line);
            0 <= i < trimmed(text.take(first(text, ';'))).len()
        }),
    ensures
        ({
            let text = decode_utf8(line);
            let c = lower_char(trimmed(text.take(first(text, ';')))[i]);
            ('0' <= c && c <= '9') || ('a' <= c && c <= 'f')
        }),
        size_of_line(line)->0 <= usize::MAX,
{
    let text = decode_utf8(line);
    let size = trimmed(text.take(first(text, ';')));
    lemma_hex_grows(size, i + 1);
    assert(size.take(i + 1).last() == size[i]);
}

/// A line ends at its first line break, and what comes after the break is not touched.
pub proof fn lines_end_at_their_break(line: Seq<u8>, rest: Seq<u8>, size: nat)
    requires
        !line.contains(10),
    ensures
        next_size(line + seq![13u8, 10u8] + rest) == Some((size_of_line(line), rest)),
        next_size(line) is None,
        next_chunk(line, line.len() as int) is None,
        size <= line.len() ==> (next_chunk(line, size as int) is Some <==> size + 2 <= line.len()),
        next_chunk(line, size as int) matches Some((_, closed, _)) ==> !closed,
{
    let all = line + seq![13u8, 10u8] + rest;
    assert forall|j: int| 0 <= j < line.len() implies line[j] != 10 by {
        assert(line.contains(line[j]));
    }
    assert forall|j: int| 0 <= j < line.len() implies !#[trigger] break_at(all, j) by {
        if j + 1 < line.len() {
            assert(all[j + 1] == line[j + 1]);
        } else {
            assert(all[j + 1] == 13);
        }
    }
    assert(break_at(all, line.len() as int));
    lemma_line_end(all, line.len() as int);
    assert(all.take(line.len() as int) =~= line);
    assert(all.skip(line.len() as int + 2) =~= rest);
    assert forall|j: int| 0 <= j < line.len() implies !#[trigger] break_at(line, j) by {
        if j + 1 < line.len() {
            assert(line[j + 1] != 10);
        }
    }
    lemma_line_end(line, line.len() as int);
}

/// What an answer turns out to be is told by its head as it was sent: in chunks where a
/// transfer encoding says so, whole where there is none, and broken where it names another
/// coding.
pub proof fn answers_are_told_by_their_head(
    first_line: Seq<u8>,
    hs: Seq<ByteHeader>,
    rest: Seq<u8>,
)
    requires
        first_line.len() > 0,
        !first_line.contains(10),
        !first_line.contains(13),
        forall|i: int| 0 <= i < hs.len() ==> can_be_sent(#[trigger] hs[i]),
        sent_head(first_line, hs).len() <= 65536,
    ensures
        ({
            let head = sent_head(first_line, hs);
            let e = head.len() as usize;
            let v = head_verdict(head + seq![13u8, 10u8, 13u8, 10u8] + rest, Some(e));
            &&& v == Ok::<HeadProgress, u16>(HeadProgress::Whole) <==> forall|i: int|
                0 <= i < hs.len() ==> !names_encoding(#[trigger] hs[i])
            &&& v == Err::<HeadProgress, u16>(502) <==> exists|i: int|
                0 <= i < hs.len() && names_encoding(#[trigger] hs[i]) && lowered(
                    decode_utf8(hs[i].1),
                ) != "chunked"@
            &&& v is Ok ==> v == Ok::<HeadProgress, u16>(HeadProgress::Whole) || v == Ok::<
                HeadProgress,
                u16,
            >(HeadProgress::Chunked { head_end: e })
        }),
{
    let head = sent_head(first_line, hs);
    let bytes = head + seq![13u8, 10u8, 13u8, 10u8] + rest;
    assert(bytes.take(head.len() as int) =~= head);
    heads_are_heard_as_sent(first_line, hs);
}

} // verus!
