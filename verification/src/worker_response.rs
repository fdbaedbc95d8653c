//! What a worker of the text hop answers: the head and body as bytes, whole or in
//! chunks, and what of it goes on to the client.
use vstd::prelude::*;
use vstd::utf8::{decode_utf8, valid_utf8};

use crate::limits::{MAX_RESPONSE_BYTES, MAX_RESPONSE_HEADER_BYTES};
use crate::text::{
    case_does_not_count, chars_of, decimal, decimal_text, eq_fold, is_white, lowered,
    numbers_are_read_back, owned, parse_whole, same, same_fold, text_of, trim_start, white, whole,
};
use crate::worker_wire::{
    has_control, has_invalid_header_value_bytes, is_valid_header_name, valid_name,
};

verus! {

/// The position of the first `b` in `s`, or the length.
pub open spec fn byte_at(s: Seq<u8>, b: u8) -> int
    decreases s.len(),
{
    if s.len() == 0 || s[0] == b {
        0
    } else {
        1 + byte_at(s.drop_first(), b)
    }
}

proof fn lemma_byte_at(s: Seq<u8>, b: u8, i: int)
    requires
        0 <= i <= s.len(),
        forall|j: int| 0 <= j < i ==> s[j] != b,
        i < s.len() ==> s[i] == b,
    ensures
        byte_at(s, b) == i,
    decreases s.len(),
{
    if i > 0 {
        let t = s.drop_first();
        assert forall|j: int| 0 <= j < i - 1 implies t[j] != b by {
            assert(t[j] == s[j + 1]);
        }
        lemma_byte_at(t, b, i - 1);
    }
}

/// The lines of `s`, which line feeds separate.
pub open spec fn lines(s: Seq<u8>) -> Seq<Seq<u8>>
    decreases s.len(),
    via lines_decreases
{
    let i = byte_at(s, 10);
    if i >= s.len() {
        seq![s]
    } else {
        seq![s.take(i)] + lines(s.skip(i + 1))
    }
}

#[via_fn]
proof fn lines_decreases(s: Seq<u8>) {
    lemma_byte_range(s, 10);
}

proof fn lemma_byte_range(s: Seq<u8>, b: u8)
    ensures
        0 <= byte_at(s, b) <= s.len(),
    decreases s.len(),
{
    if s.len() > 0 && s[0] != b {
        lemma_byte_range(s.drop_first(), b);
    }
}

/// The views of a list of byte strings.
pub open spec fn byte_views(v: Seq<Vec<u8>>) -> Seq<Seq<u8>> {
    v.map_values(|b: Vec<u8>| b@)
}

fn split_lines(s: &[u8]) -> (r: Vec<Vec<u8>>)
    ensures
        byte_views(r@) == lines(s@),
        r@.len() >= 1,
{
    let mut out: Vec<Vec<u8>> = Vec::new();
    let mut line: Vec<u8> = Vec::new();
    let mut i: usize = 0;
    proof {
        assert(s@.skip(0) =~= s@);
        assert(line@ + s@ =~= s@);
        assert(byte_views(out@) + lines(s@) =~= lines(s@));
    }
    while i < s.len()
        invariant
            i <= s@.len(),
            forall|j: int| 0 <= j < line@.len() ==> line@[j] != 10,
            byte_views(out@) + lines(line@ + s@.skip(i as int)) == lines(s@),
        decreases s@.len() - i,
    {
        let ghost rest = s@.skip(i as int);
        let ghost before = line@;
        let ghost done = out@;
        if s[i] == 10 {
            proof {
                lemma_byte_at(before + rest, 10, before.len() as int);
                assert((before + rest).take(before.len() as int) =~= before);
                assert((before + rest).skip(before.len() as int + 1) =~= s@.skip(i + 1));
                assert(lines(before + rest) == seq![before] + lines(s@.skip(i + 1)));
            }
            out.push(line);
            line = Vec::new();
            proof {
                assert(byte_views(out@) =~= byte_views(done).push(before));
                assert(line@ + s@.skip(i + 1) =~= s@.skip(i + 1));
                assert(byte_views(out@) + lines(s@.skip(i + 1)) =~= byte_views(done) + lines(
                    before + rest,
                ));
            }
        } else {
            line.push(s[i]);
            assert(line@ + s@.skip(i + 1) =~= before + rest);
        }
        i += 1;
    }
    let ghost before = line@;
    let ghost done = out@;
    proof {
        assert(before + s@.skip(i as int) =~= before);
        lemma_byte_at(before, 10, before.len() as int);
        assert(lines(before) == seq![before]);
    }
    out.push(line);
    assert(byte_views(out@) =~= byte_views(done) + seq![before]);
    out
}

/// Whether `\r\n\r\n` stands at position `i` of `s`.
pub open spec fn blank_at(s: Seq<u8>, i: int) -> bool {
    0 <= i && i + 4 <= s.len() && s[i] == 13 && s[i + 1] == 10 && s[i + 2] == 13 && s[i + 3] == 10
}

/// The end of the head: where its closing blank line begins.
pub open spec fn is_head_end(s: Seq<u8>, r: Option<usize>) -> bool {
    match r {
        Some(i) => blank_at(s, i as int) && forall|j: int| 0 <= j < i ==> !#[trigger] blank_at(s, j),
        None => forall|j: int| !#[trigger] blank_at(s, j),
    }
}

pub fn find_header_end(buf: &[u8]) -> (r: Option<usize>)
    ensures
        is_head_end(buf@, r),
{
    let n: usize = buf.len();
    let mut i: usize = 0;
    while n - i >= 4
        invariant
            i <= n,
            n == buf@.len(),
            forall|j: int| 0 <= j < i ==> !#[trigger] blank_at(buf@, j),
        decreases n - i,
    {
        if buf[i] == 13 && buf[i + 1] == 10 && buf[i + 2] == 13 && buf[i + 3] == 10 {
            assert(blank_at(buf@, i as int));
            return Some(i);
        }
        assert(!blank_at(buf@, i as int));
        i += 1;
    }
    None
}

/// `line` without one closing carriage return.
pub open spec fn without_cr(line: Seq<u8>) -> Seq<u8> {
    if line.len() > 0 && line.last() == 13 { line.drop_last() } else { line }
}

pub fn strip_trailing_cr(line: &[u8]) -> (r: &[u8])
    ensures
        r@ == without_cr(line@),
{
    let n: usize = line.len();
    if n > 0 && line[n - 1] == 13 {
        vstd::slice::slice_subrange(line, 0, n - 1)
    } else {
        line
    }
}

/// `s` without the spaces and tabs around it.
pub open spec fn without_ows(s: Seq<u8>) -> Seq<u8>
    decreases s.len(),
{
    if s.len() > 0 && (s[0] == 32 || s[0] == 9) {
        without_ows(s.drop_first())
    } else if s.len() > 0 && (s.last() == 32 || s.last() == 9) {
        without_ows(s.drop_last())
    } else {
        s
    }
}

pub fn trim_optional_whitespace(bytes: &[u8]) -> (r: &[u8])
    ensures
        r@ == without_ows(bytes@),
{
    let n: usize = bytes.len();
    let mut a: usize = 0;
    assert(bytes@.subrange(0, n as int) =~= bytes@);
    while a < n && (bytes[a] == 32 || bytes[a] == 9)
        invariant
            a <= n,
            n == bytes@.len(),
            without_ows(bytes@.subrange(a as int, n as int)) == without_ows(bytes@),
        decreases n - a,
    {
        assert(bytes@.subrange(a as int, n as int).drop_first() =~= bytes@.subrange(
            a + 1,
            n as int,
        ));
        a += 1;
    }
    let mut b: usize = n;
    while b > a && (bytes[b - 1] == 32 || bytes[b - 1] == 9)
        invariant
            a <= b <= n,
            n == bytes@.len(),
            a < n ==> bytes@[a as int] != 32 && bytes@[a as int] != 9,
            without_ows(bytes@.subrange(a as int, b as int)) == without_ows(bytes@),
        decreases b,
    {
        assert(bytes@.subrange(a as int, b as int).drop_last() =~= bytes@.subrange(
            a as int,
            b - 1,
        ));
        b -= 1;
    }
    vstd::slice::slice_subrange(bytes, a, b)
}

/// The name and value of a header line, if it is one.
pub open spec fn header_of(raw: Seq<u8>) -> Option<(Seq<u8>, Seq<u8>)> {
    let line = without_cr(raw);
    let c = byte_at(line, 58);
    let name = line.take(c);
    let value = without_ows(line.skip(c + 1));
    if line.len() == 0 || line[0] == 32 || line[0] == 9 || c >= line.len() || !valid_name(name)
        || has_control(value) {
        None
    } else {
        Some((name, value))
    }
}

fn parse_header<'a>(raw: &'a [u8]) -> (r: Option<(&'a [u8], &'a [u8])>)
    ensures
        match header_of(raw@) {
            Some((name, value)) => r matches Some((n, v)) && n@ == name && v@ == value,
            None => r is None,
        },
{
    let line = strip_trailing_cr(raw);
    let n: usize = line.len();
    if n == 0 || line[0] == 32 || line[0] == 9 {
        return None;
    }
    let mut c: usize = 0;
    while c < n && line[c] != 58
        invariant
            c <= n,
            n == line@.len(),
            forall|j: int| 0 <= j < c ==> line@[j] != 58,
        decreases n - c,
    {
        c += 1;
    }
    proof {
        lemma_byte_at(line@, 58, c as int);
    }
    if c >= n {
        return None;
    }
    let name = vstd::slice::slice_subrange(line, 0, c);
    let value = trim_optional_whitespace(vstd::slice::slice_subrange(line, c + 1, n));
    assert(line@.subrange(0, c as int) =~= line@.take(c as int));
    assert(line@.subrange(c + 1, n as int) =~= line@.skip(c + 1));
    if !is_valid_header_name(name) || has_invalid_header_value_bytes(value) {
        return None;
    }
    Some((name, value))
}

/// Whether the header lines announce a chunked body; `None` where a line is no header
/// or names another transfer coding.
pub open spec fn chunked_by(ls: Seq<Seq<u8>>) -> Option<bool>
    decreases ls.len(),
{
    if ls.len() == 0 {
        Some(false)
    } else {
        match (chunked_by(ls.drop_last()), header_of(ls.last())) {
            (Some(b), Some((name, value))) => if !valid_utf8(name) {
                None
            } else if same_fold(decode_utf8(name), "transfer-encoding"@) {
                if valid_utf8(value) && same_fold(decode_utf8(value), "chunked"@) {
                    Some(true)
                } else {
                    None
                }
            } else {
                Some(b)
            },
            _ => None,
        }
    }
}

proof fn lemma_chunked_none(ls: Seq<Seq<u8>>, i: int)
    requires
        0 <= i <= ls.len(),
        chunked_by(ls.take(i)) is None,
    ensures
        chunked_by(ls) is None,
    decreases ls.len() - i,
{
    if i < ls.len() {
        assert(ls.take(i + 1).drop_last() =~= ls.take(i));
        lemma_chunked_none(ls, i + 1);
    } else {
        assert(ls.take(i) =~= ls);
    }
}

/// Whether a response head announces a chunked body; a head that is none is answered
/// with 502.
pub fn worker_response_is_chunked(head: &[u8]) -> (r: Result<bool, u16>)
    ensures
        match chunked_by(lines(head@).skip(1)) {
            Some(b) => r == Ok::<bool, u16>(b),
            None => r == Err::<bool, u16>(502),
        },
{
    let all = split_lines(head);
    let ghost ls = lines(head@).skip(1);
    let mut chunked: bool = false;
    let mut i: usize = 1;
    assert(ls.take(0) =~= Seq::<Seq<u8>>::empty());
    while i < all.len()
        invariant
            1 <= i <= all@.len(),
            byte_views(all@) == lines(head@),
            ls == lines(head@).skip(1),
            chunked_by(ls.take(i - 1)) == Some(chunked),
        decreases all@.len() - i,
    {
        let ghost next = ls.take(i as int);
        proof {
            assert(next.drop_last() =~= ls.take(i - 1));
            assert(lines(head@)[i as int] == all@[i as int]@);
            assert(next.last() == all@[i as int]@);
            if chunked_by(next) is None {
                lemma_chunked_none(ls, i as int);
            }
        }
        match parse_header(all[i].as_slice()) {
            None => {
                return Err(502);
            },
            Some((name, value)) => match text_of(name) {
                None => {
                    return Err(502);
                },
                Some(n) => if eq_fold(n, "transfer-encoding") {
                    match text_of(value) {
                        None => {
                            return Err(502);
                        },
                        Some(v) => if eq_fold(v, "chunked") {
                            chunked = true;
                        } else {
                            return Err(502);
                        },
                    }
                },
            },
        }
        i += 1;
    }
    assert(ls.len() == all@.len() - 1);
    assert(ls.take(i - 1) =~= ls);
    Ok(chunked)
}

/// The headers that the edge writes itself, since they frame the response.
pub open spec fn is_framing(name: Seq<char>) -> bool {
    same_fold(name, "content-length"@) || same_fold(name, "transfer-encoding"@) || same_fold(
        name,
        "connection"@,
    )
}

pub fn is_framing_header(name: &str) -> (r: bool)
    ensures
        r == is_framing(name@),
{
    eq_fold(name, "content-length") || eq_fold(name, "transfer-encoding") || eq_fold(
        name,
        "connection",
    )
}

/// A header as text.
pub type TextPair = (Seq<char>, Seq<char>);

/// The text of a list of headers.
pub open spec fn pair_views(v: Seq<(String, String)>) -> Seq<TextPair> {
    v.map_values(|p: (String, String)| (p.0@, p.1@))
}

/// The headers that go on to the client, in order; `None` where a line is no header or
/// not text.
pub open spec fn kept(ls: Seq<Seq<u8>>) -> Option<Seq<TextPair>>
    decreases ls.len(),
{
    if ls.len() == 0 {
        Some(Seq::empty())
    } else {
        match (kept(ls.drop_last()), header_of(ls.last())) {
            (Some(hs), Some((name, value))) => if !valid_utf8(name) {
                None
            } else if is_framing(decode_utf8(name)) {
                Some(hs)
            } else if !valid_utf8(value) {
                None
            } else {
                Some(hs.push((decode_utf8(name), decode_utf8(value))))
            },
            _ => None,
        }
    }
}

proof fn lemma_kept_none(ls: Seq<Seq<u8>>, i: int)
    requires
        0 <= i <= ls.len(),
        kept(ls.take(i)) is None,
    ensures
        kept(ls) is None,
    decreases ls.len() - i,
{
    if i < ls.len() {
        assert(ls.take(i + 1).drop_last() =~= ls.take(i));
        lemma_kept_none(ls, i + 1);
    } else {
        assert(ls.take(i) =~= ls);
    }
}

/// No header that frames a response goes on from a worker to the client.
pub proof fn no_framing_header_is_kept(ls: Seq<Seq<u8>>, i: int)
    requires
        kept(ls) is Some,
        0 <= i < (kept(ls)->0).len(),
    ensures
        !is_framing((kept(ls)->0)[i].0),
    decreases ls.len(),
{
    if ls.len() > 0 {
        let rest = kept(ls.drop_last())->0;
        if i < rest.len() {
            no_framing_header_is_kept(ls.drop_last(), i);
        }
    }
}

fn keep_headers(all: &Vec<Vec<u8>>) -> (r: Option<Vec<(String, String)>>)
    requires
        all@.len() >= 1,
    ensures
        match kept(byte_views(all@).skip(1)) {
            Some(hs) => r matches Some(v) && pair_views(v@) == hs,
            None => r is None,
        },
{
    let ghost ls = byte_views(all@).skip(1);
    let mut out: Vec<(String, String)> = Vec::new();
    let mut i: usize = 1;
    assert(ls.take(0) =~= Seq::<Seq<u8>>::empty());
    assert(pair_views(out@) =~= Seq::<TextPair>::empty());
    while i < all.len()
        invariant
            1 <= i <= all@.len(),
            ls == byte_views(all@).skip(1),
            kept(ls.take(i - 1)) == Some(pair_views(out@)),
        decreases all@.len() - i,
    {
        let ghost next = ls.take(i as int);
        let ghost done = out@;
        proof {
            assert(next.drop_last() =~= ls.take(i - 1));
            assert(next.last() == all@[i as int]@);
            if kept(next) is None {
                lemma_kept_none(ls, i as int);
            }
        }
        match parse_header(all[i].as_slice()) {
            None => {
                return None;
            },
            Some((name, value)) => match text_of(name) {
                None => {
                    return None;
                },
                Some(n) => if !is_framing_header(n) {
                    match text_of(value) {
                        None => {
                            return None;
                        },
                        Some(v) => {
                            out.push((owned(n), owned(v)));
                            assert(pair_views(out@) =~= pair_views(done).push((n@, v@)));
                        },
                    }
                },
            },
        }
        i += 1;
    }
    assert(ls.len() == all@.len() - 1);
    assert(ls.take(i - 1) =~= ls);
    Some(out)
}

/// The first run of characters that are not white space, and what follows it.
pub open spec fn next_word(s: Seq<char>) -> Option<(Seq<char>, Seq<char>)> {
    let t = trim_start(s);
    if t.len() == 0 {
        None
    } else {
        Some((t.take(word_len(t)), t.skip(word_len(t))))
    }
}

pub open spec fn word_len(s: Seq<char>) -> int
    decreases s.len(),
{
    if s.len() == 0 || is_white(s[0]) {
        0
    } else {
        1 + word_len(s.drop_first())
    }
}

proof fn lemma_word_len(s: Seq<char>, i: int)
    requires
        0 <= i <= s.len(),
        forall|j: int| 0 <= j < i ==> !is_white(#[trigger] s[j]),
        i < s.len() ==> is_white(s[i]),
    ensures
        word_len(s) == i,
    decreases s.len(),
{
    if i > 0 {
        let t = s.drop_first();
        assert forall|j: int| 0 <= j < i - 1 implies !is_white(#[trigger] t[j]) by {
            assert(t[j] == s[j + 1]);
        }
        lemma_word_len(t, i - 1);
    }
}

proof fn lemma_trim_start(s: Seq<char>, a: int)
    requires
        0 <= a <= s.len(),
        forall|j: int| 0 <= j < a ==> is_white(#[trigger] s[j]),
        a < s.len() ==> !is_white(s[a]),
    ensures
        trim_start(s) == s.skip(a),
    decreases s.len(),
{
    if a > 0 {
        let t = s.drop_first();
        assert forall|j: int| 0 <= j < a - 1 implies is_white(#[trigger] t[j]) by {
            assert(t[j] == s[j + 1]);
        }
        lemma_trim_start(t, a - 1);
        assert(t.skip(a - 1) =~= s.skip(a));
    } else {
        assert(s.skip(0) =~= s);
    }
}

pub fn take_word<'a>(s: &'a str) -> (r: Option<(&'a str, &'a str)>)
    ensures
        match next_word(s@) {
            Some((w, rest)) => r matches Some((a, b)) && a@ == w && b@ == rest,
            None => r is None,
        },
{
    let cs = chars_of(s);
    let n: usize = cs.len();
    let mut a: usize = 0;
    while a < n && white(cs[a])
        invariant
            a <= n,
            n == cs@.len(),
            cs@ == s@,
            forall|j: int| 0 <= j < a ==> is_white(#[trigger] s@[j]),
        decreases n - a,
    {
        a += 1;
    }
    proof {
        lemma_trim_start(s@, a as int);
    }
    let ghost t = s@.skip(a as int);
    if a == n {
        return None;
    }
    let mut b: usize = a;
    while b < n && !white(cs[b])
        invariant
            a <= b <= n,
            n == cs@.len(),
            cs@ == s@,
            t == s@.skip(a as int),
            forall|j: int| 0 <= j < b - a ==> !is_white(#[trigger] t[j]),
        decreases n - b,
    {
        assert(t[b - a] == s@[b as int]);
        b += 1;
    }
    proof {
        assert(b < n ==> t[b - a] == s@[b as int]);
        lemma_word_len(t, b - a);
        assert(t.take(b - a) =~= s@.subrange(a as int, b as int));
        assert(t.skip(b - a) =~= s@.subrange(b as int, n as int));
    }
    Some((s.substring_char(a, b), s.substring_char(b, n)))
}

/// The status of a response line: HTTP/1.1 and a code of three digits' worth.
pub open spec fn status_of(line: Seq<u8>) -> Option<u16> {
    if !valid_utf8(line) {
        None
    } else {
        match next_word(decode_utf8(line)) {
            Some((version, rest)) => if version != "HTTP/1.1"@ {
                None
            } else {
                match next_word(rest) {
                    Some((code, _)) => match whole(code, u16::MAX as nat) {
                        Some(n) => if 100 <= n <= 599 { Some(n as u16) } else { None },
                        None => None,
                    },
                    None => None,
                }
            },
            None => None,
        }
    }
}

pub fn parse_status_line(line: &[u8]) -> (r: Result<u16, u16>)
    ensures
        match status_of(line@) {
            Some(code) => r == Ok::<u16, u16>(code),
            None => r == Err::<u16, u16>(502),
        },
{
    let text = match text_of(line) {
        None => {
            return Err(502);
        },
        Some(t) => t,
    };
    match take_word(text) {
        None => Err(502),
        Some((version, rest)) => {
            if !same(version, "HTTP/1.1") {
                return Err(502);
            }
            match take_word(rest) {
                None => Err(502),
                Some((code, _)) => match parse_whole(code, u16::MAX as u64) {
                    None => Err(502),
                    Some(n) => if 100 <= n && n <= 599 {
                        Ok(n as u16)
                    } else {
                        Err(502)
                    },
                },
            }
        },
    }
}

/// The head of a response on its way to the client.
pub struct ResponseHead {
    pub status: u16,
    pub headers: Vec<(String, String)>,
}

/// What is added for a client whose connection is not kept.
pub open spec fn closing(keepalive_enabled: bool) -> Seq<TextPair> {
    if keepalive_enabled { Seq::empty() } else { seq![("Connection"@, "close"@)] }
}

/// The head of a chunked response: its status and headers, none of which frame it.
pub open spec fn chunked_head(head: Seq<u8>, keepalive_enabled: bool) -> Option<(
    u16,
    Seq<TextPair>,
)> {
    match (status_of(without_cr(lines(head)[0])), kept(lines(head).skip(1))) {
        (Some(status), Some(hs)) => Some((status, hs + closing(keepalive_enabled))),
        _ => None,
    }
}

fn push_close(headers: &mut Vec<(String, String)>, keepalive_enabled: bool)
    ensures
        pair_views(final(headers)@) == pair_views(old(headers)@) + closing(keepalive_enabled),
{
    if !keepalive_enabled {
        headers.push((owned("Connection"), owned("close")));
    }
    assert(pair_views(headers@) =~= pair_views(old(headers)@) + closing(keepalive_enabled));
}

/// Reads the head of a chunked response; a head that is none is answered with 502.
pub fn parse_chunked_worker_response_head(head: &[u8], keepalive_enabled: bool) -> (r: Result<
    ResponseHead,
    u16,
>)
    ensures
        match chunked_head(head@, keepalive_enabled) {
            Some((status, hs)) => r matches Ok(h) && h.status == status && pair_views(h.headers@)
                == hs,
            None => r matches Err(s) && s == 502,
        },
{
    let all = split_lines(head);
    assert(lines(head@)[0] == all@[0]@);
    match parse_status_line(strip_trailing_cr(all[0].as_slice())) {
        Err(_) => Err(502),
        Ok(status) => match keep_headers(&all) {
            None => Err(502),
            Some(hs) => {
                let mut headers = hs;
                push_close(&mut headers, keepalive_enabled);
                Ok(ResponseHead { status, headers })
            },
        },
    }
}

/// A whole response on its way to the client.
pub struct WorkerResponse {
    pub status: u16,
    pub headers: Vec<(String, String)>,
    pub body: Vec<u8>,
}

/// What a whole response says, where its head ends at `e`.
pub open spec fn response_at(bytes: Seq<u8>, e: int, keepalive_enabled: bool) -> Option<(
    u16,
    Seq<TextPair>,
    Seq<u8>,
)> {
    let head = bytes.take(e);
    let body = bytes.skip(e + 4);
    if e > MAX_RESPONSE_HEADER_BYTES || bytes.len() > MAX_RESPONSE_BYTES {
        None
    } else {
        match (status_of(without_cr(lines(head)[0])), kept(lines(head).skip(1))) {
            (Some(status), Some(hs)) => Some(
                (
                    status,
                    hs.push(("Content-Length"@, decimal(body.len() as nat))) + closing(
                        keepalive_enabled,
                    ),
                    body,
                ),
            ),
            _ => None,
        }
    }
}

/// Reads a whole response; anything that is none, or is too large, is answered with
/// 502.
pub fn parse_worker_response(bytes: &[u8], keepalive_enabled: bool) -> (r: Result<
    WorkerResponse,
    u16,
>)
    ensures
        (forall|j: int| !#[trigger] blank_at(bytes@, j)) ==> (r matches Err(s) && s == 502),
        forall|e: int|
            #[trigger] blank_at(bytes@, e) && (forall|j: int|
                0 <= j < e ==> !#[trigger] blank_at(bytes@, j)) ==> match response_at(
                bytes@,
                e,
                keepalive_enabled,
            ) {
                Some((status, hs, body)) => r matches Ok(w) && w.status == status && pair_views(
                    w.headers@,
                ) == hs && w.body@ == body,
                None => r matches Err(s) && s == 502,
            },
{
    let n: usize = bytes.len();
    let e: usize = match find_header_end(bytes) {
        None => {
            return Err(502);
        },
        Some(e) => e,
    };
    assert forall|x: int|
        #[trigger] blank_at(bytes@, x) && (forall|j: int|
            0 <= j < x ==> !#[trigger] blank_at(bytes@, j)) implies x == e by {
        assert(blank_at(bytes@, e as int));
        if x < e {
            assert(!blank_at(bytes@, x));
        }
    }
    if e > MAX_RESPONSE_HEADER_BYTES || n > MAX_RESPONSE_BYTES {
        return Err(502);
    }
    let head = vstd::slice::slice_subrange(bytes, 0, e);
    assert(bytes@.subrange(0, e as int) =~= bytes@.take(e as int));
    let tail = vstd::slice::slice_subrange(bytes, e + 4, n);
    assert(bytes@.subrange(e + 4, n as int) =~= bytes@.skip(e + 4));
    let all = split_lines(head);
    assert(lines(head@)[0] == all@[0]@);
    let status: u16 = match parse_status_line(strip_trailing_cr(all[0].as_slice())) {
        Err(_) => {
            return Err(502);
        },
        Ok(status) => status,
    };
    let mut headers = match keep_headers(&all) {
        None => {
            return Err(502);
        },
        Some(hs) => hs,
    };
    let ghost hs = pair_views(headers@);
    let mut body: Vec<u8> = Vec::new();
    body.extend_from_slice(tail);
    assert(body@ =~= tail@);
    headers.push((owned("Content-Length"), decimal_text(body.len() as u64)));
    assert(pair_views(headers@) =~= hs.push(("Content-Length"@, decimal(body@.len() as nat))));
    push_close(&mut headers, keepalive_enabled);
    Ok(WorkerResponse { status, headers, body })
}

/// A header of an answer, as bytes.
pub type ByteHeader = (Seq<u8>, Seq<u8>);

/// Whether a header can be told apart in an answer: its name is one, its value is text
/// without control characters, and does not begin or end with a blank or a tab.
pub open spec fn can_be_sent(h: ByteHeader) -> bool {
    &&& valid_name(h.0)
    &&& !has_control(h.1)
    &&& valid_utf8(h.1)
    &&& h.1.len() > 0 ==> h.1[0] != 32 && h.1[0] != 9 && h.1.last() != 32 && h.1.last() != 9
}

/// The line of a header: name, colon, blank, value.
pub open spec fn sent_line(h: ByteHeader) -> Seq<u8> {
    h.0 + seq![58u8, 32u8] + h.1
}

/// `parts` with a carriage return and a line feed between them.
pub open spec fn crlf_joined(parts: Seq<Seq<u8>>) -> Seq<u8>
    decreases parts.len(),
{
    if parts.len() == 0 {
        Seq::empty()
    } else if parts.len() == 1 {
        parts[0]
    } else {
        crlf_joined(parts.drop_last()) + seq![13u8, 10u8] + parts.last()
    }
}

proof fn lemma_without_ows_bare(v: Seq<u8>)
    requires
        v.len() > 0 ==> v[0] != 32 && v[0] != 9 && v.last() != 32 && v.last() != 9,
    ensures
        without_ows(v) == v,
        without_ows(seq![32u8] + v) == v,
        without_ows(seq![9u8] + v) == v,
{
    assert((seq![32u8] + v).drop_first() =~= v);
    assert((seq![9u8] + v).drop_first() =~= v);
}

/// A header line is read as the name before its first colon and the whole value behind it,
/// whatever the value holds, with a carriage return at the end or without, and with a blank
/// or a tab before the value or without.
pub proof fn header_lines_are_read_whole(h: ByteHeader)
    requires
        can_be_sent(h),
    ensures
        header_of(sent_line(h)) == Some(h),
        header_of(sent_line(h).push(13)) == Some(h),
        header_of(h.0 + seq![58u8] + h.1) == Some(h),
        header_of(h.0 + seq![58u8, 9u8] + h.1) == Some(h),
{
    lemma_read_line(h, seq![32u8]);
    lemma_read_line(h, seq![9u8]);
    lemma_read_line(h, Seq::empty());
    assert(h.0 + seq![58u8] + seq![32u8] + h.1 =~= sent_line(h));
    assert(h.0 + seq![58u8] + seq![9u8] + h.1 =~= h.0 + seq![58u8, 9u8] + h.1);
    assert(h.0 + seq![58u8] + Seq::<u8>::empty() + h.1 =~= h.0 + seq![58u8] + h.1);
    let line = sent_line(h);
    assert(line.push(13).drop_last() =~= line);
    assert(without_cr(line) == line) by {
        if h.1.len() > 0 {
            assert(line.last() == h.1.last());
            assert(!crate::worker_wire::is_control_byte(h.1[h.1.len() - 1]));
        } else {
            assert(line.last() == 32);
        }
    }
    assert(without_cr(line.push(13)) == line);
}

proof fn lemma_read_line(h: ByteHeader, gap: Seq<u8>)
    requires
        can_be_sent(h),
        gap == seq![32u8] || gap == seq![9u8] || gap == Seq::<u8>::empty(),
    ensures
        header_of(h.0 + seq![58u8] + gap + h.1) == Some(h),
{
    let line = h.0 + seq![58u8] + gap + h.1;
    let n = h.0.len() as int;
    assert forall|j: int| 0 <= j < n implies line[j] != 58 by {
        assert(line[j] == h.0[j]);
        assert(crate::worker_wire::is_token_byte(h.0[j]));
    }
    assert(line[n] == 58);
    assert(line.last() != 13) by {
        if h.1.len() > 0 {
            assert(line.last() == h.1.last());
            assert(!crate::worker_wire::is_control_byte(h.1[h.1.len() - 1]));
        }
    }
    assert(without_cr(line) == line);
    lemma_byte_at(line, 58, n);
    assert(line.take(n) =~= h.0);
    assert(line.skip(n + 1) =~= gap + h.1);
    lemma_without_ows_bare(h.1);
    assert(Seq::<u8>::empty() + h.1 =~= h.1);
    assert(line[0] == h.0[0]);
    assert(crate::worker_wire::is_token_byte(h.0[0]));
}

/// A line that is no header is refused: one without a colon, one whose name is none, one
/// that begins with a blank, and one with a control character in its value.
pub proof fn other_lines_are_refused(name: Seq<u8>, value: Seq<u8>, i: int)
    requires
        !name.contains(58),
        value.len() > 0 ==> value[0] != 32 && value[0] != 9 && value.last() != 32 && value.last()
            != 9 && value.last() != 13,
        0 <= i < value.len(),
    ensures
        name.len() > 0 && name.last() != 13 ==> header_of(name) is None,
        !valid_name(name) ==> header_of(name + seq![58u8] + value) is None,
        value[i] != 9 && (value[i] < 32 || value[i] == 127) ==> header_of(
            name + seq![58u8] + value,
        ) is None,
        header_of(seq![32u8] + name + seq![58u8] + value) is None,
        header_of(Seq::<u8>::empty()) is None,
{
    assert forall|j: int| 0 <= j < name.len() implies name[j] != 58 by {
        assert(name.contains(name[j]));
    }
    lemma_byte_at(name, 58, name.len() as int);
    let line = name + seq![58u8] + value;
    assert(line.last() == value.last());
    assert(without_cr(line) == line);
    lemma_byte_at(line, 58, name.len() as int);
    assert(line.take(name.len() as int) =~= name);
    assert(line.skip(name.len() as int + 1) =~= value);
    lemma_without_ows_bare(value);
    assert(crate::worker_wire::is_control_byte(value[i]) ==> has_control(value));
    let folded = seq![32u8] + name + seq![58u8] + value;
    assert(folded.last() == value.last());
    assert(without_cr(folded) == folded);
}

proof fn lemma_lines_of_joined(a: Seq<u8>, b: Seq<u8>)
    ensures
        lines(a + seq![10u8] + b) == lines(a) + lines(b),
        lines(a).len() > 0,
    decreases a.len(),
{
    let s = a + seq![10u8] + b;
    let i = byte_at(a, 10);
    lemma_byte_range(a, 10);
    lemma_byte_found(a, 10);
    if i >= a.len() {
        assert forall|j: int| 0 <= j < a.len() implies s[j] != 10 by {
            assert(s[j] == a[j]);
        }
        lemma_byte_at(s, 10, a.len() as int);
        assert(s.take(a.len() as int) =~= a);
        assert(s.skip(a.len() as int + 1) =~= b);
    } else {
        assert forall|j: int| 0 <= j < i implies s[j] != 10 by {
            assert(s[j] == a[j]);
        }
        assert(s[i] == 10);
        lemma_byte_at(s, 10, i);
        assert(s.take(i) =~= a.take(i));
        assert(s.skip(i + 1) =~= a.skip(i + 1) + seq![10u8] + b);
        lemma_lines_of_joined(a.skip(i + 1), b);
        assert(lines(s) =~= lines(a) + lines(b));
    }
}

proof fn lemma_byte_found(s: Seq<u8>, b: u8)
    ensures
        forall|j: int| 0 <= j < byte_at(s, b) ==> s[j] != b,
        byte_at(s, b) < s.len() ==> s[byte_at(s, b)] == b,
    decreases s.len(),
{
    if s.len() > 0 && s[0] != b {
        lemma_byte_found(s.drop_first(), b);
        lemma_byte_range(s.drop_first(), b);
        assert forall|j: int| 0 <= j < byte_at(s, b) implies s[j] != b by {
            if j > 0 {
                assert(s.drop_first()[j - 1] == s[j]);
            }
        }
    }
}

proof fn lemma_one_line(a: Seq<u8>)
    requires
        !a.contains(10),
    ensures
        lines(a) == seq![a],
{
    assert forall|j: int| 0 <= j < a.len() implies a[j] != 10 by {
        assert(a.contains(a[j]));
    }
    lemma_byte_at(a, 10, a.len() as int);
}

/// Whether `parts` can be the lines of a head: not empty, and without line ends.
pub open spec fn are_lines(parts: Seq<Seq<u8>>) -> bool {
    forall|i: int|
        0 <= i < parts.len() ==> (#[trigger] parts[i]).len() > 0 && !parts[i].contains(10)
            && !parts[i].contains(13)
}

/// What was joined with line ends is taken apart again: line by line, each with at most a
/// carriage return more.
pub proof fn lines_are_taken_apart(parts: Seq<Seq<u8>>)
    requires
        parts.len() > 0,
        are_lines(parts),
    ensures
        lines(crlf_joined(parts)).len() == parts.len(),
        forall|i: int|
            0 <= i < parts.len() ==> without_cr(#[trigger] lines(crlf_joined(parts))[i])
                == parts[i],
        lines(crlf_joined(parts)).last() == parts.last(),
    decreases parts.len(),
{
    let last = parts.last();
    assert(last == parts[parts.len() - 1]);
    lemma_one_line(last);
    assert(without_cr(last) == last) by {
        assert(last.contains(last.last()));
    }
    if parts.len() > 1 {
        let rest = parts.drop_last();
        assert forall|i: int| 0 <= i < rest.len() implies (#[trigger] rest[i]).len() > 0
            && !rest[i].contains(10) && !rest[i].contains(13) by {
            assert(rest[i] == parts[i]);
        }
        lines_are_taken_apart(rest);
        let x = crlf_joined(rest);
        lemma_lines_of_joined(x.push(13), last);
        assert(x.push(13) + seq![10u8] + last =~= x + seq![13u8, 10u8] + last);
        lemma_lines_push_cr(x);
        let ls = lines(crlf_joined(parts));
        assert forall|i: int| 0 <= i < parts.len() implies without_cr(#[trigger] ls[i])
            == parts[i] by {
            let r = lines(x);
            if i < rest.len() - 1 {
                assert(ls[i] == r[i]);
                assert(without_cr(r[i]) == rest[i]);
            } else if i == rest.len() - 1 {
                assert(ls[i] == rest.last().push(13));
                assert(rest.last().push(13).drop_last() =~= rest.last());
            }
        }
    }
}

proof fn lemma_lines_push_cr(x: Seq<u8>)
    ensures
        lines(x).len() > 0,
        lines(x.push(13)) == lines(x).drop_last().push(lines(x).last().push(13)),
    decreases x.len(),
{
    let i = byte_at(x, 10);
    let y = x.push(13);
    lemma_byte_range(x, 10);
    lemma_byte_found(x, 10);
    if i >= x.len() {
        assert forall|j: int| 0 <= j < y.len() implies y[j] != 10 by {
            if j < x.len() {
                assert(y[j] == x[j]);
            }
        }
        lemma_byte_at(y, 10, y.len() as int);
        assert(lines(x).drop_last() =~= Seq::<Seq<u8>>::empty());
        assert(lines(y) =~= lines(x).drop_last().push(lines(x).last().push(13)));
    } else {
        assert forall|j: int| 0 <= j < i implies y[j] != 10 by {
            assert(y[j] == x[j]);
        }
        assert(y[i] == 10);
        lemma_byte_at(y, 10, i);
        assert(y.take(i) =~= x.take(i));
        assert(y.skip(i + 1) =~= x.skip(i + 1).push(13));
        lemma_lines_push_cr(x.skip(i + 1));
        assert(lines(y) =~= lines(x).drop_last().push(lines(x).last().push(13)));
    }
}

/// The headers of an answer that are not about its framing.
pub open spec fn unframing(hs: Seq<ByteHeader>) -> Seq<ByteHeader> {
    hs.filter(
        |h: ByteHeader|
            {
                let name = lowered(decode_utf8(h.0));
                name != "content-length"@ && name != "transfer-encoding"@ && name != "connection"@
            },
    )
}

/// The text of headers.
pub open spec fn as_text(hs: Seq<ByteHeader>) -> Seq<TextPair> {
    hs.map_values(|h: ByteHeader| (decode_utf8(h.0), decode_utf8(h.1)))
}

pub proof fn lemma_framing_names(name: Seq<char>)
    ensures
        is_framing(name) <==> lowered(name) == "content-length"@ || lowered(name)
            == "transfer-encoding"@ || lowered(name) == "connection"@,
{
    reveal_strlit("content-length");
    reveal_strlit("transfer-encoding");
    reveal_strlit("connection");
    case_does_not_count(name, "content-length"@);
    case_does_not_count(name, "transfer-encoding"@);
    case_does_not_count(name, "connection"@);
    assert(lowered("content-length"@) =~= "content-length"@);
    assert(lowered("transfer-encoding"@) =~= "transfer-encoding"@);
    assert(lowered("connection"@) =~= "connection"@);
}

proof fn lemma_name_is_text(name: Seq<u8>)
    requires
        valid_name(name),
    ensures
        valid_utf8(name),
{
    let chars = Seq::new(name.len(), |i: int| name[i] as char);
    assert forall|i: int| 0 <= i < chars.len() implies 0 <= (#[trigger] chars[i]) as u32 && (chars[i] as u32) < 128 by {
        assert(crate::worker_wire::is_token_byte(name[i]));
    }
    assert(vstd::utf8::is_ascii_chars(chars));
    vstd::utf8::is_ascii_chars_encode_utf8(chars);
    assert forall|i: int| 0 <= i < name.len() implies vstd::utf8::encode_utf8(chars)[i] == name[i] by {
        assert(chars[i] as u8 == vstd::utf8::encode_utf8(chars)[i]);
        assert(crate::worker_wire::is_token_byte(name[i]));
    }
    assert(vstd::utf8::encode_utf8(chars) =~= name);
    vstd::utf8::encode_utf8_valid_utf8(chars);
}

proof fn lemma_kept_relays(ls: Seq<Seq<u8>>, hs: Seq<ByteHeader>)
    requires
        ls.len() == hs.len(),
        forall|i: int| 0 <= i < hs.len() ==> can_be_sent(#[trigger] hs[i]),
        forall|i: int| 0 <= i < hs.len() ==> without_cr(#[trigger] ls[i]) == sent_line(hs[i]),
    ensures
        kept(ls) == Some(as_text(unframing(hs))),
    decreases hs.len(),
{
    let keep = |h: ByteHeader|
        {
            let name = lowered(decode_utf8(h.0));
            name != "content-length"@ && name != "transfer-encoding"@ && name != "connection"@
        };
    if hs.len() == 0 {
        assert(hs.filter(keep) =~= Seq::<ByteHeader>::empty()) by {
            reveal(Seq::filter);
        }
        assert(as_text(unframing(hs)) =~= Seq::<TextPair>::empty());
    } else {
        let h = hs.last();
        assert(h == hs[hs.len() - 1]);
        assert(ls.last() == ls[ls.len() - 1]);
        lemma_kept_relays(ls.drop_last(), hs.drop_last());
        header_lines_are_read_whole(h);
        let line = sent_line(h);
        assert(without_cr(line) == line) by {
            if h.1.len() > 0 {
                assert(line.last() == h.1.last());
                assert(!crate::worker_wire::is_control_byte(h.1[h.1.len() - 1]));
            }
        }
        assert(header_of(ls.last()) == Some(h));
        lemma_name_is_text(h.0);
        lemma_framing_names(decode_utf8(h.0));
        reveal(Seq::filter);
        let rest = unframing(hs.drop_last());
        if keep(h) {
            assert(unframing(hs) == rest.push(h));
            assert(as_text(rest.push(h)) =~= as_text(rest).push(
                (decode_utf8(h.0), decode_utf8(h.1)),
            ));
        } else {
            assert(unframing(hs) == rest);
        }
    }
}

/// The words of a status line: those before the code, the code, and what follows it.
pub open spec fn status_line(version: Seq<char>, code: nat, tail: Seq<char>) -> Seq<char> {
    version + seq![' '] + decimal(code) + tail
}

proof fn lemma_next_word(a: Seq<char>, b: Seq<char>)
    requires
        a.len() > 0,
        forall|i: int| 0 <= i < a.len() ==> !is_white(#[trigger] a[i]),
        b.len() > 0 ==> is_white(b[0]),
    ensures
        next_word(a + b) == Some((a, b)),
        next_word(seq![' '] + a + b) == Some((a, b)),
{
    let s = a + b;
    assert(s[0] == a[0]);
    lemma_trim_start(s, 0);
    assert(s.skip(0) =~= s);
    assert forall|j: int| 0 <= j < a.len() implies !is_white(#[trigger] s[j]) by {
        assert(s[j] == a[j]);
    }
    assert(b.len() > 0 ==> s[a.len() as int] == b[0]);
    lemma_word_len(s, a.len() as int);
    assert(s.take(a.len() as int) =~= a);
    assert(s.skip(a.len() as int) =~= b);
    let t = seq![' '] + a + b;
    assert(t.drop_first() =~= s);
    assert(trim_start(t) == trim_start(s));
}

/// The status of an answer is the number behind its version, whatever follows; it is one
/// between 100 and 599, and the version is HTTP/1.1.
pub proof fn the_status_is_the_number_behind_the_version(
    version: Seq<char>,
    code: nat,
    tail: Seq<char>,
)
    requires
        version.len() > 0,
        forall|i: int| 0 <= i < version.len() ==> !is_white(#[trigger] version[i]),
        tail.len() > 0 ==> is_white(tail[0]),
    ensures
        status_of(vstd::utf8::encode_utf8(status_line(version, code, tail))) == (if version
            == "HTTP/1.1"@ && 100 <= code <= 599 {
            Some(code as u16)
        } else {
            None
        }),
{
    let text = status_line(version, code, tail);
    let bytes = vstd::utf8::encode_utf8(text);
    vstd::utf8::encode_utf8_valid_utf8(text);
    vstd::utf8::encode_utf8_decode_utf8(text);
    let rest = seq![' '] + decimal(code) + tail;
    assert(text =~= version + rest);
    lemma_next_word(version, rest);
    numbers_are_read_back(code, u16::MAX as nat);
    assert forall|i: int| 0 <= i < decimal(code).len() implies !is_white(
        #[trigger] decimal(code)[i],
    ) by {}
    lemma_next_word(decimal(code), tail);
}

proof fn lemma_no_blank_line_inside(parts: Seq<Seq<u8>>, j: int)
    requires
        parts.len() > 0,
        are_lines(parts),
        0 <= j < crlf_joined(parts).len(),
        crlf_joined(parts)[j] == 13,
    ensures
        j + 2 < crlf_joined(parts).len(),
        crlf_joined(parts)[j + 2] != 13,
    decreases parts.len(),
{
    let last = parts.last();
    assert(last == parts[parts.len() - 1]);
    if parts.len() == 1 {
        assert(parts[0].contains(parts[0][j]));
    } else {
        let rest = parts.drop_last();
        assert forall|i: int| 0 <= i < rest.len() implies (#[trigger] rest[i]).len() > 0
            && !rest[i].contains(10) && !rest[i].contains(13) by {
            assert(rest[i] == parts[i]);
        }
        let x = crlf_joined(rest);
        let s = crlf_joined(parts);
        assert(s == x + seq![13u8, 10u8] + last);
        if j < x.len() {
            lemma_no_blank_line_inside(rest, j);
            assert(s[j] == x[j] && s[j + 2] == x[j + 2]);
        } else if j == x.len() {
            assert(s[j + 2] == last[0]);
            assert(last.contains(last[0]));
        } else if j == x.len() + 1 {
            assert(s[j] == 10);
        } else {
            assert(s[j] == last[j - x.len() - 2]);
            assert(last.contains(last[j - x.len() - 2]));
        }
    }
}

/// The head of an answer: its status line and its headers.
pub open spec fn sent_head(first_line: Seq<u8>, hs: Seq<ByteHeader>) -> Seq<u8> {
    crlf_joined(seq![first_line] + hs.map_values(|h: ByteHeader| sent_line(h)))
}

proof fn lemma_sent_head(first_line: Seq<u8>, hs: Seq<ByteHeader>)
    requires
        first_line.len() > 0,
        !first_line.contains(10),
        !first_line.contains(13),
        forall|i: int| 0 <= i < hs.len() ==> can_be_sent(#[trigger] hs[i]),
    ensures
        are_lines(seq![first_line] + hs.map_values(|h: ByteHeader| sent_line(h))),
        without_cr(lines(sent_head(first_line, hs))[0]) == first_line,
        kept(lines(sent_head(first_line, hs)).skip(1)) == Some(as_text(unframing(hs))),
{
    let parts = seq![first_line] + hs.map_values(|h: ByteHeader| sent_line(h));
    assert forall|i: int| 0 <= i < parts.len() implies (#[trigger] parts[i]).len() > 0
        && !parts[i].contains(10) && !parts[i].contains(13) by {
        if i > 0 {
            let h = hs[i - 1];
            let line = sent_line(h);
            assert(parts[i] == line);
            assert(can_be_sent(h));
            assert forall|j: int| 0 <= j < line.len() implies line[j] != 10 && line[j] != 13 by {
                if j < h.0.len() {
                    assert(line[j] == h.0[j]);
                    assert(crate::worker_wire::is_token_byte(h.0[j]));
                } else if j >= h.0.len() + 2 {
                    assert(line[j] == h.1[j - h.0.len() - 2]);
                    assert(!crate::worker_wire::is_control_byte(h.1[j - h.0.len() - 2]));
                }
            }
        }
    }
    lines_are_taken_apart(parts);
    let ls = lines(sent_head(first_line, hs));
    assert(without_cr(ls[0]) == parts[0]);
    assert forall|i: int| 0 <= i < hs.len() implies without_cr(#[trigger] ls.skip(1)[i])
        == sent_line(hs[i]) by {
        assert(ls.skip(1)[i] == ls[i + 1]);
        assert(without_cr(ls[i + 1]) == parts[i + 1]);
    }
    lemma_kept_relays(ls.skip(1), hs);
}

/// An answer is relayed as it was sent: with its status, with every header that does not
/// frame it, name and value unchanged and in order, with the length of its body, with word
/// that the connection closes where it does, and with the whole body.
pub proof fn answers_are_relayed_as_sent(
    code: nat,
    tail: Seq<char>,
    hs: Seq<ByteHeader>,
    body: Seq<u8>,
    keepalive_enabled: bool,
)
    requires
        100 <= code <= 599,
        tail.len() > 0 ==> is_white(tail[0]),
        ({
            let first_line = vstd::utf8::encode_utf8(status_line("HTTP/1.1"@, code, tail));
            let head = sent_head(first_line, hs);
            &&& !first_line.contains(10) && !first_line.contains(13)
            &&& head.len() <= MAX_RESPONSE_HEADER_BYTES
            &&& head.len() + 4 + body.len() <= MAX_RESPONSE_BYTES
        }),
        forall|i: int| 0 <= i < hs.len() ==> can_be_sent(#[trigger] hs[i]),
    ensures
        ({
            let first_line = vstd::utf8::encode_utf8(status_line("HTTP/1.1"@, code, tail));
            let head = sent_head(first_line, hs);
            let bytes = head + seq![13u8, 10u8, 13u8, 10u8] + body;
            let relayed = as_text(unframing(hs));
            let close = if keepalive_enabled {
                Seq::<TextPair>::empty()
            } else {
                seq![("Connection"@, "close"@)]
            };
            &&& blank_at(bytes, head.len() as int)
            &&& forall|j: int| 0 <= j < head.len() ==> !#[trigger] blank_at(bytes, j)
            &&& response_at(bytes, head.len() as int, keepalive_enabled) == Some(
                (
                    code as u16,
                    relayed + seq![("Content-Length"@, decimal(body.len()))] + close,
                    body,
                ),
            )
            &&& chunked_head(head, keepalive_enabled) == Some((code as u16, relayed + close))
        }),
{
    let version = "HTTP/1.1"@;
    reveal_strlit("HTTP/1.1");
    assert forall|i: int| 0 <= i < version.len() implies !is_white(#[trigger] version[i]) by {}
    let text = status_line(version, code, tail);
    let first_line = vstd::utf8::encode_utf8(text);
    the_status_is_the_number_behind_the_version(version, code, tail);
    assert(first_line.len() > 0) by {
        vstd::utf8::encode_utf8_decode_utf8(text);
        if first_line.len() == 0 {
            assert(first_line =~= Seq::<u8>::empty());
            vstd::utf8::encode_utf8_decode_utf8(Seq::<char>::empty());
            assert(vstd::utf8::encode_utf8(Seq::<char>::empty()) =~= Seq::<u8>::empty());
        }
    }
    lemma_sent_head(first_line, hs);
    let head = sent_head(first_line, hs);
    let parts = seq![first_line] + hs.map_values(|h: ByteHeader| sent_line(h));
    let bytes = head + seq![13u8, 10u8, 13u8, 10u8] + body;
    let e = head.len() as int;
    assert(bytes.take(e) =~= head);
    assert(bytes.skip(e + 4) =~= body);
    assert forall|j: int| 0 <= j < e implies !#[trigger] blank_at(bytes, j) by {
        if blank_at(bytes, j) {
            assert(bytes[j] == head[j]);
            lemma_no_blank_line_inside(parts, j);
            assert(bytes[j + 2] == head[j + 2]);
        }
    }
    let relayed = as_text(unframing(hs));
    assert(relayed.push(("Content-Length"@, decimal(body.len()))) =~= relayed + seq![
        ("Content-Length"@, decimal(body.len())),
    ]);
}

/// Whether an answer comes in chunks is said by its transfer encoding alone: without one it
/// does not, with one that is `chunked`, in whatever case, it does, and any other is refused.
pub proof fn chunks_are_announced_by_the_transfer_encoding(ls: Seq<Seq<u8>>, h: ByteHeader)
    requires
        can_be_sent(h),
    ensures
        chunked_by(Seq::<Seq<u8>>::empty()) == Some(false),
        chunked_by(ls) is Some && lowered(decode_utf8(h.0)) != "transfer-encoding"@ ==> chunked_by(
            ls.push(sent_line(h)),
        ) == chunked_by(ls),
        chunked_by(ls) is Some && lowered(decode_utf8(h.0)) == "transfer-encoding"@ && lowered(
            decode_utf8(h.1),
        ) == "chunked"@ ==> chunked_by(ls.push(sent_line(h))) == Some(true),
        lowered(decode_utf8(h.0)) == "transfer-encoding"@ && lowered(decode_utf8(h.1)) != "chunked"@
            ==> chunked_by(ls.push(sent_line(h))) is None,
        chunked_by(ls) is None ==> chunked_by(ls.push(sent_line(h))) is None,
{
    header_lines_are_read_whole(h);
    lemma_name_is_text(h.0);
    reveal_strlit("transfer-encoding");
    reveal_strlit("chunked");
    case_does_not_count(decode_utf8(h.0), "transfer-encoding"@);
    case_does_not_count(decode_utf8(h.1), "chunked"@);
    assert(lowered("transfer-encoding"@) =~= "transfer-encoding"@);
    assert(lowered("chunked"@) =~= "chunked"@);
    let all = ls.push(sent_line(h));
    assert(all.drop_last() =~= ls);
    assert(all.last() == sent_line(h));
}

/// Whether a header announces a transfer encoding.
pub open spec fn names_encoding(h: ByteHeader) -> bool {
    lowered(decode_utf8(h.0)) == "transfer-encoding"@
}

/// The lines of a head announce chunks if one of them is a transfer encoding and all that
/// are say `chunked`; without one they announce a whole body.
pub proof fn encodings_are_heard_wherever_they_stand(ls: Seq<Seq<u8>>, hs: Seq<ByteHeader>)
    requires
        ls.len() == hs.len(),
        forall|i: int| 0 <= i < hs.len() ==> can_be_sent(#[trigger] hs[i]),
        forall|i: int| 0 <= i < hs.len() ==> without_cr(#[trigger] ls[i]) == sent_line(hs[i]),
    ensures
        chunked_by(ls) == Some(false) <==> forall|i: int|
            0 <= i < hs.len() ==> !names_encoding(#[trigger] hs[i]),
        chunked_by(ls) is None <==> exists|i: int|
            0 <= i < hs.len() && names_encoding(#[trigger] hs[i]) && lowered(decode_utf8(hs[i].1))
                != "chunked"@,
    decreases hs.len(),
{
    if hs.len() > 0 {
        let n = hs.len() - 1;
        let h = hs[n];
        let rest = hs.drop_last();
        let before = ls.drop_last();
        assert(h == hs.last());
        assert(ls.last() == ls[n]);
        encodings_are_heard_wherever_they_stand(before, rest);
        chunks_are_announced_by_the_transfer_encoding(before, h);
        let line = sent_line(h);
        assert(without_cr(line) == line) by {
            if h.1.len() > 0 {
                assert(line.last() == h.1.last());
                assert(!crate::worker_wire::is_control_byte(h.1[h.1.len() - 1]));
            }
        }
        assert(header_of(ls.last()) == header_of(line));
        assert(before.push(line).drop_last() =~= before);
        assert(chunked_by(ls) == chunked_by(before.push(line)));
        if forall|i: int| 0 <= i < hs.len() ==> !names_encoding(#[trigger] hs[i]) {
            assert forall|i: int| 0 <= i < rest.len() implies !names_encoding(#[trigger] rest[i]) by {
                assert(rest[i] == hs[i]);
            }
        }
        if chunked_by(ls) == Some(false) {
            assert forall|i: int| 0 <= i < hs.len() implies !names_encoding(#[trigger] hs[i]) by {
                if i < n {
                    assert(rest[i] == hs[i]);
                }
            }
        }
        if chunked_by(before) is None {
            let i = choose|i: int|
                0 <= i < rest.len() && names_encoding(#[trigger] rest[i]) && lowered(
                    decode_utf8(rest[i].1),
                ) != "chunked"@;
            assert(hs[i] == rest[i]);
        }
        if exists|i: int|
            0 <= i < hs.len() && names_encoding(#[trigger] hs[i]) && lowered(decode_utf8(hs[i].1))
                != "chunked"@ {
            let i = choose|i: int|
                0 <= i < hs.len() && names_encoding(#[trigger] hs[i]) && lowered(
                    decode_utf8(hs[i].1),
                ) != "chunked"@;
            if i < n {
                assert(rest[i] == hs[i]);
            }
        }
    }
}

/// How the body of an answer comes is told by its head as it was sent.
pub proof fn heads_are_heard_as_sent(first_line: Seq<u8>, hs: Seq<ByteHeader>)
    requires
        first_line.len() > 0,
        !first_line.contains(10),
        !first_line.contains(13),
        forall|i: int| 0 <= i < hs.len() ==> can_be_sent(#[trigger] hs[i]),
    ensures
        chunked_by(lines(sent_head(first_line, hs)).skip(1)) == Some(false) <==> forall|i: int|
            0 <= i < hs.len() ==> !names_encoding(#[trigger] hs[i]),
        chunked_by(lines(sent_head(first_line, hs)).skip(1)) is None <==> exists|i: int|
            0 <= i < hs.len() && names_encoding(#[trigger] hs[i]) && lowered(decode_utf8(hs[i].1))
                != "chunked"@,
{
    let parts = seq![first_line] + hs.map_values(|h: ByteHeader| sent_line(h));
    lemma_sent_head(first_line, hs);
    lines_are_taken_apart(parts);
    let ls = lines(sent_head(first_line, hs));
    assert forall|i: int| 0 <= i < hs.len() implies without_cr(#[trigger] ls.skip(1)[i])
        == sent_line(hs[i]) by {
        assert(ls.skip(1)[i] == ls[i + 1]);
        assert(without_cr(ls[i + 1]) == parts[i + 1]);
    }
    encodings_are_heard_wherever_they_stand(ls.skip(1), hs);
}

} // verus!
