//! Text in the shape the edge needs it: sequences of characters with the few
//! string operations that requests, settings and reports are made of.
use vstd::prelude::*;

verus! {

/// The Unicode `White_Space` characters.
pub open spec fn is_white(c: char) -> bool {
    ||| 0x9 <= c as u32 <= 0xd
    ||| c as u32 == 0x20
    ||| c as u32 == 0x85
    ||| c as u32 == 0xa0
    ||| c as u32 == 0x1680
    ||| 0x2000 <= c as u32 <= 0x200a
    ||| c as u32 == 0x2028
    ||| c as u32 == 0x2029
    ||| c as u32 == 0x202f
    ||| c as u32 == 0x205f
    ||| c as u32 == 0x3000
}

/// `s` without its leading white space.
pub open spec fn trim_start(s: Seq<char>) -> Seq<char>
    decreases s.len(),
{
    if s.len() > 0 && is_white(s[0]) {
        trim_start(s.drop_first())
    } else {
        s
    }
}

/// `s` without its trailing white space.
pub open spec fn trim_end(s: Seq<char>) -> Seq<char>
    decreases s.len(),
{
    if s.len() > 0 && is_white(s.last()) {
        trim_end(s.drop_last())
    } else {
        s
    }
}

/// `s` without the white space around it.
pub open spec fn trimmed(s: Seq<char>) -> Seq<char> {
    trim_end(trim_start(s))
}

/// The code point of `c` with the ASCII capitals folded onto the small letters.
pub open spec fn fold(c: char) -> u32 {
    if 'A' <= c && c <= 'Z' {
        (c as u32 + 32) as u32
    } else {
        c as u32
    }
}

/// Equality up to ASCII case.
pub open spec fn same_fold(a: Seq<char>, b: Seq<char>) -> bool {
    a.len() == b.len() && forall|i: int| 0 <= i < a.len() ==> #[trigger] fold(a[i]) == fold(b[i])
}

/// `c` with an ASCII capital turned into its small letter.
pub open spec fn lower_char(c: char) -> char {
    if 'A' <= c && c <= 'Z' {
        (c as u32 + 32) as char
    } else {
        c
    }
}

/// `s` in ASCII lower case.
pub open spec fn lowered(s: Seq<char>) -> Seq<char> {
    s.map_values(|c: char| lower_char(c))
}

/// The index of the first `c` in `s`, or the length of `s` when there is none.
pub open spec fn first(s: Seq<char>, c: char) -> int
    decreases s.len(),
{
    if s.len() == 0 || s[0] == c {
        0
    } else {
        1 + first(s.drop_first(), c)
    }
}

/// The pieces of `s` between the separators `c`, in order; one piece, `s`
/// itself, when there is no separator.
pub open spec fn split_at_char(s: Seq<char>, c: char) -> Seq<Seq<char>>
    decreases s.len(),
    via split_decreases
{
    let i = first(s, c);
    if i >= s.len() {
        seq![s]
    } else {
        seq![s.take(i)] + split_at_char(s.skip(i + 1), c)
    }
}

#[via_fn]
proof fn split_decreases(s: Seq<char>, c: char) {
    lemma_first_range(s, c);
}

pub proof fn lemma_first_range(s: Seq<char>, c: char)
    ensures
        0 <= first(s, c) <= s.len(),
        forall|j: int| 0 <= j < first(s, c) ==> s[j] != c,
        first(s, c) < s.len() ==> s[first(s, c)] == c,
    decreases s.len(),
{
    if s.len() > 0 && s[0] != c {
        lemma_first_range(s.drop_first(), c);
        assert forall|j: int| 0 <= j < first(s, c) implies s[j] != c by {
            if j > 0 {
                assert(s.drop_first()[j - 1] == s[j]);
            }
        }
    }
}

pub proof fn lemma_first_at(s: Seq<char>, c: char, i: int)
    requires
        0 <= i <= s.len(),
        forall|j: int| 0 <= j < i ==> s[j] != c,
        i < s.len() ==> s[i] == c,
    ensures
        first(s, c) == i,
{
    lemma_first_range(s, c);
}

/// The decimal digit of a number below ten.
pub open spec fn digit(n: nat) -> char {
    if n == 0 { '0' } else if n == 1 { '1' } else if n == 2 { '2' } else if n == 3 { '3' }
    else if n == 4 { '4' } else if n == 5 { '5' } else if n == 6 { '6' } else if n == 7 { '7' }
    else if n == 8 { '8' } else { '9' }
}

/// `n` in decimal, without leading zeros.
pub open spec fn decimal(n: nat) -> Seq<char>
    decreases n,
{
    if n < 10 {
        seq![digit(n)]
    } else {
        decimal(n / 10).push(digit(n % 10))
    }
}

/// `true` or `false`.
pub open spec fn truth(b: bool) -> Seq<char> {
    if b { "true"@ } else { "false"@ }
}

/// The number that a row of decimal digits denotes.
pub open spec fn number(s: Seq<char>) -> nat
    decreases s.len(),
{
    if s.len() == 0 {
        0
    } else {
        number(s.drop_last()) * 10 + (s.last() as nat - '0' as nat) as nat
    }
}

pub open spec fn is_digits(s: Seq<char>) -> bool {
    s.len() > 0 && forall|i: int| 0 <= i < s.len() ==> '0' <= #[trigger] s[i] && s[i] <= '9'
}

/// `s` without one leading plus sign.
pub open spec fn unsigned(s: Seq<char>) -> Seq<char> {
    if s.len() > 0 && s[0] == '+' { s.drop_first() } else { s }
}

/// What `s` says as a whole number no larger than `max`: an optional plus sign
/// and at least one decimal digit, nothing else.
pub open spec fn whole(s: Seq<char>, max: nat) -> Option<nat> {
    let d = unsigned(s);
    if is_digits(d) && number(d) <= max {
        Some(number(d))
    } else {
        None
    }
}

/// Appends one character, as `String::push` is documented to do.
pub assume_specification[ String::push ](s: &mut String, c: char)
    ensures
        final(s)@ == old(s)@.push(c),
;

/// Quotes a string as its `Debug` form does.
pub uninterp spec fn quoted(s: Seq<char>) -> Seq<char>;

/// `format!("{:?}", s)`: the `Debug` form of a string, which puts quotes round it
/// and escapes some characters. It depends on the characters alone; which of them
/// are escaped, and how, is left unsaid.
#[verifier::external_body]
pub(crate) fn quote(s: &str) -> (r: String)
    ensures
        r@ == quoted(s@),
{
    format!("{:?}", s)
}

/// The words in which a failed `str::parse::<u64>` explains itself.
pub uninterp spec fn whole_fault(s: Seq<char>) -> Seq<char>;

/// The error that `str::parse::<u64>` gives for `s`, as text. It depends on the
/// characters of `s` alone; the wording is left unsaid.
#[verifier::external_body]
pub(crate) fn explain_whole_fault(s: &str) -> (r: String)
    requires
        whole(s@, u64::MAX as nat) is None,
    ensures
        r@ == whole_fault(s@),
{
    match s.parse::<u64>() {
        Ok(_) => String::new(),
        Err(err) => err.to_string(),
    }
}

/// The words in which a failed `str::parse::<u16>` explains itself.
pub uninterp spec fn port_fault(s: Seq<char>) -> Seq<char>;

/// The error that `str::parse::<u16>` gives for `s`, as text. It depends on the
/// characters of `s` alone; the wording is left unsaid.
#[verifier::external_body]
pub(crate) fn explain_port_fault(s: &str) -> (r: String)
    requires
        whole(s@, u16::MAX as nat) is None,
    ensures
        r@ == port_fault(s@),
{
    match s.parse::<u16>() {
        Ok(_) => String::new(),
        Err(err) => err.to_string(),
    }
}

/// `std::str::from_utf8`: succeeds exactly on valid UTF-8, and the string slice it
/// gives has the same bytes.
#[verifier::external_body]
pub(crate) fn utf8_text(bytes: &[u8]) -> (r: Option<&str>)
    ensures
        r is Some <==> vstd::utf8::valid_utf8(bytes@),
        r matches Some(s) ==> vstd::utf8::encode_utf8(s@) == bytes@,
{
    std::str::from_utf8(bytes).ok()
}

/// The characters of `s`.
pub fn chars_of(s: &str) -> (r: Vec<char>)
    ensures
        r@ == s@,
{
    let mut out: Vec<char> = Vec::new();
    for c in it: s.chars()
        invariant
            out@ == s@.take(it.index()),
            it.seq() == s@,
    {
        out.push(c);
    }
    out
}

/// A copy of `s`.
pub fn owned(s: &str) -> (r: String)
    ensures
        r@ == s@,
{
    s.to_owned()
}

/// Whether `c` is white space.
pub fn white(c: char) -> (r: bool)
    ensures
        r == is_white(c),
{
    let n: u32 = c as u32;
    (0x9 <= n && n <= 0xd) || n == 0x20 || n == 0x85 || n == 0xa0 || n == 0x1680 || (0x2000 <= n
        && n <= 0x200a) || n == 0x2028 || n == 0x2029 || n == 0x202f || n == 0x205f || n == 0x3000
}

proof fn lemma_trim_start_at(s: Seq<char>, a: int)
    requires
        0 <= a <= s.len(),
        forall|j: int| 0 <= j < a ==> is_white(s[j]),
        a < s.len() ==> !is_white(s[a]),
    ensures
        trim_start(s) == s.skip(a),
    decreases s.len(),
{
    if a > 0 {
        let t = s.drop_first();
        assert forall|j: int| 0 <= j < a - 1 implies is_white(t[j]) by {
            assert(t[j] == s[j + 1]);
        }
        lemma_trim_start_at(t, a - 1);
        assert(t.skip(a - 1) =~= s.skip(a));
    } else {
        assert(s.skip(0) =~= s);
    }
}

proof fn lemma_trim_end_at(s: Seq<char>, b: int)
    requires
        0 <= b <= s.len(),
        forall|j: int| b <= j < s.len() ==> is_white(s[j]),
        b > 0 ==> !is_white(s[b - 1]),
    ensures
        trim_end(s) == s.take(b),
    decreases s.len(),
{
    if b < s.len() {
        lemma_trim_end_at(s.drop_last(), b);
        assert(s.drop_last().take(b) =~= s.take(b));
    } else {
        assert(s.take(b) =~= s);
    }
}

/// `s` without the white space around it.
pub fn trim(s: &str) -> (r: &str)
    ensures
        r@ == trimmed(s@),
{
    let cs = chars_of(s);
    let n: usize = cs.len();
    let mut a: usize = 0;
    while a < n && white(cs[a])
        invariant
            a <= n,
            n == cs.len(),
            forall|j: int| 0 <= j < a ==> is_white(cs@[j]),
        decreases n - a,
    {
        a += 1;
    }
    let mut b: usize = n;
    while b > a && white(cs[b - 1])
        invariant
            a <= b <= n,
            n == cs.len(),
            forall|j: int| b <= j < n ==> is_white(cs@[j]),
        decreases b,
    {
        b -= 1;
    }
    proof {
        lemma_trim_start_at(s@, a as int);
        let t = s@.skip(a as int);
        assert forall|j: int| b - a <= j < t.len() implies is_white(t[j]) by {
            assert(t[j] == s@[j + a]);
        }
        lemma_trim_end_at(t, b - a);
        assert(t.take(b - a) =~= s@.subrange(a as int, b as int));
    }
    s.substring_char(a, b)
}

/// The code point of `c` with the ASCII capitals folded onto the small letters.
pub fn fold_char(c: char) -> (r: u32)
    ensures
        r == fold(c),
{
    if 'A' <= c && c <= 'Z' {
        c as u32 + 32
    } else {
        c as u32
    }
}

/// Whether two texts hold the same characters.
pub fn same(a: &str, b: &str) -> (r: bool)
    ensures
        r == (a@ == b@),
{
    let x = chars_of(a);
    let y = chars_of(b);
    if x.len() != y.len() {
        return false;
    }
    let mut i: usize = 0;
    while i < x.len()
        invariant
            i <= x.len(),
            x.len() == y.len(),
            x@ == a@,
            y@ == b@,
            forall|j: int| 0 <= j < i ==> #[trigger] x@[j] == y@[j],
        decreases x.len() - i,
    {
        if x[i] != y[i] {
            assert(a@[i as int] != b@[i as int]);
            return false;
        }
        i += 1;
    }
    assert(a@ =~= b@);
    true
}

/// Equality up to ASCII case.
pub fn eq_fold(a: &str, b: &str) -> (r: bool)
    ensures
        r == same_fold(a@, b@),
{
    let x = chars_of(a);
    let y = chars_of(b);
    if x.len() != y.len() {
        return false;
    }
    let mut i: usize = 0;
    while i < x.len()
        invariant
            i <= x.len(),
            x.len() == y.len(),
            x@ == a@,
            y@ == b@,
            forall|j: int| 0 <= j < i ==> #[trigger] fold(x@[j]) == fold(y@[j]),
        decreases x.len() - i,
    {
        if fold_char(x[i]) != fold_char(y[i]) {
            assert(fold(a@[i as int]) != fold(b@[i as int]));
            return false;
        }
        i += 1;
    }
    true
}

/// The ASCII lower case of `s`.
pub fn lower(s: &str) -> (r: String)
    ensures
        r@ == lowered(s@),
{
    let cs = chars_of(s);
    let mut out: String = String::new();
    let mut i: usize = 0;
    while i < cs.len()
        invariant
            i <= cs.len(),
            cs@ == s@,
            out@ == lowered(s@.take(i as int)),
        decreases cs.len() - i,
    {
        let c: char = cs[i];
        let l: char = if 'A' <= c && c <= 'Z' {
            ((c as u8) + 32) as char
        } else {
            c
        };
        out.push(l);
        assert(lowered(s@.take(i + 1)) =~= lowered(s@.take(i as int)).push(lower_char(c)));
        i += 1;
    }
    assert(s@.take(i as int) =~= s@);
    out
}

/// The index of the first `c` in `s`, or the number of characters of `s`.
pub fn find_char(s: &str, c: char) -> (r: usize)
    ensures
        r == first(s@, c),
        r <= s@.len(),
{
    let cs = chars_of(s);
    let mut i: usize = 0;
    while i < cs.len() && cs[i] != c
        invariant
            i <= cs.len(),
            cs@ == s@,
            forall|j: int| 0 <= j < i ==> cs@[j] != c,
        decreases cs.len() - i,
    {
        i += 1;
    }
    proof {
        lemma_first_at(s@, c, i as int);
    }
    i
}

/// The views of a list of strings.
pub open spec fn views(v: Seq<String>) -> Seq<Seq<char>> {
    v.map_values(|s: String| s@)
}

/// The pieces of `s` between the separators `c`.
pub fn split(s: &str, c: char) -> (r: Vec<String>)
    ensures
        views(r@) == split_at_char(s@, c),
{
    let cs = chars_of(s);
    let mut out: Vec<String> = Vec::new();
    let mut piece: String = String::new();
    let mut i: usize = 0;
    proof {
        assert(s@.skip(0) =~= s@);
        assert(piece@ + s@ =~= s@);
        assert(views(out@) + split_at_char(s@, c) =~= split_at_char(s@, c));
    }
    while i < cs.len()
        invariant
            i <= cs.len(),
            cs@ == s@,
            forall|j: int| 0 <= j < piece@.len() ==> piece@[j] != c,
            views(out@) + split_at_char(piece@ + s@.skip(i as int), c) == split_at_char(s@, c),
        decreases cs.len() - i,
    {
        let ghost rest = s@.skip(i as int);
        let ghost before = piece@;
        let ghost done = out@;
        if cs[i] == c {
            proof {
                lemma_first_at(before + rest, c, before.len() as int);
                assert((before + rest).take(before.len() as int) =~= before);
                assert((before + rest).skip(before.len() as int + 1) =~= s@.skip(i + 1));
                assert(split_at_char(before + rest, c) == seq![before] + split_at_char(
                    s@.skip(i + 1),
                    c,
                ));
            }
            out.push(piece);
            piece = String::new();
            proof {
                assert(views(out@) =~= views(done).push(before));
                assert(piece@ + s@.skip(i + 1) =~= s@.skip(i + 1));
                assert(views(out@) + split_at_char(s@.skip(i + 1), c) =~= views(done)
                    + split_at_char(before + rest, c));
            }
        } else {
            piece.push(cs[i]);
            assert(piece@ + s@.skip(i + 1) =~= before + rest);
        }
        i += 1;
    }
    let ghost before = piece@;
    let ghost done = out@;
    proof {
        assert(before + s@.skip(i as int) =~= before);
        lemma_first_at(before, c, before.len() as int);
        assert(split_at_char(before, c) == seq![before]);
    }
    out.push(piece);
    assert(views(out@) =~= views(done) + seq![before]);
    out
}

/// Appends `n` in decimal.
pub fn push_decimal(out: &mut String, n: u64)
    ensures
        final(out)@ == old(out)@ + decimal(n as nat),
    decreases n,
{
    if n >= 10 {
        push_decimal(out, n / 10);
    }
    let d: u64 = n % 10;
    let c: char = ((d as u8) + 48) as char;
    let ghost head = out@;
    out.push(c);
    proof {
        assert(c == digit((n % 10) as nat));
        if n >= 10 {
            assert(head.push(c) =~= old(out)@ + decimal((n / 10) as nat).push(c));
        } else {
            assert(head.push(c) =~= old(out)@ + seq![c]);
        }
    }
}

/// `n` in decimal.
pub fn decimal_text(n: u64) -> (r: String)
    ensures
        r@ == decimal(n as nat),
{
    let mut out: String = String::new();
    push_decimal(&mut out, n);
    assert(Seq::<char>::empty() + decimal(n as nat) =~= decimal(n as nat));
    out
}

/// `true` or `false`.
pub fn truth_text(b: bool) -> (r: String)
    ensures
        r@ == truth(b),
{
    if b {
        owned("true")
    } else {
        owned("false")
    }
}

proof fn lemma_number_grows(s: Seq<char>, i: int)
    requires
        0 <= i <= s.len(),
    ensures
        number(s.take(i)) <= number(s),
    decreases s.len() - i,
{
    if i < s.len() {
        lemma_number_grows(s, i + 1);
        assert(s.take(i + 1).drop_last() =~= s.take(i));
    } else {
        assert(s.take(i) =~= s);
    }
}

/// What `s` says as a whole number no larger than `max`.
pub fn parse_whole(s: &str, max: u64) -> (r: Option<u64>)
    ensures
        r is Some <==> whole(s@, max as nat) is Some,
        r matches Some(n) ==> whole(s@, max as nat) == Some(n as nat),
{
    let cs = chars_of(s);
    let begin: usize = if cs.len() > 0 && cs[0] == '+' {
        1
    } else {
        0
    };
    let ghost d = unsigned(s@);
    assert(d =~= s@.skip(begin as int));
    if begin == cs.len() {
        return None;
    }
    let mut i: usize = begin;
    let mut n: u64 = 0;
    assert(d.take(0) =~= Seq::<char>::empty());
    while i < cs.len()
        invariant
            begin <= i <= cs.len(),
            cs@ == s@,
            d == s@.skip(begin as int),
            d == unsigned(s@),
            n == number(d.take(i - begin)),
            n <= max,
            forall|j: int| 0 <= j < i - begin ==> '0' <= #[trigger] d[j] && d[j] <= '9',
        decreases cs.len() - i,
    {
        let c: char = cs[i];
        assert(c == d[i - begin]);
        if c < '0' || '9' < c {
            return None;
        }
        let v: u64 = (c as u64) - 48;
        proof {
            assert(d.take(i - begin + 1).drop_last() =~= d.take(i - begin));
            assert(number(d.take(i - begin + 1)) == n * 10 + v);
            lemma_number_grows(d, i - begin + 1);
        }
        if n > max / 10 {
            return None;
        }
        let tens: u64 = n * 10;
        if v > max - tens {
            return None;
        }
        n = tens + v;
        i += 1;
    }
    assert(d.take(i - begin) =~= d);
    Some(n)
}

/// The text of valid UTF-8, and nothing else.
pub fn text_of(bytes: &[u8]) -> (r: Option<&str>)
    ensures
        r is Some <==> vstd::utf8::valid_utf8(bytes@),
        r matches Some(s) ==> s@ == vstd::utf8::decode_utf8(bytes@),
{
    let r = utf8_text(bytes);
    proof {
        if let Some(s) = r {
            vstd::utf8::encode_utf8_decode_utf8(s@);
        }
    }
    r
}

/// The index of the last `c` in `s`, or -1 when there is none.
pub open spec fn last(s: Seq<char>, c: char) -> int
    decreases s.len(),
{
    if s.len() == 0 {
        -1
    } else if s.last() == c {
        s.len() - 1
    } else {
        last(s.drop_last(), c)
    }
}

pub proof fn lemma_last_at(s: Seq<char>, c: char, i: int)
    requires
        -1 <= i < s.len(),
        i >= 0 ==> s[i] == c,
        forall|j: int| i < j < s.len() ==> s[j] != c,
    ensures
        last(s, c) == i,
    decreases s.len(),
{
    if s.len() > 0 && i < s.len() - 1 {
        lemma_last_at(s.drop_last(), c, i);
    }
}

/// The position just past the last `c` in `s`, or zero when there is none.
pub fn after_last(s: &str, c: char) -> (r: usize)
    ensures
        r == last(s@, c) + 1,
        r <= s@.len(),
{
    let cs = chars_of(s);
    let mut i: usize = cs.len();
    while i > 0 && cs[i - 1] != c
        invariant
            i <= cs.len(),
            cs@ == s@,
            forall|j: int| i <= j < cs@.len() ==> cs@[j] != c,
        decreases i,
    {
        i -= 1;
    }
    proof {
        lemma_last_at(s@, c, i - 1);
    }
    i
}

/// Whether `s` begins with `c`.
pub fn starts_with(s: &str, c: char) -> (r: bool)
    ensures
        r == (s@.len() > 0 && s@[0] == c),
{
    s.unicode_len() > 0 && s.get_char(0) == c
}

/// Cutting at `c` undoes joining with it: the pieces of two texts with a `c` between them
/// are those of the one and then those of the other. A text without `c` is one piece, and
/// no piece holds a `c`.
pub proof fn pieces_of_joined_texts(a: Seq<char>, b: Seq<char>, c: char)
    ensures
        split_at_char(a + seq![c] + b, c) == split_at_char(a, c) + split_at_char(b, c),
        !a.contains(c) ==> split_at_char(a, c) == seq![a],
        forall|i: int| 0 <= i < split_at_char(a, c).len() ==> !(#[trigger] split_at_char(a, c)[i]).contains(c),
        split_at_char(a, c).len() > 0,
    decreases a.len(),
{
    let s = a + seq![c] + b;
    let i = first(a, c);
    lemma_first_range(a, c);
    lemma_first_range(s, c);
    if i >= a.len() {
        assert(s[a.len() as int] == c);
        assert forall|j: int| 0 <= j < a.len() implies s[j] != c by {
            assert(s[j] == a[j]);
        }
        lemma_first_at(s, c, a.len() as int);
        assert(s.take(a.len() as int) =~= a);
        assert(s.skip(a.len() as int + 1) =~= b);
        if a.contains(c) {
            let j = choose|j: int| 0 <= j < a.len() && a[j] == c;
            assert(a[j] != c);
        }
    } else {
        assert(s[i] == c);
        assert forall|j: int| 0 <= j < i implies s[j] != c by {
            assert(s[j] == a[j]);
        }
        lemma_first_at(s, c, i);
        assert(s.take(i) =~= a.take(i));
        assert(s.skip(i + 1) =~= a.skip(i + 1) + seq![c] + b);
        pieces_of_joined_texts(a.skip(i + 1), b, c);
        assert(a.contains(c));
        let rest = split_at_char(a.skip(i + 1), c);
        assert(split_at_char(s, c) =~= seq![a.take(i)] + (rest + split_at_char(b, c)));
        assert(split_at_char(a, c) + split_at_char(b, c) =~= split_at_char(s, c));
        assert forall|k: int| 0 <= k < split_at_char(a, c).len() implies !(
        #[trigger] split_at_char(a, c)[k]).contains(c) by {
            if k == 0 {
                if a.take(i).contains(c) {
                    let j = choose|j: int| 0 <= j < i && a.take(i)[j] == c;
                    assert(a[j] != c);
                }
            } else {
                assert(split_at_char(a, c)[k] == rest[k - 1]);
            }
        }
    }
}

/// Whether all of `s` is white space.
pub open spec fn all_white(s: Seq<char>) -> bool {
    forall|i: int| 0 <= i < s.len() ==> is_white(#[trigger] s[i])
}

/// Trimming takes away the white space around a text and nothing else.
pub proof fn trimming_takes_what_is_around(a: Seq<char>, t: Seq<char>, b: Seq<char>)
    requires
        all_white(a),
        all_white(b),
        t.len() > 0 ==> !is_white(t[0]) && !is_white(t.last()),
    ensures
        trimmed(a + t + b) == t,
{
    let s = a + t + b;
    if t.len() > 0 {
        assert forall|j: int| 0 <= j < a.len() implies is_white(s[j]) by {
            assert(s[j] == a[j]);
        }
        assert(s[a.len() as int] == t[0]);
        lemma_trim_start_at(s, a.len() as int);
        let r = s.skip(a.len() as int);
        assert(r =~= t + b);
        assert forall|j: int| t.len() <= j < r.len() implies is_white(r[j]) by {
            assert(r[j] == b[j - t.len()]);
        }
        assert(r[t.len() - 1] == t.last());
        lemma_trim_end_at(r, t.len() as int);
        assert(r.take(t.len() as int) =~= t);
    } else {
        assert forall|j: int| 0 <= j < s.len() implies is_white(s[j]) by {
            if j < a.len() {
                assert(s[j] == a[j]);
            } else {
                assert(s[j] == b[j - a.len()]);
            }
        }
        lemma_trim_start_at(s, s.len() as int);
        assert(s.skip(s.len() as int) =~= t);
        assert(trim_end(t) == t);
    }
}

/// In ASCII, white space is the blank and the controls from tab to carriage return.
pub proof fn white_space_in_ascii(c: char)
    requires
        (c as u32) < 128,
    ensures
        is_white(c) <==> c == ' ' || c == '\t' || c == '\n' || c == '\r' || c as u32 == 11 || c as u32
            == 12,
{
}

/// Texts are equal up to case exactly when they are equal in lower case, which holds no
/// capital and leaves everything else as it is.
pub proof fn case_does_not_count(a: Seq<char>, b: Seq<char>)
    ensures
        same_fold(a, b) <==> lowered(a) == lowered(b),
        lowered(a).len() == a.len(),
        lowered(lowered(a)) == lowered(a),
        forall|i: int|
            0 <= i < a.len() ==> {
                &&& !('A' <= #[trigger] lowered(a)[i] && lowered(a)[i] <= 'Z')
                &&& !('A' <= a[i] && a[i] <= 'Z') ==> lowered(a)[i] == a[i]
                &&& 'A' <= a[i] && a[i] <= 'Z' ==> lowered(a)[i] as u32 == a[i] as u32 + 32
            },
{
    assert forall|i: int| 0 <= i < a.len() implies fold(a[i]) == #[trigger] lowered(a)[i] as u32 by {}
    assert forall|i: int| 0 <= i < b.len() implies fold(b[i]) == #[trigger] lowered(b)[i] as u32 by {}
    if same_fold(a, b) {
        assert forall|i: int| 0 <= i < a.len() implies #[trigger] lowered(a)[i] == lowered(b)[i] by {
            assert(fold(a[i]) == fold(b[i]));
            assert(lowered(a)[i] as u32 == lowered(b)[i] as u32);
        }
        assert(lowered(a) =~= lowered(b));
    }
    if lowered(a) == lowered(b) {
        assert(lowered(a).len() == a.len() && lowered(b).len() == b.len());
        assert forall|i: int| 0 <= i < a.len() implies #[trigger] fold(a[i]) == fold(b[i]) by {
            assert(lowered(a)[i] == lowered(b)[i]);
        }
    }
    assert(lowered(lowered(a)) =~= lowered(a));
}

/// A number that is written is read back, with a plus sign before it or without, unless it
/// is too large; and it is written in digits, the first of which is zero only for zero.
pub proof fn numbers_are_read_back(n: nat, max: nat)
    ensures
        n <= max ==> whole(decimal(n), max) == Some(n) && whole(seq!['+'] + decimal(n), max)
            == Some(n),
        n > max ==> whole(decimal(n), max) is None && whole(seq!['+'] + decimal(n), max) is None,
        is_digits(decimal(n)),
        n > 0 ==> decimal(n)[0] != '0',
{
    lemma_decimal(n);
    assert((seq!['+'] + decimal(n)).drop_first() =~= decimal(n));
    assert(decimal(n)[0] != '+');
}

proof fn lemma_decimal(n: nat)
    ensures
        number(decimal(n)) == n,
        is_digits(decimal(n)),
        n > 0 ==> decimal(n)[0] != '0',
    decreases n,
{
    if n < 10 {
        assert(decimal(n).drop_last() =~= Seq::<char>::empty());
        assert(number(Seq::<char>::empty()) == 0);
        assert(digit(n) as nat - '0' as nat == n);
    } else {
        lemma_decimal(n / 10);
        assert(decimal(n).drop_last() =~= decimal(n / 10));
        assert(digit(n % 10) as nat - '0' as nat == n % 10);
        assert(decimal(n)[0] == decimal(n / 10)[0]);
    }
}

/// Only a row of digits, with one plus sign before it at most, is read as a number, and
/// zeros before it do not count.
pub proof fn only_digits_are_read(s: Seq<char>, max: nat, i: int)
    requires
        whole(s, max) is Some,
        0 <= i < s.len(),
    ensures
        whole(s, max)->0 <= max,
        ('0' <= s[i] && s[i] <= '9') || (i == 0 && s[i] == '+' && s.len() > 1),
        s[0] != '+' ==> whole(seq!['0'] + s, max) == whole(s, max),
{
    if s[0] == '+' {
        if i > 0 {
            assert(s.drop_first()[i - 1] == s[i]);
        }
    } else {
        assert('0' <= s[0]);
        let z = seq!['0'] + s;
        lemma_zero_before(s);
        assert forall|j: int| 0 <= j < z.len() implies '0' <= #[trigger] z[j] && z[j] <= '9' by {
            if j > 0 {
                assert(z[j] == s[j - 1]);
            }
        }
    }
}

proof fn lemma_zero_before(s: Seq<char>)
    ensures
        number(seq!['0'] + s) == number(s),
    decreases s.len(),
{
    let z = seq!['0'] + s;
    if s.len() == 0 {
        assert(z.drop_last() =~= s);
    } else {
        assert(z.drop_last() =~= seq!['0'] + s.drop_last());
        lemma_zero_before(s.drop_last());
    }
}

/// The number of bytes of `s` in UTF-8.
pub open spec fn byte_len(s: Seq<char>) -> nat {
    vstd::utf8::encode_utf8(s).len()
}

/// The view of an optional string.
pub open spec fn opt_view(o: Option<String>) -> Option<Seq<char>> {
    match o {
        Some(s) => Some(s@),
        None => None,
    }
}

/// The view of an optional string slice.
pub open spec fn opt_str(o: Option<&str>) -> Option<Seq<char>> {
    match o {
        Some(s) => Some(s@),
        None => None,
    }
}

/// Borrows an optional string.
pub fn as_deref(o: &Option<String>) -> (r: Option<&str>)
    ensures
        opt_str(r) == opt_view(*o),
{
    match o {
        Some(s) => Some(s.as_str()),
        None => None,
    }
}

} // verus!
