//! The JSON that the admin endpoint speaks: flat objects, written field by field.
use vstd::prelude::*;

use crate::text::{
    chars_of, decimal, decimal_text, numbers_are_read_back, owned, truth, truth_text, whole,
};

verus! {

/// A field: its name, and its value as it is written.
pub type Field = (Seq<char>, Seq<char>);

/// The fields of an object, with commas between them.
pub open spec fn fields_text(fields: Seq<Field>) -> Seq<char>
    decreases fields.len(),
{
    if fields.len() == 0 {
        Seq::empty()
    } else {
        fields_text(fields.drop_last()) + (if fields.len() == 1 { ""@ } else { ","@ }) + "\""@
            + fields.last().0 + "\":"@ + fields.last().1
    }
}

/// A text value.
pub open spec fn text_value(s: Seq<char>) -> Seq<char> {
    "\""@ + s + "\""@
}

/// A number, or `null` when there is none.
pub open spec fn number_or_null(n: Option<u64>) -> Seq<char> {
    match n {
        Some(n) => decimal(n as nat),
        None => "null"@,
    }
}

/// The fields of an object while it is written.
pub struct Fields {
    list: Vec<(&'static str, String)>,
}

impl Fields {
    pub closed spec fn view(&self) -> Seq<Field> {
        self.list@.map_values(|f: (&'static str, String)| (f.0@, f.1@))
    }

    pub fn new() -> (f: Fields)
        ensures
            f@ == Seq::<Field>::empty(),
    {
        let f = Fields { list: Vec::new() };
        assert(f@ =~= Seq::<Field>::empty());
        f
    }

    /// Adds a value that is written already.
    pub fn raw(&mut self, key: &'static str, value: String)
        ensures
            final(self)@ == old(self)@.push((key@, value@)),
    {
        self.list.push((key, value));
        assert(self@ =~= old(self)@.push((key@, value@)));
    }

    pub fn number(&mut self, key: &'static str, n: u64)
        ensures
            final(self)@ == old(self)@.push((key@, decimal(n as nat))),
    {
        self.raw(key, decimal_text(n));
    }

    pub fn truth(&mut self, key: &'static str, b: bool)
        ensures
            final(self)@ == old(self)@.push((key@, truth(b))),
    {
        self.raw(key, truth_text(b));
    }

    /// Adds a text value; `s` is written as it is.
    pub fn text(&mut self, key: &'static str, s: &str)
        ensures
            final(self)@ == old(self)@.push((key@, text_value(s@))),
    {
        let mut v: String = owned("\"");
        v.append(s);
        v.append("\"");
        self.raw(key, v);
    }

    pub fn optional(&mut self, key: &'static str, n: Option<u64>)
        ensures
            final(self)@ == old(self)@.push((key@, number_or_null(n))),
    {
        self.raw(key, option_u64_json(n));
    }

    /// Adds the fields of another object behind these.
    pub fn extend(&mut self, other: Fields)
        ensures
            final(self)@ == old(self)@ + other@,
    {
        let ghost a = self@;
        let ghost b = other@;
        let mut rest = other.list;
        self.list.append(&mut rest);
        assert(self@ =~= a + b);
    }

    /// Appends the fields to `out`.
    pub fn write(&self, out: &mut String)
        ensures
            final(out)@ == old(out)@ + fields_text(self@),
    {
        let ghost head = out@;
        let ghost all = self@;
        let mut i: usize = 0;
        assert(all.take(0) =~= Seq::<Field>::empty());
        assert(head + fields_text(all.take(0)) =~= head);
        while i < self.list.len()
            invariant
                i <= self.list@.len(),
                all == self@,
                all.len() == self.list@.len(),
                out@ == head + fields_text(all.take(i as int)),
            decreases self.list@.len() - i,
        {
            if i > 0 {
                out.append(",");
            } else {
                out.append("");
            }
            out.append("\"");
            out.append(self.list[i].0);
            out.append("\":");
            out.append(self.list[i].1.as_str());
            proof {
                let t = all.take(i + 1);
                assert(t.drop_last() =~= all.take(i as int));
                assert(t.last() == (self.list@[i as int].0@, self.list@[i as int].1@));
                assert(out@ =~= head + fields_text(t));
            }
            i += 1;
        }
        assert(all.take(i as int) =~= all);
    }
}

/// A number, or `null` when there is none.
pub fn option_u64_json(value: Option<u64>) -> (r: String)
    ensures
        r@ == number_or_null(value),
{
    match value {
        Some(n) => decimal_text(n),
        None => owned("null"),
    }
}

/// A status, or `null` for the status 0 that stands for none.
pub open spec fn status_value(status: u64) -> Seq<char> {
    if status == 0 { "null"@ } else { decimal(status as nat) }
}

pub fn status_json(status: u64) -> (r: String)
    ensures
        r@ == status_value(status),
{
    if status == 0 {
        owned("null")
    } else {
        decimal_text(status)
    }
}

/// The hexadecimal digit of a number below sixteen.
pub open spec fn hex_char(n: u32) -> char {
    if n < 10 { (48 + n) as char } else { (87 + n) as char }
}

/// The control characters.
pub open spec fn is_control(c: char) -> bool {
    (c as u32) < 0x20 || 0x7f <= (c as u32) <= 0x9f
}

/// How one character is written inside a JSON string.
pub open spec fn escaped_char(c: char) -> Seq<char> {
    if c == '"' {
        seq!['\\', '"']
    } else if c == '\\' {
        seq!['\\', '\\']
    } else if c == '\n' {
        seq!['\\', 'n']
    } else if c == '\r' {
        seq!['\\', 'r']
    } else if c == '\t' {
        seq!['\\', 't']
    } else if is_control(c) {
        seq!['\\', 'u', '0', '0', hex_char((c as u32 / 16) as u32), hex_char((c as u32 % 16) as u32)]
    } else {
        seq![c]
    }
}

/// How text is written inside a JSON string.
pub open spec fn escaped(s: Seq<char>) -> Seq<char>
    decreases s.len(),
{
    if s.len() == 0 {
        Seq::empty()
    } else {
        escaped(s.drop_last()) + escaped_char(s.last())
    }
}

fn hex_digit_char(n: u32) -> (c: char)
    requires
        n < 16,
    ensures
        c == hex_char(n),
{
    if n < 10 {
        (48 + n as u8) as char
    } else {
        (87 + n as u8) as char
    }
}

/// Writes text for a JSON string.
pub fn json_escape(value: &str) -> (r: String)
    ensures
        r@ == escaped(value@),
{
    let cs = chars_of(value);
    let mut out: String = String::new();
    let mut i: usize = 0;
    assert(value@.take(0) =~= Seq::<char>::empty());
    while i < cs.len()
        invariant
            i <= cs@.len(),
            cs@ == value@,
            out@ == escaped(value@.take(i as int)),
        decreases cs@.len() - i,
    {
        let c: char = cs[i];
        let n: u32 = c as u32;
        let ghost was = out@;
        if c == '"' {
            out.push('\\');
            out.push('"');
        } else if c == '\\' {
            out.push('\\');
            out.push('\\');
        } else if c == '\n' {
            out.push('\\');
            out.push('n');
        } else if c == '\r' {
            out.push('\\');
            out.push('r');
        } else if c == '\t' {
            out.push('\\');
            out.push('t');
        } else if n < 0x20 || (0x7f <= n && n <= 0x9f) {
            out.push('\\');
            out.push('u');
            out.push('0');
            out.push('0');
            out.push(hex_digit_char(n / 16));
            out.push(hex_digit_char(n % 16));
        } else {
            out.push(c);
        }
        proof {
            let t = value@.take(i + 1);
            assert(t.drop_last() =~= value@.take(i as int));
            assert(t.last() == c);
            assert(out@ =~= was + escaped_char(c));
        }
        i += 1;
    }
    assert(value@.take(i as int) =~= value@);
    out
}

/// Escaped text holds no control character, and every quote in it follows a backslash,
/// so that it cannot end the string it stands in.
pub proof fn escaped_text_stays_inside(s: Seq<char>, i: int)
    requires
        0 <= i < escaped(s).len(),
    ensures
        !is_control(escaped(s)[i]),
        escaped(s)[i] == '"' ==> i > 0 && escaped(s)[i - 1] == '\\',
    decreases s.len(),
{
    if s.len() > 0 {
        let head = escaped(s.drop_last());
        let tail = escaped_char(s.last());
        if i < head.len() {
            escaped_text_stays_inside(s.drop_last(), i);
        } else {
            assert(escaped(s)[i] == tail[i - head.len()]);
            if is_control(s.last()) {
                assert((s.last() as u32 / 16) as u32 <= 9);
            }
            if tail[i - head.len()] == '"' && i > head.len() {
                assert(escaped(s)[i - 1] == tail[i - head.len() - 1]);
            }
        }
    }
}

/// The fields of an object are written one after the other with a comma between: those of
/// two lists in a row are those of the first and those of the second.
pub proof fn fields_are_written_in_a_row(a: Seq<Field>, b: Seq<Field>)
    ensures
        a.len() > 0 && b.len() > 0 ==> fields_text(a + b) == fields_text(a) + ","@ + fields_text(b),
        a.len() == 1 ==> fields_text(a) == "\""@ + a[0].0 + "\":"@ + a[0].1,
        a.len() == 0 ==> fields_text(a).len() == 0,
    decreases b.len(),
{
    reveal_strlit("");
    if a.len() == 1 {
        assert(a.drop_last() =~= Seq::<Field>::empty());
        assert(fields_text(a.drop_last()) =~= Seq::<char>::empty());
        assert(fields_text(a) =~= "\""@ + a[0].0 + "\":"@ + a[0].1);
    }
    if a.len() > 0 && b.len() > 0 {
        assert((a + b).drop_last() =~= a + b.drop_last());
        assert((a + b).last() == b.last());
        if b.len() == 1 {
            assert(a + b.drop_last() =~= a);
            assert(fields_text(b.drop_last()) =~= Seq::<char>::empty()) by {
                assert(b.drop_last() =~= Seq::<Field>::empty());
            }
            assert(fields_text(a + b) =~= fields_text(a) + ","@ + fields_text(b));
        } else {
            fields_are_written_in_a_row(a, b.drop_last());
            assert(fields_text(a + b) =~= fields_text(a) + ","@ + fields_text(b));
        }
    }
}

/// The value of a hexadecimal digit.
pub open spec fn hex_of(c: char) -> u32 {
    if '0' <= c && c <= '9' {
        (c as u32 - 48) as u32
    } else {
        (c as u32 - 87) as u32
    }
}

/// The text that a JSON string stands for.
pub open spec fn unescaped(t: Seq<char>) -> Seq<char>
    decreases t.len(),
{
    if t.len() == 0 {
        Seq::empty()
    } else if t[0] != '\\' || t.len() < 2 {
        seq![t[0]] + unescaped(t.skip(1))
    } else if t[1] == 'n' {
        seq!['\n'] + unescaped(t.skip(2))
    } else if t[1] == 'r' {
        seq!['\r'] + unescaped(t.skip(2))
    } else if t[1] == 't' {
        seq!['\t'] + unescaped(t.skip(2))
    } else if t[1] == 'u' && t.len() >= 6 {
        seq![(hex_of(t[4]) * 16 + hex_of(t[5])) as char] + unescaped(t.skip(6))
    } else {
        seq![t[1]] + unescaped(t.skip(2))
    }
}

proof fn lemma_escaped_join(a: Seq<char>, b: Seq<char>)
    ensures
        escaped(a + b) == escaped(a) + escaped(b),
    decreases b.len(),
{
    if b.len() == 0 {
        assert(a + b =~= a);
        assert(escaped(a) + escaped(b) =~= escaped(a));
    } else {
        assert((a + b).drop_last() =~= a + b.drop_last());
        lemma_escaped_join(a, b.drop_last());
        assert(escaped(a + b) =~= escaped(a) + escaped(b));
    }
}

proof fn lemma_char_and_back(c: char)
    ensures
        (c as u32) as char == c,
{
}

/// Nothing is lost when text is escaped: read back, it is what it was.
pub proof fn escaped_text_is_read_back(s: Seq<char>)
    ensures
        unescaped(escaped(s)) == s,
    decreases s.len(),
{
    if s.len() > 0 {
        let c = s[0];
        let rest = s.skip(1);
        let one = seq![c];
        assert(s =~= one + rest);
        lemma_escaped_join(one, rest);
        assert(one.drop_last() =~= Seq::<char>::empty());
        assert(escaped(one) =~= escaped_char(c)) by {
            assert(escaped(one.drop_last()) =~= Seq::<char>::empty());
        }
        escaped_text_is_read_back(rest);
        let e = escaped_char(c);
        let t = e + escaped(rest);
        assert(escaped(s) == t);
        assert(t.skip(e.len() as int) =~= escaped(rest));
        assert(t[0] == e[0]);
        if is_control(c) {
            let n = c as u32;
            assert((n / 16) as u32 <= 9 && (n % 16) as u32 <= 15);
            assert(hex_of(hex_char((n / 16) as u32)) == n / 16);
            assert(hex_of(hex_char((n % 16) as u32)) == n % 16);
        }
        if e.len() > 1 {
            assert(t[1] == e[1]);
        }
        if e.len() == 6 {
            assert(t[4] == e[4] && t[5] == e[5]);
        }
        let known = c == '"' || c == '\\' || c == '\n' || c == '\r' || c == '\t';
        if !known && is_control(c) {
            assert(e.len() == 6 && e[0] == '\\' && e[1] == 'u');
            assert(hex_of(t[4]) * 16 + hex_of(t[5]) == c as u32);
            lemma_char_and_back(c);
            assert(unescaped(t) =~= seq![c] + unescaped(escaped(rest)));
        } else if known {
            assert(e.len() == 2);
            assert(unescaped(t) =~= seq![c] + unescaped(escaped(rest)));
        } else {
            assert(e.len() == 1);
            assert(unescaped(t) =~= seq![c] + unescaped(escaped(rest)));
        }
    } else {
        assert(unescaped(escaped(s)) =~= s);
    }
}

/// A number is written in digits and read back, none is `null`, and so is a status of
/// zero.
pub proof fn numbers_are_written_plainly(n: u64)
    ensures
        whole(number_or_null(Some(n)), u64::MAX as nat) == Some(n as nat),
        number_or_null(None) == "null"@,
        n > 0 ==> whole(status_value(n), u64::MAX as nat) == Some(n as nat),
        status_value(0) == "null"@,
        truth(true) == "true"@ && truth(false) == "false"@,
{
    numbers_are_read_back(n as nat, u64::MAX as nat);
}

} // verus!
