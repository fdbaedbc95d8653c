//! The environment the edge was started in, and how settings are read from it.
use vstd::prelude::*;
use vstd::utf8::encode_utf8;

use crate::error::{agrees, blame, blames, faulted, EdgeError, Fault};
use crate::os_path::{opt_path, OsPath};
use crate::text::{
    all_white, case_does_not_count, decimal, explain_whole_fault, is_white, lowered,
    numbers_are_read_back, only_digits_are_read, opt_view, owned, parse_whole, quote, quoted, same,
    trim, trimmed, trimming_takes_what_is_around, whole, whole_fault,
};

verus! {

/// One variable. A value that is not Unicode comes with its bytes and the words that
/// explain the fault.
#[derive(Debug, PartialEq, Eq)]
pub enum EnvVar {
    Unset,
    Text { value: String },
    Raw { bytes: Vec<u8>, fault: String },
}

/// What a variable holds.
pub ghost enum Var {
    Unset,
    Text { value: Seq<char> },
    Raw { bytes: Seq<u8>, fault: Seq<char> },
}

impl View for EnvVar {
    type V = Var;

    open spec fn view(&self) -> Var {
        match self {
            EnvVar::Unset => Var::Unset,
            EnvVar::Text { value } => Var::Text { value: value@ },
            EnvVar::Raw { bytes, fault } => Var::Raw { bytes: bytes@, fault: fault@ },
        }
    }
}

impl EnvVar {
    pub fn copy(&self) -> (r: EnvVar)
        ensures
            r@ == self@,
    {
        match self {
            EnvVar::Unset => EnvVar::Unset,
            EnvVar::Text { value } => EnvVar::Text { value: owned(value.as_str()) },
            EnvVar::Raw { bytes, fault } => {
                let mut b: Vec<u8> = Vec::new();
                b.extend_from_slice(bytes.as_slice());
                assert(b@ =~= bytes@);
                EnvVar::Raw { bytes: b, fault: owned(fault.as_str()) }
            },
        }
    }
}

/// The variables of a process.
#[derive(Debug, PartialEq, Eq)]
pub struct Environment {
    pub vars: Vec<(String, EnvVar)>,
}

/// What the first entry called `name` holds.
pub open spec fn lookup(vars: Seq<(String, EnvVar)>, name: Seq<char>) -> Var
    decreases vars.len(),
{
    if vars.len() == 0 {
        Var::Unset
    } else if vars[0].0@ == name {
        vars[0].1@
    } else {
        lookup(vars.drop_first(), name)
    }
}

impl Environment {
    pub open spec fn var(&self, name: Seq<char>) -> Var {
        lookup(self.vars@, name)
    }

    /// The variable called `name`.
    pub fn get(&self, name: &str) -> (r: EnvVar)
        ensures
            r@ == self.var(name@),
    {
        let mut i: usize = 0;
        assert(self.vars@.skip(0) =~= self.vars@);
        while i < self.vars.len()
            invariant
                i <= self.vars@.len(),
                self.var(name@) == lookup(self.vars@.skip(i as int), name@),
            decreases self.vars@.len() - i,
        {
            if same(self.vars[i].0.as_str(), name) {
                return self.vars[i].1.copy();
            }
            assert(self.vars@.skip(i as int).drop_first() =~= self.vars@.skip(i + 1));
            i += 1;
        }
        EnvVar::Unset
    }
}

/// `agrees` for an optional text.
pub open spec fn agrees_text(
    r: Result<Option<String>, EdgeError>,
    s: Result<Option<Seq<char>>, Fault>,
) -> bool {
    match (r, s) {
        (Ok(a), Ok(b)) => opt_view(a) == b,
        (Err(e), Err(f)) => e@ == f,
        _ => false,
    }
}

/// Reads a variable that has to be there.
pub open spec fn needed(v: Var, name: Seq<char>) -> Result<Seq<char>, Fault> {
    match v {
        Var::Text { value } => Ok(value),
        Var::Unset => faulted(name, "environment variable not found"@),
        Var::Raw { bytes, fault } => faulted(name, fault),
    }
}

pub fn read_env(env: &Environment, name: &'static str) -> (r: Result<String, EdgeError>)
    ensures
        match (r, needed(env.var(name@), name@)) {
            (Ok(a), Ok(b)) => a@ == b,
            (Err(e), Err(f)) => e@ == f,
            _ => false,
        },
{
    match env.get(name) {
        EnvVar::Text { value } => Ok(value),
        EnvVar::Unset => Err(blame(name, "environment variable not found")),
        EnvVar::Raw { bytes: _, fault } => Err(EdgeError::ConfigEnv { name, message: fault }),
    }
}

/// Reads a text; one that is blank counts as not there.
pub open spec fn optional_text(v: Var, name: Seq<char>) -> Result<Option<Seq<char>>, Fault> {
    match v {
        Var::Text { value } => Ok(
            if trimmed(value).len() == 0 {
                None
            } else {
                Some(value)
            },
        ),
        Var::Unset => Ok(None),
        Var::Raw { bytes, fault } => faulted(name, fault),
    }
}

/// Whether a text is blank.
pub fn is_blank(s: &str) -> (r: bool)
    ensures
        r == (trimmed(s@).len() == 0),
{
    let t = trim(s);
    let n: usize = t.unicode_len();
    n == 0
}

pub fn optional_string_env(env: &Environment, name: &'static str) -> (r: Result<
    Option<String>,
    EdgeError,
>)
    ensures
        agrees_text(r, optional_text(env.var(name@), name@)),
{
    match env.get(name) {
        EnvVar::Text { value } => if is_blank(value.as_str()) {
            Ok(None)
        } else {
            Ok(Some(value))
        },
        EnvVar::Unset => Ok(None),
        EnvVar::Raw { bytes: _, fault } => Err(EdgeError::ConfigEnv { name, message: fault }),
    }
}

/// Reads a whole number; a blank text counts as not there.
pub open spec fn optional_number(v: Var, name: Seq<char>) -> Result<Option<u64>, Fault> {
    match optional_text(v, name) {
        Err(f) => Err(f),
        Ok(None) => Ok(None),
        Ok(Some(raw)) => match whole(raw, u64::MAX as nat) {
            Some(n) => Ok(Some(n as u64)),
            None => faulted(
                name,
                "expected integer, got "@ + quoted(raw) + ": "@ + whole_fault(raw),
            ),
        },
    }
}

pub fn optional_u64_env(env: &Environment, name: &'static str) -> (r: Result<
    Option<u64>,
    EdgeError,
>)
    ensures
        agrees(r, optional_number(env.var(name@), name@)),
{
    match optional_string_env(env, name) {
        Err(e) => Err(e),
        Ok(None) => Ok(None),
        Ok(Some(raw)) => match parse_whole(raw.as_str(), u64::MAX) {
            Some(n) => Ok(Some(n)),
            None => {
                let mut message: String = owned("expected integer, got ");
                message.append(quote(raw.as_str()).as_str());
                message.append(": ");
                message.append(explain_whole_fault(raw.as_str()).as_str());
                Err(EdgeError::ConfigEnv { name, message })
            },
        },
    }
}

/// The truth value that a text spells, if it spells one.
pub open spec fn spelled(raw: Seq<char>) -> Option<bool> {
    if raw == "1"@ || raw == "true"@ || raw == "TRUE"@ || raw == "yes"@ || raw == "YES"@ {
        Some(true)
    } else if raw == "0"@ || raw == "false"@ || raw == "FALSE"@ || raw == "no"@ || raw == "NO"@ {
        Some(false)
    } else {
        None
    }
}

fn spell(raw: &str) -> (r: Option<bool>)
    ensures
        r == spelled(raw@),
{
    if same(raw, "1") || same(raw, "true") || same(raw, "TRUE") || same(raw, "yes") || same(
        raw,
        "YES",
    ) {
        Some(true)
    } else if same(raw, "0") || same(raw, "false") || same(raw, "FALSE") || same(raw, "no") || same(
        raw,
        "NO",
    ) {
        Some(false)
    } else {
        None
    }
}

/// Reads a truth value from a text.
pub open spec fn truth_of(raw: Seq<char>, name: Seq<char>) -> Result<bool, Fault> {
    match spelled(raw) {
        Some(b) => Ok(b),
        None => faulted(name, "expected boolean, got "@ + quoted(raw)),
    }
}

fn read_truth(raw: &str, name: &'static str) -> (r: Result<bool, EdgeError>)
    ensures
        agrees(r, truth_of(raw@, name@)),
{
    match spell(raw) {
        Some(b) => Ok(b),
        None => {
            let mut message: String = owned("expected boolean, got ");
            message.append(quote(raw).as_str());
            Err(EdgeError::ConfigEnv { name, message })
        },
    }
}

/// Reads a truth value; a blank text counts as not there.
pub open spec fn optional_truth(v: Var, name: Seq<char>) -> Result<Option<bool>, Fault> {
    match optional_text(v, name) {
        Err(f) => Err(f),
        Ok(None) => Ok(None),
        Ok(Some(raw)) => match truth_of(raw, name) {
            Ok(b) => Ok(Some(b)),
            Err(f) => Err(f),
        },
    }
}

pub fn optional_bool_env(env: &Environment, name: &'static str) -> (r: Result<
    Option<bool>,
    EdgeError,
>)
    ensures
        agrees(r, optional_truth(env.var(name@), name@)),
{
    match optional_string_env(env, name) {
        Err(e) => Err(e),
        Ok(None) => Ok(None),
        Ok(Some(raw)) => match read_truth(raw.as_str(), name) {
            Ok(b) => Ok(Some(b)),
            Err(e) => Err(e),
        },
    }
}

/// Reads a truth value with a default; here a blank text is a fault.
pub open spec fn truth_or(v: Var, name: Seq<char>, default: bool) -> Result<bool, Fault> {
    match v {
        Var::Text { value } => truth_of(value, name),
        Var::Unset => Ok(default),
        Var::Raw { bytes, fault } => faulted(name, fault),
    }
}

pub fn env_bool(env: &Environment, name: &'static str, default: bool) -> (r: Result<
    bool,
    EdgeError,
>)
    ensures
        agrees(r, truth_or(env.var(name@), name@, default)),
{
    match env.get(name) {
        EnvVar::Text { value } => read_truth(value.as_str(), name),
        EnvVar::Unset => Ok(default),
        EnvVar::Raw { bytes: _, fault } => Err(EdgeError::ConfigEnv { name, message: fault }),
    }
}

/// Reads a path, whatever its bytes; an empty one counts as not there.
pub open spec fn optional_path(v: Var) -> Option<Seq<u8>> {
    match v {
        Var::Text { value } => if value.len() == 0 { None } else { Some(encode_utf8(value)) },
        Var::Unset => None,
        Var::Raw { bytes, fault } => if bytes.len() == 0 { None } else { Some(bytes) },
    }
}

pub fn optional_path_env(env: &Environment, name: &str) -> (r: Option<OsPath>)
    ensures
        opt_path(r) == optional_path(env.var(name@)),
{
    match env.get(name) {
        EnvVar::Text { value } => {
            let n: usize = value.as_str().unicode_len();
            if n == 0 {
                None
            } else {
                Some(OsPath::from_text(value.as_str()))
            }
        },
        EnvVar::Unset => None,
        EnvVar::Raw { bytes, fault: _ } => if bytes.len() == 0 {
            None
        } else {
            Some(OsPath { bytes })
        },
    }
}

/// The variables through which a service manager hands over listening sockets.
pub open spec fn socket_activation(env: Environment) -> Option<Seq<char>> {
    if optional_path(env.var("LISTEN_FDS"@)) is Some {
        Some("LISTEN_FDS"@)
    } else if optional_path(env.var("LISTEN_PID"@)) is Some {
        Some("LISTEN_PID"@)
    } else if optional_path(env.var("LISTEN_FDNAMES"@)) is Some {
        Some("LISTEN_FDNAMES"@)
    } else {
        None
    }
}

/// The first of those variables that is set and not empty.
pub fn socket_activation_env_name(env: &Environment) -> (r: Option<&'static str>)
    ensures
        match (r, socket_activation(*env)) {
            (Some(a), Some(b)) => a@ == b,
            (None, None) => true,
            _ => false,
        },
{
    if optional_path_env(env, "LISTEN_FDS").is_some() {
        return Some("LISTEN_FDS");
    }
    if optional_path_env(env, "LISTEN_PID").is_some() {
        return Some("LISTEN_PID");
    }
    if optional_path_env(env, "LISTEN_FDNAMES").is_some() {
        return Some("LISTEN_FDNAMES");
    }
    None
}

/// Of several entries with one name the first counts, wherever it stands; a name without
/// an entry is not set.
pub proof fn the_first_entry_counts(
    a: Seq<(String, EnvVar)>,
    entry: (String, EnvVar),
    b: Seq<(String, EnvVar)>,
)
    requires
        forall|i: int| 0 <= i < a.len() ==> (#[trigger] a[i]).0@ != entry.0@,
    ensures
        lookup(a + seq![entry] + b, entry.0@) == entry.1@,
        lookup(a, entry.0@) is Unset,
    decreases a.len(),
{
    let s = a + seq![entry] + b;
    if a.len() > 0 {
        assert(s[0] == a[0]);
        let t = a.drop_first();
        assert forall|i: int| 0 <= i < t.len() implies (#[trigger] t[i]).0@ != entry.0@ by {
            assert(t[i] == a[i + 1]);
        }
        the_first_entry_counts(t, entry, b);
        assert(s.drop_first() =~= t + seq![entry] + b);
    } else {
        assert(s[0] == entry);
    }
}

/// Whether a variable says nothing: it is not set, or blank.
pub open spec fn says_nothing(v: Var) -> bool {
    v is Unset || (v matches Var::Text { value } && all_white(value))
}

/// A number in the environment is read as it is written, in digits and nothing else; one
/// that is too large, or has white space around it, is blamed on its variable, and so is
/// one that is not text. A variable that says nothing gives none.
pub proof fn variables_are_read_as_numbers(v: Var, name: Seq<char>, a: Seq<char>, n: nat, b: Seq<char>)
    requires
        all_white(a),
        all_white(b),
    ensures
        says_nothing(v) ==> optional_number(v, name) == Ok::<Option<u64>, Fault>(None),
        v == (Var::Text { value: decimal(n) }) && n <= u64::MAX ==> optional_number(v, name)
            == Ok::<Option<u64>, Fault>(Some(n as u64)),
        v == (Var::Text { value: a + decimal(n) + b }) && (n > u64::MAX || a.len() + b.len() > 0)
            ==> (optional_number(v, name) matches Err(f) && blames(f, name)),
        v is Raw ==> (optional_number(v, name) matches Err(f) && blames(f, name)),
{
    let d = decimal(n);
    let t = a + d + b;
    numbers_are_read_back(n, u64::MAX as nat);
    assert('0' <= d[0] && d[0] <= '9');
    assert('0' <= d[d.len() - 1] && d[d.len() - 1] <= '9');
    let empty = Seq::<char>::empty();
    trimming_takes_what_is_around(a, d, b);
    trimming_takes_what_is_around(empty, d, empty);
    assert(empty + d + empty =~= d);
    if let Var::Text { value } = v {
        if all_white(value) {
            trimming_takes_what_is_around(value, empty, empty);
            assert(value + empty + empty =~= value);
        }
    }
    if a.len() + b.len() > 0 && whole(t, u64::MAX as nat) is Some {
        let i = if a.len() > 0 {
            0
        } else {
            t.len() - 1
        };
        only_digits_are_read(t, u64::MAX as nat, i);
        if a.len() > 0 {
            assert(t[0] == a[0] && is_white(a[0]));
        } else {
            assert(t[i] == b[b.len() - 1] && is_white(b[b.len() - 1]));
        }
        assert(false);
    }
    if a.len() + b.len() == 0 {
        assert(t =~= d);
    }
}

/// The words for yes and those for no are told apart whether they are in small letters or
/// in capitals, but not in a mixture of both.
pub proof fn truth_is_spelled_in_one_case(raw: Seq<char>)
    ensures
        ({
            let l = lowered(raw);
            let one_case = raw == l || forall|i: int|
                0 <= i < raw.len() ==> !('a' <= #[trigger] raw[i] && raw[i] <= 'z');
            &&& spelled(raw) == Some(true) <==> one_case && (l == "1"@ || l == "true"@ || l
                == "yes"@)
            &&& spelled(raw) == Some(false) <==> one_case && (l == "0"@ || l == "false"@ || l
                == "no"@)
        }),
{
    lemma_words();
    let l = lowered(raw);
    case_does_not_count(raw, raw);
    if forall|i: int| 0 <= i < raw.len() ==> !('a' <= #[trigger] raw[i] && raw[i] <= 'z') {
        assert forall|i: int| 0 <= i < raw.len() && 'a' <= #[trigger] l[i] && l[i] <= 'z' implies
            raw[i] as u32 == l[i] as u32 - 32 by {
            assert(!('a' <= raw[i] && raw[i] <= 'z'));
        }
        if l == "true"@ {
            assert(raw =~= "TRUE"@);
        }
        if l == "yes"@ {
            assert(raw =~= "YES"@);
        }
        if l == "false"@ {
            assert(raw =~= "FALSE"@);
        }
        if l == "no"@ {
            assert(raw =~= "NO"@);
        }
        if l == "1"@ {
            assert(raw =~= "1"@);
        }
        if l == "0"@ {
            assert(raw =~= "0"@);
        }
    }
}

proof fn lemma_words()
    ensures
        lowered("1"@) == "1"@ && lowered("true"@) == "true"@ && lowered("TRUE"@) == "true"@
            && lowered("yes"@) == "yes"@ && lowered("YES"@) == "yes"@,
        lowered("0"@) == "0"@ && lowered("false"@) == "false"@ && lowered("FALSE"@) == "false"@
            && lowered("no"@) == "no"@ && lowered("NO"@) == "no"@,
        "1"@.len() == 1 && "0"@.len() == 1 && "1"@[0] == '1' && "0"@[0] == '0',
        "true"@.len() == 4 && "TRUE"@.len() == 4 && "yes"@.len() == 3 && "YES"@.len() == 3,
        "false"@.len() == 5 && "FALSE"@.len() == 5 && "no"@.len() == 2 && "NO"@.len() == 2,
        "true"@ == seq!['t', 'r', 'u', 'e'] && "TRUE"@ == seq!['T', 'R', 'U', 'E'],
        "yes"@ == seq!['y', 'e', 's'] && "YES"@ == seq!['Y', 'E', 'S'],
        "false"@ == seq!['f', 'a', 'l', 's', 'e'] && "FALSE"@ == seq!['F', 'A', 'L', 'S', 'E'],
        "no"@ == seq!['n', 'o'] && "NO"@ == seq!['N', 'O'],
{
    reveal_strlit("1");
    reveal_strlit("0");
    reveal_strlit("true");
    reveal_strlit("TRUE");
    reveal_strlit("yes");
    reveal_strlit("YES");
    reveal_strlit("false");
    reveal_strlit("FALSE");
    reveal_strlit("no");
    reveal_strlit("NO");
    assert("true"@ =~= seq!['t', 'r', 'u', 'e'] && "TRUE"@ =~= seq!['T', 'R', 'U', 'E']);
    assert("yes"@ =~= seq!['y', 'e', 's'] && "YES"@ =~= seq!['Y', 'E', 'S']);
    assert("false"@ =~= seq!['f', 'a', 'l', 's', 'e'] && "FALSE"@ =~= seq!['F', 'A', 'L', 'S', 'E']);
    assert("no"@ =~= seq!['n', 'o'] && "NO"@ =~= seq!['N', 'O']);
    assert(lowered("1"@) =~= "1"@ && lowered("0"@) =~= "0"@);
    assert(lowered("true"@) =~= "true"@ && lowered("TRUE"@) =~= "true"@);
    assert(lowered("yes"@) =~= "yes"@ && lowered("YES"@) =~= "yes"@);
    assert(lowered("false"@) =~= "false"@ && lowered("FALSE"@) =~= "false"@);
    assert(lowered("no"@) =~= "no"@ && lowered("NO"@) =~= "no"@);
}

/// A truth value in the environment is what its word spells. A variable that says nothing
/// leaves it open where it may, a blank one is a fault where it may not, and a word that
/// spells nothing is blamed on its variable.
pub proof fn variables_are_read_as_truth(v: Var, name: Seq<char>, default: bool)
    ensures
        says_nothing(v) ==> optional_truth(v, name) == Ok::<Option<bool>, Fault>(None),
        v is Unset ==> truth_or(v, name, default) == Ok::<bool, Fault>(default),
        v matches Var::Text { value } ==> (match spelled(value) {
            Some(b) => optional_truth(v, name) == Ok::<Option<bool>, Fault>(Some(b)) && truth_or(
                v,
                name,
                default,
            ) == Ok::<bool, Fault>(b),
            None => truth_or(v, name, default) is Err && blames(
                truth_or(v, name, default)->Err_0,
                name,
            ) && (all_white(value) || optional_truth(v, name) is Err && blames(
                optional_truth(v, name)->Err_0,
                name,
            )),
        }),
        v is Raw ==> optional_truth(v, name) is Err && truth_or(v, name, default) is Err,
{
    lemma_words();
    let empty = Seq::<char>::empty();
    if let Var::Text { value } = v {
        if all_white(value) {
            trimming_takes_what_is_around(value, empty, empty);
            assert(value + empty + empty =~= value);
        } else {
            lemma_blank(value);
        }
        if spelled(value) is Some {
            assert(!is_white(value[0]));
        }
    }
}

/// Only what is all white space is blank.
proof fn lemma_blank(s: Seq<char>)
    ensures
        trimmed(s).len() == 0 ==> all_white(s),
{
    lemma_trim_start_keeps(s);
    let t = crate::text::trim_start(s);
    lemma_trim_end_keeps(t);
    if trimmed(s).len() == 0 {
        assert forall|i: int| 0 <= i < s.len() implies is_white(#[trigger] s[i]) by {
            let k = s.len() - t.len();
            if i >= k {
                assert(t[i - k] == s[i]);
            }
        }
    }
}

proof fn lemma_trim_start_keeps(s: Seq<char>)
    ensures
        crate::text::trim_start(s).len() <= s.len(),
        crate::text::trim_start(s) == s.skip(s.len() - crate::text::trim_start(s).len()),
        forall|i: int|
            0 <= i < s.len() - crate::text::trim_start(s).len() ==> is_white(#[trigger] s[i]),
    decreases s.len(),
{
    if s.len() > 0 && is_white(s[0]) {
        let d = s.drop_first();
        lemma_trim_start_keeps(d);
        let t = crate::text::trim_start(d);
        assert(t =~= s.skip(s.len() - t.len()));
        assert forall|i: int| 0 <= i < s.len() - t.len() implies is_white(#[trigger] s[i]) by {
            if i > 0 {
                assert(d[i - 1] == s[i]);
            }
        }
    } else {
        assert(s.skip(0) =~= s);
    }
}

proof fn lemma_trim_end_keeps(s: Seq<char>)
    ensures
        crate::text::trim_end(s).len() == 0 ==> all_white(s),
    decreases s.len(),
{
    if s.len() > 0 && is_white(s.last()) {
        lemma_trim_end_keeps(s.drop_last());
        if crate::text::trim_end(s).len() == 0 {
            assert forall|i: int| 0 <= i < s.len() implies is_white(#[trigger] s[i]) by {
                if i < s.len() - 1 {
                    assert(s.drop_last()[i] == s[i]);
                }
            }
        }
    }
}

/// A path in the environment is taken as it is, text or not; only an empty one counts as
/// none. A socket is handed over if any of the three variables holds something.
pub proof fn variables_are_read_as_paths(v: Var, env: Environment)
    ensures
        v matches Var::Text { value } ==> (if value.len() > 0 {
            optional_path(v) == Some(encode_utf8(value))
        } else {
            optional_path(v) is None
        }),
        v matches Var::Raw { bytes, .. } ==> (if bytes.len() > 0 {
            optional_path(v) == Some(bytes)
        } else {
            optional_path(v) is None
        }),
        v is Unset ==> optional_path(v) is None,
        socket_activation(env) is None <==> optional_path(env.var("LISTEN_FDS"@)) is None
            && optional_path(env.var("LISTEN_PID"@)) is None && optional_path(
            env.var("LISTEN_FDNAMES"@),
        ) is None,
        socket_activation(env) matches Some(name) ==> optional_path(env.var(name)) is Some,
{
}

} // verus!
