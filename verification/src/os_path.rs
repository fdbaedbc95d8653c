//! File paths as the operating system sees them: any bytes, with `/` between the parts.
use vstd::prelude::*;
use vstd::utf8::{decode_utf8, encode_utf8, valid_utf8};

verus! {

/// A path.
#[derive(Debug, PartialEq, Eq)]
pub struct OsPath {
    pub bytes: Vec<u8>,
}

/// A path followed by one more part.
pub open spec fn joined(path: Seq<u8>, part: Seq<u8>) -> Seq<u8> {
    if path.len() > 0 && path.last() != 0x2f {
        path.push(0x2f) + part
    } else {
        path + part
    }
}

/// What a path looks like in a message when it may not be valid UTF-8.
pub uninterp spec fn lossy(bytes: Seq<u8>) -> Seq<char>;

/// `String::from_utf8_lossy`: the text of valid UTF-8; what stands in for bytes that are
/// not is left unsaid.
#[verifier::external_body]
pub(crate) fn lossy_text(bytes: &[u8]) -> (r: String)
    ensures
        r@ == lossy(bytes@),
        valid_utf8(bytes@) ==> r@ == decode_utf8(bytes@),
{
    String::from_utf8_lossy(bytes).into_owned()
}

impl View for OsPath {
    type V = Seq<u8>;

    open spec fn view(&self) -> Seq<u8> {
        self.bytes@
    }
}

impl OsPath {
    /// The path that `text` spells.
    pub fn from_text(text: &str) -> (p: OsPath)
        ensures
            p@ == encode_utf8(text@),
    {
        let mut bytes: Vec<u8> = Vec::new();
        bytes.extend_from_slice(text.as_bytes());
        assert(bytes@ =~= encode_utf8(text@));
        OsPath { bytes }
    }

    pub fn copy(&self) -> (p: OsPath)
        ensures
            p@ == self@,
    {
        let mut bytes: Vec<u8> = Vec::new();
        bytes.extend_from_slice(self.bytes.as_slice());
        assert(bytes@ =~= self@);
        OsPath { bytes }
    }

    /// The path of `part` inside the directory.
    pub fn join(&self, part: &str) -> (p: OsPath)
        ensures
            p@ == joined(self@, encode_utf8(part@)),
    {
        let mut p = self.copy();
        if p.bytes.len() > 0 && p.bytes[p.bytes.len() - 1] != 0x2f {
            p.bytes.push(0x2f);
        }
        p.bytes.extend_from_slice(part.as_bytes());
        assert(p@ =~= joined(self@, encode_utf8(part@)));
        p
    }

    pub fn is_absolute(&self) -> (r: bool)
        ensures
            r == (self@.len() > 0 && self@[0] == 0x2f),
    {
        self.bytes.len() > 0 && self.bytes[0] == 0x2f
    }

    /// The path for a message.
    pub fn shown(&self) -> (r: String)
        ensures
            r@ == lossy(self@),
            valid_utf8(self@) ==> r@ == decode_utf8(self@),
    {
        lossy_text(self.bytes.as_slice())
    }
}

/// The bytes of an optional path.
pub open spec fn opt_path(p: Option<OsPath>) -> Option<Seq<u8>> {
    match p {
        Some(p) => Some(p@),
        None => None,
    }
}

/// A copy of an optional path.
pub fn copy_path(p: &Option<OsPath>) -> (r: Option<OsPath>)
    ensures
        opt_path(r) == opt_path(*p),
{
    match p {
        Some(p) => Some(p.copy()),
        None => None,
    }
}

/// The bytes of a list of paths.
pub open spec fn path_views(ps: Seq<OsPath>) -> Seq<Seq<u8>> {
    ps.map_values(|p: OsPath| p@)
}

/// A copy of a list of paths.
pub fn copy_paths(ps: &Vec<OsPath>) -> (r: Vec<OsPath>)
    ensures
        path_views(r@) == path_views(ps@),
{
    let mut out: Vec<OsPath> = Vec::new();
    let mut i: usize = 0;
    while i < ps.len()
        invariant
            i <= ps@.len(),
            path_views(out@) =~= path_views(ps@).take(i as int),
        decreases ps@.len() - i,
    {
        let ghost done = out@;
        out.push(ps[i].copy());
        assert(path_views(out@) =~= path_views(done).push(ps@[i as int]@));
        i += 1;
    }
    assert(path_views(ps@).take(i as int) =~= path_views(ps@));
    out
}

/// Between a directory and what is inside it stands one slash, whether the directory was
/// written with one or not, and neither of the two is changed.
pub proof fn paths_are_joined_by_one_slash(dir: Seq<u8>, part: Seq<u8>)
    requires
        dir.len() > 0,
    ensures
        dir.last() != 0x2f ==> joined(dir, part) == dir + seq![0x2fu8] + part,
        dir.last() == 0x2f ==> joined(dir, part) == dir + part,
        dir.last() != 0x2f ==> joined(dir, part) == joined(dir.push(0x2f), part),
        joined(Seq::<u8>::empty(), part) == part,
{
    assert(dir.push(0x2f) =~= dir + seq![0x2fu8]);
    assert(Seq::<u8>::empty() + part =~= part);
}

} // verus!
