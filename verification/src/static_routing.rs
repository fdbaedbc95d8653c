//! Which requests can be for a static file: with pinned directories, those whose first
//! path segment was there at boot.
use vstd::prelude::*;

use crate::error::{blames, faulted, EdgeError, Fault};
use crate::text::{
    decimal, decimal_text, find_char, first, lemma_first_at, lemma_first_range, owned, same,
    starts_with,
};

verus! {

/// The most names that are pinned.
pub const MAX_PINNED_ENTRIES: usize = 65536;

/// A path without the slash at its front.
pub open spec fn unrooted(path: Seq<char>) -> Seq<char> {
    if path.len() > 0 && path[0] == '/' { path.drop_first() } else { path }
}

/// The first segment of a path.
pub open spec fn segment(path: Seq<char>) -> Seq<char> {
    unrooted(path).take(first(unrooted(path), '/'))
}

/// The first segment of a path.
pub fn first_path_segment(path: &str) -> (r: &str)
    ensures
        r@ == segment(path@),
{
    let n: usize = path.unicode_len();
    let rest: &str = if starts_with(path, '/') {
        assert(path@.subrange(1, n as int) =~= path@.drop_first());
        path.substring_char(1, n)
    } else {
        path
    };
    let end: usize = find_char(rest, '/');
    assert(rest@.subrange(0, end as int) =~= rest@.take(end as int));
    rest.substring_char(0, end)
}

/// A segment is found whole, whatever follows it: one name is never taken for another
/// that it begins with.
pub proof fn segments_are_exact(name: Seq<char>, rest: Seq<char>)
    requires
        !name.contains('/'),
    ensures
        segment(seq!['/'] + name) == name,
        segment(seq!['/'] + name + seq!['/'] + rest) == name,
{
    let a = seq!['/'] + name;
    assert(a.drop_first() =~= name);
    lemma_first_at(name, '/', name.len() as int);
    assert(name.take(name.len() as int) =~= name);
    let b = seq!['/'] + name + seq!['/'] + rest;
    let c = name + seq!['/'] + rest;
    assert(b.drop_first() =~= c);
    assert forall|j: int| 0 <= j < name.len() implies c[j] != '/' by {
        assert(c[j] == name[j]);
        assert(name.contains(name[j]));
    }
    lemma_first_at(c, '/', name.len() as int);
    assert(c.take(name.len() as int) =~= name);
}

/// Names without repetition.
pub struct PinSet {
    names: Vec<String>,
}

spec fn all_views(names: Seq<String>) -> Seq<Seq<char>> {
    names.map_values(|s: String| s@)
}

impl PinSet {
    pub closed spec fn view(&self) -> Set<Seq<char>> {
        all_views(self.names@).to_set()
    }

    /// No name is held twice.
    pub closed spec fn wf(&self) -> bool {
        all_views(self.names@).no_duplicates()
    }

    pub fn new() -> (p: PinSet)
        ensures
            p.wf(),
            p@ == Set::<Seq<char>>::empty(),
    {
        let p = PinSet { names: Vec::new() };
        assert(p@ =~= Set::<Seq<char>>::empty());
        p
    }

    pub fn contains(&self, name: &str) -> (r: bool)
        ensures
            r == self@.contains(name@),
    {
        let ghost vs = all_views(self.names@);
        let mut i: usize = 0;
        while i < self.names.len()
            invariant
                i <= self.names@.len(),
                vs == all_views(self.names@),
                forall|j: int| 0 <= j < i ==> #[trigger] vs[j] != name@,
            decreases self.names@.len() - i,
        {
            assert(vs[i as int] == self.names@[i as int]@);
            if same(self.names[i].as_str(), name) {
                assert(vs.contains(name@));
                return true;
            }
            i += 1;
        }
        false
    }

    pub fn insert(&mut self, name: &str)
        requires
            old(self).wf(),
        ensures
            final(self).wf(),
            final(self)@ == old(self)@.insert(name@),
    {
        if self.contains(name) {
            assert(self@ =~= self@.insert(name@));
            return;
        }
        let ghost before = all_views(self.names@);
        self.names.push(owned(name));
        proof {
            let after = all_views(self.names@);
            assert(after =~= before.push(name@));
            assert forall|x: Seq<char>| after.to_set().contains(x) <==> before.to_set().insert(
                name@,
            ).contains(x) by {
                if before.to_set().contains(x) {
                    let i = choose|i: int| 0 <= i < before.len() && before[i] == x;
                    assert(after[i] == x);
                }
                if x == name@ {
                    assert(after[before.len() as int] == x);
                }
                if after.to_set().contains(x) && x != name@ {
                    let i = choose|i: int| 0 <= i < after.len() && after[i] == x;
                    assert(before[i] == x);
                }
            }
            assert(after.to_set() =~= before.to_set().insert(name@));
            assert forall|i: int, j: int|
                0 <= i < after.len() && 0 <= j < after.len() && i != j implies after[i]
                != after[j] by {
                if i == before.len() && j < before.len() {
                    assert(before.contains(before[j]));
                }
                if j == before.len() && i < before.len() {
                    assert(before.contains(before[i]));
                }
            }
        }
    }

    pub fn len(&self) -> (n: usize)
        requires
            self.wf(),
        ensures
            n == self@.len(),
    {
        proof {
            all_views(self.names@).unique_seq_to_set();
        }
        self.names.len()
    }
}

/// Whether a path may be for a static file. Without pins every path may; with pins, one
/// whose first segment is pinned, or holds a percent sign and might stand for a pinned
/// one.
pub open spec fn may_be_static(pins: Option<Set<Seq<char>>>, path: Seq<char>) -> bool {
    match pins {
        None => true,
        Some(pins) => segment(path).contains('%') || pins.contains(segment(path)),
    }
}

/// The names of an optional set.
pub open spec fn opt_pins(p: Option<&PinSet>) -> Option<Set<Seq<char>>> {
    match p {
        Some(p) => Some(p@),
        None => None,
    }
}

pub fn is_static_candidate(prod_pin: Option<&PinSet>, path: &str) -> (r: bool)
    ensures
        r == may_be_static(opt_pins(prod_pin), path@),
{
    match prod_pin {
        None => true,
        Some(pins) => {
            let seg = first_path_segment(path);
            let at: usize = find_char(seg, '%');
            let n: usize = seg.unicode_len();
            proof {
                lemma_first_range(seg@, '%');
                if at < n {
                    assert(seg@[at as int] == '%');
                }
            }
            at < n || pins.contains(seg)
        },
    }
}

/// One entry of a directory: its name where that is Unicode, or the words that explain
/// why it could not be read.
pub type EntryReading = Result<Option<String>, String>;

/// A mount, with what reading its directory gave.
pub struct MountListing {
    pub prefix: String,
    pub docroot: String,
    pub entries: Result<Vec<EntryReading>, String>,
}

/// The pins with the entries of one directory added, in the order in which they came.
pub open spec fn with_entries(
    pins: Set<Seq<char>>,
    entries: Seq<EntryReading>,
    docroot: Seq<char>,
) -> Result<Set<Seq<char>>, Fault>
    decreases entries.len(),
{
    if entries.len() == 0 {
        Ok(pins)
    } else {
        match with_entries(pins, entries.drop_last(), docroot) {
            Err(f) => Err(f),
            Ok(pins) => match entries.last() {
                Err(fault) => faulted(
                    "OXO_EDGE_PROD"@,
                    "cannot read a static docroot entry under "@ + docroot + ": "@ + fault@,
                ),
                Ok(name) => {
                    let more = match name {
                        Some(name) => pins.insert(name@),
                        None => pins,
                    };
                    if more.len() > MAX_PINNED_ENTRIES {
                        faulted(
                            "OXO_EDGE_PROD"@,
                            "static docroot "@ + docroot + " has more than "@ + decimal(
                                MAX_PINNED_ENTRIES as nat,
                            )
                                + " top-level entries; --prod boot pinning targets the small Rails public/ tree — run without --prod (dev live-probe) for a docroot this large"@,
                        )
                    } else {
                        Ok(more)
                    }
                },
            },
        }
    }
}

/// The pins with those of one mount added: its own first segment, or, for a mount of
/// everything, the empty segment and every name in its directory.
pub open spec fn with_mount(pins: Set<Seq<char>>, m: MountListing) -> Result<
    Set<Seq<char>>,
    Fault,
> {
    if segment(m.prefix@).len() > 0 {
        Ok(pins.insert(segment(m.prefix@)))
    } else {
        match m.entries {
            Err(fault) => faulted(
                "OXO_EDGE_PROD"@,
                "cannot enumerate static docroot "@ + m.docroot@ + " for --prod boot pinning: "@
                    + fault@,
            ),
            Ok(entries) => with_entries(pins.insert(Seq::empty()), entries@, m.docroot@),
        }
    }
}

/// The pins of all mounts.
pub open spec fn pins_of(mounts: Seq<MountListing>) -> Result<Set<Seq<char>>, Fault>
    decreases mounts.len(),
{
    if mounts.len() == 0 {
        Ok(Set::empty())
    } else {
        match pins_of(mounts.drop_last()) {
            Err(f) => Err(f),
            Ok(pins) => with_mount(pins, mounts.last()),
        }
    }
}

proof fn lemma_entries_fail(pins: Set<Seq<char>>, entries: Seq<EntryReading>, docroot: Seq<char>, i: int)
    requires
        0 <= i <= entries.len(),
        with_entries(pins, entries.take(i), docroot) is Err,
    ensures
        with_entries(pins, entries, docroot) == with_entries(pins, entries.take(i), docroot),
    decreases entries.len() - i,
{
    if i < entries.len() {
        assert(entries.take(i + 1).drop_last() =~= entries.take(i));
        lemma_entries_fail(pins, entries, docroot, i + 1);
    } else {
        assert(entries.take(i) =~= entries);
    }
}

fn pin_entries(pins: &mut PinSet, entries: &Vec<EntryReading>, docroot: &str) -> (r: Result<
    (),
    EdgeError,
>)
    requires
        old(pins).wf(),
    ensures
        final(pins).wf(),
        match (r, with_entries(old(pins)@, entries@, docroot@)) {
            (Ok(_), Ok(more)) => final(pins)@ == more,
            (Err(e), Err(f)) => e@ == f,
            _ => false,
        },
{
    let ghost before = pins@;
    let ghost all = entries@;
    let mut i: usize = 0;
    assert(all.take(0) =~= Seq::<EntryReading>::empty());
    while i < entries.len()
        invariant
            i <= entries@.len(),
            all == entries@,
            before == old(pins)@,
            pins.wf(),
            with_entries(before, all.take(i as int), docroot@) == Ok::<Set<Seq<char>>, Fault>(
                pins@,
            ),
        decreases entries@.len() - i,
    {
        assert(all.take(i + 1).drop_last() =~= all.take(i as int));
        match &entries[i] {
            Err(fault) => {
                let mut message: String = owned("cannot read a static docroot entry under ");
                message.append(docroot);
                message.append(": ");
                message.append(fault.as_str());
                proof {
                    lemma_entries_fail(before, all, docroot@, i + 1);
                }
                return Err(EdgeError::ConfigEnv { name: "OXO_EDGE_PROD", message });
            },
            Ok(name) => {
                if let Some(name) = name {
                    pins.insert(name.as_str());
                }
            },
        }
        if pins.len() > MAX_PINNED_ENTRIES {
            let mut message: String = owned("static docroot ");
            message.append(docroot);
            message.append(" has more than ");
            message.append(decimal_text(MAX_PINNED_ENTRIES as u64).as_str());
            message.append(
                " top-level entries; --prod boot pinning targets the small Rails public/ tree — run without --prod (dev live-probe) for a docroot this large",
            );
            proof {
                lemma_entries_fail(before, all, docroot@, i + 1);
            }
            return Err(EdgeError::ConfigEnv { name: "OXO_EDGE_PROD", message });
        }
        i += 1;
    }
    assert(all.take(i as int) =~= all);
    Ok(())
}

proof fn lemma_mounts_fail(mounts: Seq<MountListing>, i: int)
    requires
        0 <= i <= mounts.len(),
        pins_of(mounts.take(i)) is Err,
    ensures
        pins_of(mounts) == pins_of(mounts.take(i)),
    decreases mounts.len() - i,
{
    if i < mounts.len() {
        assert(mounts.take(i + 1).drop_last() =~= mounts.take(i));
        lemma_mounts_fail(mounts, i + 1);
    } else {
        assert(mounts.take(i) =~= mounts);
    }
}

/// Pins the first segments that can lead to a static file. A directory that cannot be
/// read, or that is too large, is refused.
pub fn build_prod_pin_set(mounts: &Vec<MountListing>) -> (r: Result<PinSet, EdgeError>)
    ensures
        match (r, pins_of(mounts@)) {
            (Ok(p), Ok(pins)) => p.wf() && p@ == pins,
            (Err(e), Err(f)) => e@ == f,
            _ => false,
        },
{
    let ghost all = mounts@;
    let mut pins = PinSet::new();
    let mut i: usize = 0;
    assert(all.take(0) =~= Seq::<MountListing>::empty());
    while i < mounts.len()
        invariant
            i <= mounts@.len(),
            all == mounts@,
            pins.wf(),
            pins_of(all.take(i as int)) == Ok::<Set<Seq<char>>, Fault>(pins@),
        decreases mounts@.len() - i,
    {
        let m = &mounts[i];
        assert(all.take(i + 1).drop_last() =~= all.take(i as int));
        let seg = first_path_segment(m.prefix.as_str());
        if !seg.is_empty() {
            pins.insert(seg);
        } else {
            pins.insert("");
            proof {
                reveal_strlit("");
                assert(""@ =~= Seq::<char>::empty());
            }
            match &m.entries {
                Err(fault) => {
                    let mut message: String = owned("cannot enumerate static docroot ");
                    message.append(m.docroot.as_str());
                    message.append(" for --prod boot pinning: ");
                    message.append(fault.as_str());
                    proof {
                        lemma_mounts_fail(all, i + 1);
                    }
                    return Err(EdgeError::ConfigEnv { name: "OXO_EDGE_PROD", message });
                },
                Ok(entries) => match pin_entries(&mut pins, entries, m.docroot.as_str()) {
                    Err(e) => {
                        proof {
                            lemma_mounts_fail(all, i + 1);
                        }
                        return Err(e);
                    },
                    Ok(()) => {},
                },
            }
        }
        i += 1;
    }
    assert(all.take(i as int) =~= all);
    Ok(pins)
}

proof fn lemma_entries_grow(pins: Set<Seq<char>>, entries: Seq<EntryReading>, docroot: Seq<char>)
    requires
        with_entries(pins, entries, docroot) is Ok,
    ensures
        pins.subset_of(with_entries(pins, entries, docroot)->Ok_0),
        forall|i: int|
            0 <= i < entries.len() ==> (#[trigger] entries[i] matches Ok(Some(name)) ==> with_entries(
                pins,
                entries,
                docroot,
            )->Ok_0.contains(name@)),
    decreases entries.len(),
{
    if entries.len() > 0 {
        let t = entries.drop_last();
        lemma_entries_grow(pins, t, docroot);
        assert forall|i: int| 0 <= i < entries.len() implies (#[trigger] entries[i] matches Ok(
            Some(name),
        ) ==> with_entries(pins, entries, docroot)->Ok_0.contains(name@)) by {
            if i < t.len() {
                assert(t[i] == entries[i]);
            }
        }
    }
}

proof fn lemma_mounts_grow(mounts: Seq<MountListing>, i: int)
    requires
        0 <= i <= mounts.len(),
        pins_of(mounts) is Ok,
    ensures
        pins_of(mounts.take(i)) is Ok,
        pins_of(mounts.take(i))->Ok_0.subset_of(pins_of(mounts)->Ok_0),
    decreases mounts.len(),
{
    if i == mounts.len() {
        assert(mounts.take(i) =~= mounts);
    } else {
        let t = mounts.drop_last();
        lemma_mounts_grow(t, i);
        assert(t.take(i) =~= mounts.take(i));
        let m = mounts.last();
        if segment(m.prefix@).len() == 0 {
            if let Ok(entries) = m.entries {
                lemma_entries_grow(pins_of(t)->Ok_0.insert(Seq::empty()), entries@, m.docroot@);
            }
        }
    }
}

/// Pinning hides nothing: a path below a mount of its own, and a path to anything that
/// lies in the directory of a mount of everything, may still be for a static file.
pub proof fn pinned_files_stay_reachable(mounts: Seq<MountListing>, m: int, path: Seq<char>)
    requires
        pins_of(mounts) is Ok,
        0 <= m < mounts.len(),
        segment(mounts[m].prefix@).len() > 0 ==> segment(path) == segment(mounts[m].prefix@),
        segment(mounts[m].prefix@).len() == 0 ==> (mounts[m].entries matches Ok(entries) && exists|
            i: int,
        |
            0 <= i < entries@.len() && (#[trigger] entries@[i] matches Ok(Some(name)) && segment(path)
                == name@)),
    ensures
        may_be_static(Some(pins_of(mounts)->Ok_0), path),
{
    lemma_mounts_grow(mounts, m + 1);
    let t = mounts.take(m + 1);
    assert(t.drop_last() =~= mounts.take(m));
    lemma_mounts_grow(mounts, m);
    if segment(mounts[m].prefix@).len() == 0 {
        if let Ok(entries) = mounts[m].entries {
            lemma_entries_grow(
                pins_of(mounts.take(m))->Ok_0.insert(Seq::empty()),
                entries@,
                mounts[m].docroot@,
            );
        }
    }
}

/// With pins, a path may be for a file exactly if its first segment is pinned or holds a
/// percent sign, whatever follows the segment; without pins every path may.
pub proof fn only_pinned_paths_are_probed(
    pins: Set<Seq<char>>,
    name: Seq<char>,
    rest: Seq<char>,
    path: Seq<char>,
)
    requires
        !name.contains('/'),
    ensures
        may_be_static(Some(pins), seq!['/'] + name) <==> pins.contains(name) || name.contains('%'),
        may_be_static(Some(pins), seq!['/'] + name + seq!['/'] + rest) <==> pins.contains(name)
            || name.contains('%'),
        may_be_static(None, path),
{
    segments_are_exact(name, rest);
}

/// Whether a mount accounts for a pin: its own first segment, or, where it has none, the
/// empty segment and the names in its directory.
pub open spec fn accounts_for(m: MountListing, name: Seq<char>) -> bool {
    if segment(m.prefix@).len() > 0 {
        name == segment(m.prefix@)
    } else {
        name.len() == 0 || (m.entries is Ok && exists|i: int|
            0 <= i < m.entries->Ok_0@.len() && (#[trigger] m.entries->Ok_0@[i] matches Ok(
                Some(entry),
            ) && entry@ == name))
    }
}

proof fn lemma_entries_exact(
    pins: Set<Seq<char>>,
    entries: Seq<EntryReading>,
    docroot: Seq<char>,
    name: Seq<char>,
)
    requires
        with_entries(pins, entries, docroot) is Ok,
    ensures
        with_entries(pins, entries, docroot)->Ok_0.contains(name) <==> pins.contains(name)
            || exists|i: int|
            0 <= i < entries.len() && (#[trigger] entries[i] matches Ok(Some(entry)) && entry@
                == name),
    decreases entries.len(),
{
    if entries.len() > 0 {
        let t = entries.drop_last();
        lemma_entries_exact(pins, t, docroot, name);
        assert(entries.last() == entries[entries.len() - 1]);
        if exists|i: int|
            0 <= i < t.len() && (#[trigger] t[i] matches Ok(Some(entry)) && entry@ == name) {
            let i = choose|i: int|
                0 <= i < t.len() && (#[trigger] t[i] matches Ok(Some(entry)) && entry@ == name);
            assert(entries[i] == t[i]);
        }
        if exists|i: int|
            0 <= i < entries.len() && (#[trigger] entries[i] matches Ok(Some(entry)) && entry@
                == name) {
            let i = choose|i: int|
                0 <= i < entries.len() && (#[trigger] entries[i] matches Ok(Some(entry)) && entry@
                    == name);
            if i < t.len() {
                assert(t[i] == entries[i]);
            }
        }
    }
}

/// The pins are what the mounts account for, no more and no less.
pub proof fn pins_are_what_the_mounts_hold(mounts: Seq<MountListing>, name: Seq<char>)
    requires
        pins_of(mounts) is Ok,
    ensures
        pins_of(mounts)->Ok_0.contains(name) <==> exists|m: int|
            0 <= m < mounts.len() && accounts_for(#[trigger] mounts[m], name),
    decreases mounts.len(),
{
    if mounts.len() > 0 {
        let t = mounts.drop_last();
        let last = mounts.last();
        assert(last == mounts[mounts.len() - 1]);
        pins_are_what_the_mounts_hold(t, name);
        if segment(last.prefix@).len() == 0 {
            if let Ok(entries) = last.entries {
                lemma_entries_exact(
                    pins_of(t)->Ok_0.insert(Seq::empty()),
                    entries@,
                    last.docroot@,
                    name,
                );
                if name.len() == 0 {
                    assert(name =~= Seq::<char>::empty());
                }
            }
        }
        if exists|m: int| 0 <= m < t.len() && accounts_for(#[trigger] t[m], name) {
            let m = choose|m: int| 0 <= m < t.len() && accounts_for(#[trigger] t[m], name);
            assert(mounts[m] == t[m]);
        }
        if exists|m: int| 0 <= m < mounts.len() && accounts_for(#[trigger] mounts[m], name) {
            let m = choose|m: int|
                0 <= m < mounts.len() && accounts_for(#[trigger] mounts[m], name);
            if m < t.len() {
                assert(t[m] == mounts[m]);
            }
        }
    }
}

/// Pinning does not pass over what it could not read: a directory of a mount of everything
/// that could not be listed, or an entry in it that could not be read, fails the whole.
pub proof fn unreadable_directories_are_not_passed_over(
    mounts: Seq<MountListing>,
    m: int,
    i: int,
)
    requires
        0 <= m < mounts.len(),
        segment(mounts[m].prefix@).len() == 0,
        mounts[m].entries matches Ok(entries) ==> 0 <= i < entries@.len() && entries@[i] is Err,
    ensures
        pins_of(mounts) is Err,
        blames(pins_of(mounts)->Err_0, "OXO_EDGE_PROD"@),
    decreases mounts.len(),
{
    let t = mounts.drop_last();
    if m < t.len() {
        assert(t[m] == mounts[m]);
        unreadable_directories_are_not_passed_over(t, m, i);
    } else {
        if pins_of(t) is Err {
            lemma_faults_blame_pinning(t);
        } else if let Ok(entries) = mounts[m].entries {
            let pins = pins_of(t)->Ok_0.insert(Seq::empty());
            lemma_unread_entry(pins, entries@, mounts[m].docroot@, i);
            lemma_entry_faults(pins, entries@, mounts[m].docroot@);
        }
    }
}

proof fn lemma_unread_entry(
    pins: Set<Seq<char>>,
    entries: Seq<EntryReading>,
    docroot: Seq<char>,
    i: int,
)
    requires
        0 <= i < entries.len(),
        entries[i] is Err,
    ensures
        with_entries(pins, entries, docroot) is Err,
    decreases entries.len(),
{
    let t = entries.drop_last();
    if i < t.len() {
        assert(t[i] == entries[i]);
        lemma_unread_entry(pins, t, docroot, i);
    }
}

proof fn lemma_entry_faults(pins: Set<Seq<char>>, entries: Seq<EntryReading>, docroot: Seq<char>)
    ensures
        with_entries(pins, entries, docroot) matches Err(f) ==> blames(f, "OXO_EDGE_PROD"@),
    decreases entries.len(),
{
    if entries.len() > 0 {
        lemma_entry_faults(pins, entries.drop_last(), docroot);
    }
}

proof fn lemma_faults_blame_pinning(mounts: Seq<MountListing>)
    ensures
        pins_of(mounts) matches Err(f) ==> blames(f, "OXO_EDGE_PROD"@),
    decreases mounts.len(),
{
    if mounts.len() > 0 {
        lemma_faults_blame_pinning(mounts.drop_last());
        let m = mounts.last();
        if let Ok(pins) = pins_of(mounts.drop_last()) {
            if let Ok(entries) = m.entries {
                lemma_entry_faults(pins.insert(Seq::empty()), entries@, m.docroot@);
            }
        }
    }
}

/// A directory is pinned only while its names are few enough to be held.
pub proof fn pins_are_bounded(
    pins: Set<Seq<char>>,
    entries: Seq<EntryReading>,
    docroot: Seq<char>,
)
    requires
        pins.len() <= 65536,
        with_entries(pins, entries, docroot) is Ok,
    ensures
        with_entries(pins, entries, docroot)->Ok_0.len() <= 65536,
{
}

} // verus!
