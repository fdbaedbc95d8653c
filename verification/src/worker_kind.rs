//! What runs behind the edge: classic workers answer one request at a time, async
//! ones interleave them.
use vstd::prelude::*;

use crate::text::same;

verus! {

#[derive(Clone, Copy, Debug, PartialEq, Eq, Structural)]
pub enum WorkerKind {
    Classic,
    Async,
}

/// The kind that a setting names.
pub open spec fn kind_named(value: Seq<char>) -> Option<WorkerKind> {
    if value == "classic"@ {
        Some(WorkerKind::Classic)
    } else if value == "async"@ {
        Some(WorkerKind::Async)
    } else {
        None
    }
}

pub fn parse_kind(value: &str) -> (r: Option<WorkerKind>)
    ensures
        r == kind_named(value@),
{
    if same(value, "classic") {
        Some(WorkerKind::Classic)
    } else if same(value, "async") {
        Some(WorkerKind::Async)
    } else {
        None
    }
}

/// The kind of the fleet, which the first writer or reader settles for good.
pub struct KindCell {
    settled: Option<WorkerKind>,
}

/// What an unset kind becomes when it is first asked for: async where the
/// environment says exactly that, classic otherwise.
pub open spec fn kind_of_env(env: Option<&str>) -> WorkerKind {
    match env {
        Some(v) => if v@ == "async"@ { WorkerKind::Async } else { WorkerKind::Classic },
        None => WorkerKind::Classic,
    }
}

impl KindCell {
    pub closed spec fn view(&self) -> Option<WorkerKind> {
        self.settled
    }

    pub fn new() -> (c: KindCell)
        ensures
            c@ is None,
    {
        KindCell { settled: None }
    }
}

/// Settles the kind, unless it is settled already.
pub fn init_kind(cell: &mut KindCell, k: WorkerKind)
    ensures
        final(cell)@ == (if old(cell)@ is Some { old(cell)@ } else { Some(k) }),
{
    if cell.settled.is_none() {
        cell.settled = Some(k);
    }
}

/// The kind; `env` is what the environment holds, and is looked at once.
pub fn kind(cell: &mut KindCell, env: Option<&str>) -> (r: WorkerKind)
    ensures
        r == (match old(cell)@ {
            Some(k) => k,
            None => kind_of_env(env),
        }),
        final(cell)@ == Some(r),
{
    match cell.settled {
        Some(k) => k,
        None => {
            let k: WorkerKind = match env {
                Some(v) => if same(v, "async") {
                    WorkerKind::Async
                } else {
                    WorkerKind::Classic
                },
                None => WorkerKind::Classic,
            };
            cell.settled = Some(k);
            k
        },
    }
}

/// Whether the fleet is async.
pub fn is_async(cell: &mut KindCell, env: Option<&str>) -> (r: bool)
    ensures
        final(cell)@ matches Some(k) && r == (k == WorkerKind::Async),
        old(cell)@ is Some ==> final(cell)@ == old(cell)@,
        old(cell)@ is None ==> final(cell)@ == Some(kind_of_env(env)),
{
    kind(cell, env) == WorkerKind::Async
}

/// Workers are asynchronous only where a setting says exactly that.
pub proof fn kinds_are_named_exactly(value: Seq<char>, env: Option<&str>)
    ensures
        kind_named(value) == Some(WorkerKind::Async) <==> value == "async"@,
        kind_named(value) == Some(WorkerKind::Classic) <==> value == "classic"@,
        kind_of_env(env) is Async <==> env is Some && env->0@ == "async"@,
{
    reveal_strlit("async");
    reveal_strlit("classic");
    assert("async"@.len() == 5 && "classic"@.len() == 7);
}

} // verus!
