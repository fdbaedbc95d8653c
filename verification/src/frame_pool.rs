//! The idle connections to the workers: one bounded pool for the whole fleet,
//! oldest first out.
use std::collections::{BTreeMap, HashMap};

use vstd::prelude::*;

use crate::text::{
    all_white, decimal, numbers_are_read_back, opt_str, owned, parse_whole, quote, quoted, same,
    trim, trimmed, trimming_takes_what_is_around, whole,
};

verus! {

/// Which worker a pooled connection leads to, and the connection's own number.
#[derive(Clone, Copy, Debug, PartialEq, Eq, Structural)]
pub struct ConnectionMeta {
    pub key: u64,
    pub id: i32,
}

impl ConnectionMeta {
    pub fn new(key: u64, id: i32) -> (m: ConnectionMeta)
        ensures
            m.key == key,
            m.id == id,
    {
        ConnectionMeta { key, id }
    }
}

/// One idle connection.
pub struct Idle<S> {
    pub meta: ConnectionMeta,
    pub conn: S,
}

/// The position of the oldest entry for `key`, or the number of entries.
pub open spec fn oldest_for<S>(s: Seq<Idle<S>>, key: u64) -> int
    decreases s.len(),
{
    if s.len() == 0 || s[0].meta.key == key {
        0
    } else {
        1 + oldest_for(s.drop_first(), key)
    }
}

/// The position of the entry numbered `id`, or the number of entries.
pub open spec fn numbered<S>(s: Seq<Idle<S>>, id: i32) -> int
    decreases s.len(),
{
    if s.len() == 0 || s[0].meta.id == id {
        0
    } else {
        1 + numbered(s.drop_first(), id)
    }
}

/// No two entries share a number.
pub open spec fn numbers_differ<S>(s: Seq<Idle<S>>) -> bool {
    forall|i: int, j: int|
        0 <= i < j < s.len() ==> (#[trigger] s[i]).meta.id != (#[trigger] s[j]).meta.id
}

pub proof fn lemma_oldest_for<S>(s: Seq<Idle<S>>, key: u64)
    ensures
        0 <= oldest_for(s, key) <= s.len(),
        forall|j: int| 0 <= j < oldest_for(s, key) ==> (#[trigger] s[j]).meta.key != key,
        oldest_for(s, key) < s.len() ==> s[oldest_for(s, key)].meta.key == key,
    decreases s.len(),
{
    if s.len() > 0 && s[0].meta.key != key {
        lemma_oldest_for(s.drop_first(), key);
        assert forall|j: int| 0 <= j < oldest_for(s, key) implies (#[trigger] s[j]).meta.key
            != key by {
            if j > 0 {
                assert(s.drop_first()[j - 1] == s[j]);
            }
        }
    }
}

pub proof fn lemma_numbered<S>(s: Seq<Idle<S>>, id: i32)
    ensures
        0 <= numbered(s, id) <= s.len(),
        forall|j: int| 0 <= j < numbered(s, id) ==> (#[trigger] s[j]).meta.id != id,
        numbered(s, id) < s.len() ==> s[numbered(s, id)].meta.id == id,
    decreases s.len(),
{
    if s.len() > 0 && s[0].meta.id != id {
        lemma_numbered(s.drop_first(), id);
        assert forall|j: int| 0 <= j < numbered(s, id) implies (#[trigger] s[j]).meta.id != id by {
            if j > 0 {
                assert(s.drop_first()[j - 1] == s[j]);
            }
        }
    }
}

/// The entries left when the connection numbered `id` is taken out, if it is there.
pub open spec fn without<S>(s: Seq<Idle<S>>, id: i32) -> Seq<Idle<S>> {
    if numbered(s, id) < s.len() {
        s.remove(numbered(s, id))
    } else {
        s
    }
}

/// Taking a connection out twice is taking it out once, and an entry that came
/// later under another number stays.
pub proof fn removal_is_idempotent_and_exact<S>(s: Seq<Idle<S>>, id: i32, j: int)
    requires
        numbers_differ(s),
        0 <= j < s.len(),
    ensures
        without(without(s, id), id) == without(s, id),
        s[j].meta.id != id ==> without(s, id).contains(s[j]),
        s[j].meta.id == id ==> !without(s, id).contains(s[j]),
{
    lemma_numbered(s, id);
    let t = without(s, id);
    let p = numbered(s, id);
    lemma_numbered(t, id);
    if p < s.len() {
        assert forall|i: int| 0 <= i < t.len() implies (#[trigger] t[i]).meta.id != id by {
            let x = if i < p { i } else { i + 1 };
            assert(t[i] == s[x]);
            if x < p {
                assert(s[x].meta.id != s[p].meta.id);
            } else {
                assert(s[p].meta.id != s[x].meta.id);
            }
        }
        if s[j].meta.id != id {
            let y = if j < p { j } else { j - 1 };
            assert(t[y] == s[j]);
        }
    } else {
        assert(t[j] == s[j]);
    }
    if numbered(t, id) < t.len() {
        assert(t[numbered(t, id)].meta.id == id);
    }
}

/// The first put is the first got: of two connections to one worker the older one
/// leaves first, and a pickup for one worker leaves those of the others in place.
pub proof fn pickup_is_oldest_first<S>(s: Seq<Idle<S>>, key: u64, i: int)
    requires
        0 <= i < s.len(),
    ensures
        s[i].meta.key == key ==> oldest_for(s, key) <= i,
        oldest_for(s, key) < s.len() && s[i].meta.key != key ==> s.remove(
            oldest_for(s, key),
        ).contains(s[i]),
{
    lemma_oldest_for(s, key);
    let p = oldest_for(s, key);
    if p < s.len() && s[i].meta.key != key {
        let t = s.remove(p);
        let y = if i < p { i } else { i - 1 };
        assert(t[y] == s[i]);
    }
}

/// The entries after `e` was put into a pool that holds at most `ceiling`: into a full one
/// it goes in place of the oldest entry of all.
pub open spec fn after_put<S>(s: Seq<Idle<S>>, ceiling: usize, e: Idle<S>) -> Seq<Idle<S>> {
    if s.len() < ceiling {
        s.push(e)
    } else {
        s.drop_first().push(e)
    }
}

/// The entries after the oldest one for `key` was taken out, if there is one.
pub open spec fn after_get<S>(s: Seq<Idle<S>>, key: u64) -> Seq<Idle<S>> {
    if oldest_for(s, key) < s.len() {
        s.remove(oldest_for(s, key))
    } else {
        s
    }
}

/// One call on the pool.
pub ghost enum PoolStep<S> {
    Put { e: Idle<S> },
    Get { key: u64 },
    PopClosed { id: i32 },
}

/// The entries after `steps`, one after the other, on a new pool that holds at most
/// `ceiling`.
pub open spec fn idle_after<S>(ceiling: usize, steps: Seq<PoolStep<S>>) -> Seq<Idle<S>>
    decreases steps.len(),
{
    if steps.len() == 0 {
        Seq::empty()
    } else {
        let s = idle_after(ceiling, steps.drop_last());
        match steps.last() {
            PoolStep::Put { e } => after_put(s, ceiling, e),
            PoolStep::Get { key } => after_get(s, key),
            PoolStep::PopClosed { id } => without(s, id),
        }
    }
}

/// For each of these entries, the step that put it in.
pub open spec fn steps_of_idle<S>(ceiling: usize, steps: Seq<PoolStep<S>>) -> Seq<int>
    decreases steps.len(),
{
    if steps.len() == 0 {
        Seq::empty()
    } else {
        let s = idle_after(ceiling, steps.drop_last());
        let at = steps_of_idle(ceiling, steps.drop_last());
        match steps.last() {
            PoolStep::Put { e } => if s.len() < ceiling {
                at.push(steps.len() - 1)
            } else {
                at.drop_first().push(steps.len() - 1)
            },
            PoolStep::Get { key } => if oldest_for(s, key) < s.len() {
                at.remove(oldest_for(s, key))
            } else {
                at
            },
            PoolStep::PopClosed { id } => if numbered(s, id) < s.len() {
                at.remove(numbered(s, id))
            } else {
                at
            },
        }
    }
}

/// Whether no two of `steps` put in a connection under the same number.
pub open spec fn put_apart<S>(steps: Seq<PoolStep<S>>) -> bool {
    forall|i: int, j: int|
        0 <= i < j < steps.len() && (#[trigger] steps[i]) is Put && (#[trigger] steps[j]) is Put
            ==> steps[i]->e.meta.id != steps[j]->e.meta.id
}

/// Whatever calls are made on a new pool: there are never more idle connections than the
/// ceiling; each was put in, and they stand in the order in which they were; so the one
/// that a put into a full pool drops is the oldest over all workers, and it is dropped
/// only then.
pub proof fn idle_connections_stand_in_line<S>(ceiling: usize, steps: Seq<PoolStep<S>>, e: Idle<S>)
    requires
        ceiling >= 1,
        put_apart(steps),
    ensures
        ({
            let s = idle_after(ceiling, steps);
            let at = steps_of_idle(ceiling, steps);
            &&& s.len() <= ceiling
            &&& numbers_differ(s)
            &&& at.len() == s.len()
            &&& forall|i: int|
                0 <= i < s.len() ==> 0 <= #[trigger] at[i] < steps.len() && steps[at[i]]
                    == (PoolStep::Put { e: s[i] })
            &&& forall|i: int, j: int| 0 <= i < j < s.len() ==> #[trigger] at[i] < #[trigger] at[j]
            &&& s.len() < ceiling ==> after_put(s, ceiling, e) == s.push(e)
            &&& s.len() == ceiling ==> after_put(s, ceiling, e) == s.subrange(
                1,
                s.len() as int,
            ).push(e)
        }),
    decreases steps.len(),
{
    let s = idle_after(ceiling, steps);
    let at = steps_of_idle(ceiling, steps);
    if steps.len() > 0 {
        let rest = steps.drop_last();
        let k = steps.len() - 1;
        assert forall|i: int, j: int|
            0 <= i < j < rest.len() && (#[trigger] rest[i]) is Put && (
            #[trigger] rest[j]) is Put implies rest[i]->e.meta.id != rest[j]->e.meta.id by {
            assert(rest[i] == steps[i] && rest[j] == steps[j]);
        }
        idle_connections_stand_in_line(ceiling, rest, e);
        let r = idle_after(ceiling, rest);
        let from = steps_of_idle(ceiling, rest);
        assert(steps[k] == steps.last());
        match steps.last() {
            PoolStep::Put { e: new } => {
                let d: int = if r.len() < ceiling { 0 } else { 1 };
                assert(s.len() == r.len() - d + 1);
                assert forall|i: int| 0 <= i < s.len() implies 0 <= #[trigger] at[i] < steps.len()
                    && steps[at[i]] == (PoolStep::Put { e: s[i] }) by {
                    if i < s.len() - 1 {
                        assert(at[i] == from[i + d] && s[i] == r[i + d]);
                        assert(rest[from[i + d]] == steps[from[i + d]]);
                    }
                }
                assert forall|i: int, j: int| 0 <= i < j < s.len() implies #[trigger] at[i]
                    < #[trigger] at[j] by {
                    assert(at[i] == from[i + d]);
                    if j < s.len() - 1 {
                        assert(at[j] == from[j + d]);
                    }
                }
            },
            PoolStep::Get { key } => {
                lemma_oldest_for(r, key);
                lemma_still_in_line(steps, r, from, oldest_for(r, key));
            },
            PoolStep::PopClosed { id } => {
                lemma_numbered(r, id);
                lemma_still_in_line(steps, r, from, numbered(r, id));
            },
        }
    }
    assert forall|i: int, j: int| 0 <= i < j < s.len() implies (#[trigger] s[i]).meta.id != (
    #[trigger] s[j]).meta.id by {
        assert(at[i] < at[j]);
        assert(steps[at[i]] is Put && steps[at[j]] is Put);
    }
}

proof fn lemma_still_in_line<S>(steps: Seq<PoolStep<S>>, r: Seq<Idle<S>>, from: Seq<int>, p: int)
    requires
        steps.len() > 0,
        0 <= p <= r.len(),
        from.len() == r.len(),
        forall|i: int|
            0 <= i < r.len() ==> 0 <= #[trigger] from[i] < steps.len() - 1
                && steps.drop_last()[from[i]] == (PoolStep::Put { e: r[i] }),
        forall|i: int, j: int| 0 <= i < j < r.len() ==> #[trigger] from[i] < #[trigger] from[j],
    ensures
        ({
            let s = if p < r.len() { r.remove(p) } else { r };
            let at = if p < r.len() { from.remove(p) } else { from };
            &&& at.len() == s.len() <= r.len()
            &&& forall|i: int|
                0 <= i < s.len() ==> 0 <= #[trigger] at[i] < steps.len() && steps[at[i]]
                    == (PoolStep::Put { e: s[i] })
            &&& forall|i: int, j: int| 0 <= i < j < s.len() ==> #[trigger] at[i] < #[trigger] at[j]
        }),
{
    let s = if p < r.len() { r.remove(p) } else { r };
    let at = if p < r.len() { from.remove(p) } else { from };
    assert forall|i: int| 0 <= i < s.len() implies 0 <= #[trigger] at[i] < steps.len()
        && steps[at[i]] == (PoolStep::Put { e: s[i] }) by {
        let x = if i < p { i } else { i + 1 };
        assert(at[i] == from[x] && s[i] == r[x]);
        assert(steps.drop_last()[from[x]] == steps[from[x]]);
    }
    assert forall|i: int, j: int| 0 <= i < j < s.len() implies #[trigger] at[i] < #[trigger] at[j] by {
        let x = if i < p { i } else { i + 1 };
        let y = if j < p { j } else { j + 1 };
        assert(at[i] == from[x] && at[j] == from[y]);
    }
}

/// A connection as the pool keeps it.
struct Entry<S> {
    conn: S,
    id: i32,
}

/// The pool: its entries by worker and turn, and where to find each by its number and by
/// its turn alone. Turns are given out in the order in which connections are put in.
#[verifier::reject_recursive_types(S)]
pub struct ConnectionPool<S> {
    next_turn: u64,
    by_key: HashMap<u64, BTreeMap<u64, Entry<S>>>,
    by_id: HashMap<i32, u64>,
    order: BTreeMap<u64, (u64, i32)>,
    line: Ghost<Seq<u64>>,
    size: usize,
    high_water: usize,
}

/// What the maps of the pool hold, with the turns in order.
ghost struct Shelf<S> {
    next_turn: u64,
    nodes: Map<u64, Map<u64, Entry<S>>>,
    by_id: Map<i32, u64>,
    order: Map<u64, (u64, i32)>,
    line: Seq<u64>,
}

/// The connection that has the turn `t`.
spec fn idle_at<S>(b: Shelf<S>, t: u64) -> Idle<S> {
    Idle {
        meta: ConnectionMeta { key: b.order[t].0, id: b.order[t].1 },
        conn: b.nodes[b.order[t].0][t].conn,
    }
}

/// The connections, oldest first.
spec fn shelved<S>(b: Shelf<S>) -> Seq<Idle<S>> {
    Seq::new(b.line.len(), |i: int| idle_at(b, b.line[i]))
}

/// The line holds the turns of the order, oldest first.
spec fn lined_up<S>(b: Shelf<S>) -> bool {
    &&& forall|i: int, j: int| 0 <= i < j < b.line.len() ==> #[trigger] b.line[i] < #[trigger] b.line[j]
    &&& forall|i: int|
        0 <= i < b.line.len() ==> b.order.contains_key(#[trigger] b.line[i]) && b.line[i]
            < b.next_turn
    &&& forall|t: u64| #[trigger] b.order.contains_key(t) ==> b.line.contains(t)
    &&& b.order.dom().finite()
    &&& b.order.len() == b.line.len()
}

/// The three maps hold the same connections, and no worker without one is in them.
spec fn agree<S>(b: Shelf<S>) -> bool {
    &&& lined_up(b)
    &&& forall|t: u64| #[trigger]
        b.order.contains_key(t) ==> {
            &&& b.nodes.contains_key(b.order[t].0)
            &&& b.nodes[b.order[t].0].contains_key(t)
            &&& b.nodes[b.order[t].0][t].id == b.order[t].1
            &&& b.by_id.contains_key(b.order[t].1)
            &&& b.by_id[b.order[t].1] == t
        }
    &&& forall|key: u64, t: u64|
        b.nodes.contains_key(key) && #[trigger] b.nodes[key].contains_key(t)
            ==> b.order.contains_key(t) && b.order[t].0 == key
    &&& forall|key: u64| #[trigger] b.nodes.contains_key(key) ==> !b.nodes[key].is_empty()
    &&& forall|id: i32| #[trigger]
        b.by_id.contains_key(id) ==> b.order.contains_key(b.by_id[id]) && b.order[b.by_id[id]].1
            == id
}

/// The nodes without the turn `t` of `key`; a worker goes with its last connection.
spec fn node_without<S>(nodes: Map<u64, Map<u64, Entry<S>>>, key: u64, t: u64) -> Map<
    u64,
    Map<u64, Entry<S>>,
> {
    if nodes[key].remove(t).is_empty() {
        nodes.remove(key)
    } else {
        nodes.insert(key, nodes[key].remove(t))
    }
}

/// The nodes with one more turn of `key`.
spec fn node_with<S>(nodes: Map<u64, Map<u64, Entry<S>>>, key: u64, t: u64, e: Entry<S>) -> Map<
    u64,
    Map<u64, Entry<S>>,
> {
    let node = if nodes.contains_key(key) {
        nodes[key]
    } else {
        Map::empty()
    };
    nodes.insert(key, node.insert(t, e))
}

/// What the maps hold without the connection at place `p`.
spec fn unlinked<S>(b: Shelf<S>, p: int) -> Shelf<S> {
    let t = b.line[p];
    Shelf {
        nodes: node_without(b.nodes, b.order[t].0, t),
        by_id: b.by_id.remove(b.order[t].1),
        order: b.order.remove(t),
        line: b.line.remove(p),
        ..b
    }
}

/// What the maps hold with one more connection.
spec fn linked<S>(b: Shelf<S>, meta: ConnectionMeta, conn: S) -> Shelf<S> {
    let t = b.next_turn;
    Shelf {
        next_turn: (t + 1) as u64,
        nodes: node_with(b.nodes, meta.key, t, Entry { conn, id: meta.id }),
        by_id: b.by_id.insert(meta.id, t),
        order: b.order.insert(t, (meta.key, meta.id)),
        line: b.line.push(t),
    }
}

proof fn lemma_unlinked<S>(b: Shelf<S>, p: int)
    requires
        agree(b),
        0 <= p < b.line.len(),
    ensures
        agree(unlinked(b, p)),
        shelved(unlinked(b, p)) == shelved(b).remove(p),
{
    let c = unlinked(b, p);
    let t = b.line[p];
    let key = b.order[t].0;
    assert(b.order.contains_key(t));
    assert forall|i: int| 0 <= i < c.line.len() implies #[trigger] c.line[i] == b.line[if i < p {
        i
    } else {
        i + 1
    }] by {}
    assert forall|i: int, j: int| 0 <= i < j < c.line.len() implies #[trigger] c.line[i]
        < #[trigger] c.line[j] by {
        let x = if i < p { i } else { i + 1 };
        let y = if j < p { j } else { j + 1 };
        assert(b.line[x] < b.line[y]);
    }
    assert forall|i: int| 0 <= i < c.line.len() implies c.order.contains_key(#[trigger] c.line[i])
        && c.line[i] < c.next_turn by {
        let x = if i < p { i } else { i + 1 };
        assert(b.order.contains_key(b.line[x]));
        if x < p {
            assert(b.line[x] < b.line[p]);
        } else {
            assert(b.line[p] < b.line[x]);
        }
    }
    assert forall|u: u64| #[trigger] c.order.contains_key(u) implies c.line.contains(u) by {
        assert(b.order.contains_key(u));
        let i = choose|i: int| 0 <= i < b.line.len() && b.line[i] == u;
        assert(i != p);
        assert(c.line[if i < p { i } else { i - 1 }] == u);
    }
    assert(lined_up(c));
    assert forall|u: u64| #[trigger] c.order.contains_key(u) implies {
        &&& c.nodes.contains_key(c.order[u].0)
        &&& c.nodes[c.order[u].0].contains_key(u)
        &&& c.nodes[c.order[u].0][u] == b.nodes[b.order[u].0][u]
        &&& c.by_id.contains_key(c.order[u].1)
        &&& c.by_id[c.order[u].1] == u
    } by {
        assert(b.order.contains_key(u));
        if b.order[u].1 == b.order[t].1 {
            assert(b.by_id[b.order[u].1] == u);
        }
        if b.order[u].0 == key {
            assert(b.nodes[key].remove(t).contains_key(u));
            assert(b.nodes[key].remove(t).dom().contains(u));
        }
    }
    assert forall|k: u64, u: u64|
        c.nodes.contains_key(k) && #[trigger] c.nodes[k].contains_key(u) implies c.order.contains_key(
        u,
    ) && c.order[u].0 == k by {
        assert(b.nodes.contains_key(k) && b.nodes[k].contains_key(u));
    }
    assert forall|k: u64| #[trigger] c.nodes.contains_key(k) implies !c.nodes[k].is_empty() by {
        assert(b.nodes.contains_key(k));
    }
    assert forall|id: i32| #[trigger] c.by_id.contains_key(id) implies c.order.contains_key(
        c.by_id[id],
    ) && c.order[c.by_id[id]].1 == id by {
        assert(b.by_id.contains_key(id));
    }
    assert forall|i: int| 0 <= i < c.line.len() implies shelved(c)[i] == #[trigger] shelved(b).remove(
        p,
    )[i] by {
        assert(c.order.contains_key(c.line[i]));
    }
    assert(shelved(c) =~= shelved(b).remove(p));
}

proof fn lemma_linked<S>(b: Shelf<S>, meta: ConnectionMeta, conn: S)
    requires
        agree(b),
        b.next_turn < u64::MAX,
        forall|i: int| 0 <= i < shelved(b).len() ==> (#[trigger] shelved(b)[i]).meta.id != meta.id,
    ensures
        agree(linked(b, meta, conn)),
        shelved(linked(b, meta, conn)) == shelved(b).push(Idle { meta, conn }),
{
    let c = linked(b, meta, conn);
    let t = b.next_turn;
    if b.order.contains_key(t) {
        let i = choose|i: int| 0 <= i < b.line.len() && b.line[i] == t;
        assert(b.line[i] < b.next_turn);
    }
    if b.by_id.contains_key(meta.id) {
        let u = b.by_id[meta.id];
        assert(b.order.contains_key(u));
        let i = choose|i: int| 0 <= i < b.line.len() && b.line[i] == u;
        assert(shelved(b)[i].meta.id == meta.id);
    }
    assert forall|i: int, j: int| 0 <= i < j < c.line.len() implies #[trigger] c.line[i]
        < #[trigger] c.line[j] by {
        assert(c.line[i] == b.line[i]);
        assert(b.line[i] < b.next_turn);
        if j < b.line.len() {
            assert(c.line[j] == b.line[j]);
        }
    }
    assert forall|i: int| 0 <= i < c.line.len() implies c.order.contains_key(#[trigger] c.line[i])
        && c.line[i] < c.next_turn by {
        if i < b.line.len() {
            assert(c.line[i] == b.line[i]);
        }
    }
    assert forall|u: u64| #[trigger] c.order.contains_key(u) implies c.line.contains(u) by {
        if u == t {
            assert(c.line[b.line.len() as int] == u);
        } else {
            assert(b.order.contains_key(u));
            let i = choose|i: int| 0 <= i < b.line.len() && b.line[i] == u;
            assert(c.line[i] == u);
        }
    }
    assert(lined_up(c));
    assert forall|u: u64| #[trigger] c.order.contains_key(u) implies {
        &&& c.nodes.contains_key(c.order[u].0)
        &&& c.nodes[c.order[u].0].contains_key(u)
        &&& c.nodes[c.order[u].0][u].id == c.order[u].1
        &&& u != t ==> c.nodes[c.order[u].0][u] == b.nodes[b.order[u].0][u]
        &&& c.by_id.contains_key(c.order[u].1)
        &&& c.by_id[c.order[u].1] == u
    } by {
        if u != t {
            assert(b.order.contains_key(u));
            assert(b.by_id.contains_key(b.order[u].1));
        }
    }
    assert forall|k: u64, u: u64|
        c.nodes.contains_key(k) && #[trigger] c.nodes[k].contains_key(u) implies c.order.contains_key(
        u,
    ) && c.order[u].0 == k by {
        if u == t && k == meta.key {
        } else {
            assert(b.nodes.contains_key(k) && b.nodes[k].contains_key(u));
        }
    }
    assert forall|k: u64| #[trigger] c.nodes.contains_key(k) implies !c.nodes[k].is_empty() by {
        if k == meta.key {
            assert(c.nodes[k].dom().contains(t));
        } else {
            assert(b.nodes.contains_key(k));
        }
    }
    assert forall|id: i32| #[trigger] c.by_id.contains_key(id) implies c.order.contains_key(
        c.by_id[id],
    ) && c.order[c.by_id[id]].1 == id by {
        if id != meta.id {
            assert(b.by_id.contains_key(id));
        }
    }
    let all = shelved(b).push(Idle { meta, conn });
    assert forall|i: int| 0 <= i < c.line.len() implies shelved(c)[i] == #[trigger] all[i] by {
        assert(c.order.contains_key(c.line[i]));
        if i < b.line.len() {
            assert(c.line[i] == b.line[i]);
            assert(b.line[i] < t);
        }
    }
    assert(shelved(c) =~= all);
}

/// The numbers of the connections differ.
proof fn lemma_numbers<S>(b: Shelf<S>)
    requires
        agree(b),
    ensures
        numbers_differ(shelved(b)),
{
    let s = shelved(b);
    assert forall|i: int, j: int| 0 <= i < j < s.len() implies (#[trigger] s[i]).meta.id != (
    #[trigger] s[j]).meta.id by {
        assert(b.line[i] < b.line[j]);
        assert(b.order.contains_key(b.line[i]) && b.order.contains_key(b.line[j]));
    }
}

/// `BTreeMap::pop_first`: takes out the entry with the least key, if there is an entry.
#[verifier::external_body]
fn pop_first<V>(m: &mut BTreeMap<u64, V>) -> (r: Option<(u64, V)>)
    ensures
        match r {
            Some((k, v)) => {
                &&& old(m)@.contains_key(k)
                &&& v == old(m)@[k]
                &&& forall|other: u64| #[trigger] old(m)@.contains_key(other) ==> k <= other
                &&& final(m)@ == old(m)@.remove(k)
            },
            None => old(m)@.is_empty() && final(m)@ == old(m)@,
        },
{
    m.pop_first()
}

/// Turns and workers are keys that the maps of std hold apart.
proof fn lemma_keys()
    ensures
        vstd::laws_cmp::obeys_cmp::<u64>(),
{
    broadcast use vstd::laws_cmp::group_laws_cmp;

}

impl<S> ConnectionPool<S> {
    spec fn shelf(&self) -> Shelf<S> {
        Shelf {
            next_turn: self.next_turn,
            nodes: self.by_key@.map_values(|node: BTreeMap<u64, Entry<S>>| node@),
            by_id: self.by_id@,
            order: self.order@,
            line: self.line@,
        }
    }

    /// The idle connections, oldest first.
    pub closed spec fn view(&self) -> Seq<Idle<S>> {
        shelved(self.shelf())
    }

    /// How many connections were put in since the pool was made.
    pub closed spec fn turns(&self) -> u64 {
        (self.next_turn - 1) as u64
    }

    /// Where each connection is kept, where it is found by its number and where it stands
    /// in line all agree.
    pub closed spec fn maps_agree(&self) -> bool {
        agree(self.shelf()) && self.next_turn >= 1
    }

    /// How many connections may be idle at once.
    pub closed spec fn ceiling(&self) -> usize {
        self.size
    }

    /// The most connections that were ever offered at once.
    pub closed spec fn peak(&self) -> usize {
        self.high_water
    }

    /// The maps agree, the ceiling holds, no number is used twice, and the peak is at most
    /// one over the ceiling.
    pub open spec fn wf(&self) -> bool {
        &&& self.maps_agree()
        &&& self@.len() <= self.ceiling()
        &&& numbers_differ(self@)
        &&& self@.len() <= self.peak()
        &&& self.peak() <= self.ceiling() + 1
        &&& self.ceiling() >= 1
    }

    pub fn new(size: usize) -> (p: ConnectionPool<S>)
        ensures
            p.wf(),
            p@ == Seq::<Idle<S>>::empty(),
            p.ceiling() == if size == 0 { 1 } else { size },
            p.peak() == 0,
            p.turns() == 0,
    {
        broadcast use vstd::std_specs::hash::group_hash_axioms;
        broadcast use vstd::std_specs::btree::group_btree_axioms;

        let p = ConnectionPool {
            next_turn: 1,
            by_key: HashMap::new(),
            by_id: HashMap::new(),
            order: BTreeMap::new(),
            line: Ghost(Seq::empty()),
            size: if size == 0 {
                1
            } else {
                size
            },
            high_water: 0,
        };
        assert(p@ =~= Seq::<Idle<S>>::empty());
        p
    }

    /// Puts back what is left of a worker's connections.
    fn keep_node(&mut self, key: u64, node: BTreeMap<u64, Entry<S>>)
        requires
            !old(self).by_key@.contains_key(key),
        ensures
            final(self).next_turn == old(self).next_turn,
            final(self).by_id == old(self).by_id,
            final(self).order == old(self).order,
            final(self).line == old(self).line,
            final(self).size == old(self).size,
            final(self).high_water == old(self).high_water,
            final(self).by_key@ == (if node@.is_empty() {
                old(self).by_key@
            } else {
                old(self).by_key@.insert(key, node)
            }),
    {
        broadcast use vstd::std_specs::hash::group_hash_axioms;

        if !node.is_empty() {
            let _none = self.by_key.insert(key, node);
        }
    }

    /// Takes the connection with the turn `t` out of the connections of its worker.
    fn take_from_node(&mut self, key: u64, t: u64) -> (r: Option<Entry<S>>)
        requires
            old(self).by_key@.contains_key(key),
            old(self).by_key@[key]@.contains_key(t),
        ensures
            final(self).next_turn == old(self).next_turn,
            final(self).by_id == old(self).by_id,
            final(self).order == old(self).order,
            final(self).line == old(self).line,
            final(self).size == old(self).size,
            final(self).high_water == old(self).high_water,
            r == Some(old(self).by_key@[key]@[t]),
            final(self).shelf().nodes == node_without(old(self).shelf().nodes, key, t),
    {
        broadcast use vstd::std_specs::hash::group_hash_axioms;
        broadcast use vstd::std_specs::btree::group_btree_axioms;

        proof {
            lemma_keys();
        }
        let mut node: BTreeMap<u64, Entry<S>> = match self.by_key.remove(&key) {
            Some(node) => node,
            None => BTreeMap::new(),
        };
        let e = node.remove(&t);
        self.keep_node(key, node);
        assert(self.shelf().nodes =~= node_without(old(self).shelf().nodes, key, t));
        e
    }

    /// Takes out the oldest connection for `key`.
    pub fn get(&mut self, key: u64) -> (r: Option<Idle<S>>)
        requires
            old(self).wf(),
        ensures
            final(self).wf(),
            final(self).ceiling() == old(self).ceiling(),
            final(self).peak() == old(self).peak(),
            final(self).turns() == old(self).turns(),
            final(self)@ == after_get(old(self)@, key),
            match r {
                Some(e) => oldest_for(old(self)@, key) < old(self)@.len() && e == old(self)@[oldest_for(old(self)@, key)] && final(self)@ == old(self)@.remove(
                    oldest_for(old(self)@, key),
                ),
                None => oldest_for(old(self)@, key) == old(self)@.len() && final(self)@ == old(self)@,
            },
    {
        broadcast use vstd::std_specs::hash::group_hash_axioms;
        broadcast use vstd::std_specs::btree::group_btree_axioms;

        let ghost b = self.shelf();
        let ghost at = oldest_for(shelved(b), key);
        proof {
            lemma_keys();
            lemma_oldest_for(shelved(b), key);
        }
        let mut node: BTreeMap<u64, Entry<S>> = match self.by_key.remove(&key) {
            Some(node) => node,
            None => {
                proof {
                    if at < shelved(b).len() {
                        assert(b.order.contains_key(b.line[at]));
                        assert(b.nodes.contains_key(key));
                    }
                    assert(self.by_key@ =~= old(self).by_key@);
                }
                return None;
            },
        };
        let ghost whole = node@;
        assert(b.nodes.contains_key(key) && b.nodes[key] == whole);
        match pop_first(&mut node) {
            None => {
                assert(!b.nodes[key].is_empty());
                None
            },
            Some((t, e)) => {
                self.keep_node(key, node);
                let _turn = self.order.remove(&t);
                let _number = self.by_id.remove(&e.id);
                proof {
                    assert(b.nodes[key].contains_key(t));
                    let p = choose|p: int| 0 <= p < b.line.len() && b.line[p] == t;
                    assert(shelved(b)[p].meta.key == key);
                    if at < p {
                        assert(b.order.contains_key(b.line[at]));
                        assert(whole.contains_key(b.line[at]));
                        assert(b.line[at] < b.line[p]);
                    }
                    assert(at == p);
                    self.line@ = b.line.remove(p);
                    assert(self.shelf().nodes =~= node_without(b.nodes, key, t));
                    assert(self.shelf() == unlinked(b, p));
                    lemma_unlinked(b, p);
                    lemma_numbers(self.shelf());
                }
                Some(Idle { meta: ConnectionMeta { key, id: e.id }, conn: e.conn })
            },
        }
    }

    /// Takes out the connection that has been in the pool longest.
    fn evict_oldest(&mut self) -> (r: Option<Idle<S>>)
        requires
            old(self).maps_agree(),
            old(self)@.len() > 0,
        ensures
            final(self).maps_agree(),
            final(self).next_turn == old(self).next_turn,
            final(self).size == old(self).size,
            final(self).high_water == old(self).high_water,
            r == Some(old(self)@[0]),
            final(self)@ == old(self)@.remove(0),
    {
        broadcast use vstd::std_specs::hash::group_hash_axioms;
        broadcast use vstd::std_specs::btree::group_btree_axioms;

        let ghost b = self.shelf();
        assert(b.order.contains_key(b.line[0]));
        let (t, at): (u64, (u64, i32)) = match pop_first(&mut self.order) {
            Some(first) => first,
            None => {
                return None;
            },
        };
        proof {
            lemma_keys();
            let p = choose|p: int| 0 <= p < b.line.len() && b.line[p] == t;
            if p > 0 {
                assert(b.line[0] < b.line[p]);
            }
            assert(b.line[0] == t);
        }
        let _number = self.by_id.remove(&at.1);
        let e = self.take_from_node(at.0, t);
        proof {
            self.line@ = b.line.remove(0);
            assert(self.shelf() == unlinked(b, 0));
            lemma_unlinked(b, 0);
        }
        match e {
            Some(e) => Some(Idle { meta: ConnectionMeta { key: at.0, id: at.1 }, conn: e.conn }),
            None => None,
        }
    }

    /// Puts a connection in and, where that breaks the ceiling, hands out the oldest
    /// one of all.
    pub fn put(&mut self, meta: &ConnectionMeta, conn: S) -> (victim: Option<Idle<S>>)
        requires
            old(self).wf(),
            old(self).turns() < u64::MAX - 1,
            forall|i: int| 0 <= i < old(self)@.len() ==> (#[trigger] old(self)@[i]).meta.id
                != meta.id,
        ensures
            final(self).wf(),
            final(self).ceiling() == old(self).ceiling(),
            final(self).turns() == old(self).turns() + 1,
            final(self)@ == after_put(old(self)@, old(self).ceiling(), Idle { meta: *meta, conn }),
            ({
                let offered = old(self)@.push(Idle { meta: *meta, conn });
                &&& final(self).peak() == (if offered.len() > old(self).peak() {
                    offered.len() as usize
                } else {
                    old(self).peak()
                })
                &&& match victim {
                    Some(v) => offered.len() > old(self).ceiling() && v == offered[0] && final(self)@ == offered.remove(0),
                    None => offered.len() <= old(self).ceiling() && final(self)@ == offered,
                }
            }),
    {
        broadcast use vstd::std_specs::hash::group_hash_axioms;
        broadcast use vstd::std_specs::btree::group_btree_axioms;

        let ghost b = self.shelf();
        proof {
            lemma_keys();
        }
        let t: u64 = self.next_turn;
        self.next_turn = t + 1;
        let _fresh = self.order.insert(t, (meta.key, meta.id));
        let _unused = self.by_id.insert(meta.id, t);
        let mut node: BTreeMap<u64, Entry<S>> = match self.by_key.remove(&meta.key) {
            Some(node) => node,
            None => BTreeMap::new(),
        };
        let _new = node.insert(t, Entry { conn, id: meta.id });
        let _gone = self.by_key.insert(meta.key, node);
        proof {
            self.line@ = b.line.push(t);
            assert(self.shelf().nodes =~= node_with(
                b.nodes,
                meta.key,
                t,
                Entry { conn, id: meta.id },
            ));
            assert(self.shelf() == linked(b, *meta, conn));
            lemma_linked(b, *meta, conn);
            lemma_numbers(self.shelf());
        }
        let n: usize = self.order.len();
        if n > self.high_water {
            self.high_water = n;
        }
        if n > self.size {
            let v = self.evict_oldest();
            proof {
                lemma_numbers(self.shelf());
            }
            v
        } else {
            None
        }
    }

    /// Takes out a connection that was closed, if it is still in the pool.
    pub fn pop_closed(&mut self, meta: &ConnectionMeta) -> (r: Option<Idle<S>>)
        requires
            old(self).wf(),
            numbered(old(self)@, meta.id) < old(self)@.len() ==> old(self)@[numbered(
                old(self)@,
                meta.id,
            )].meta.key == meta.key,
        ensures
            final(self).wf(),
            final(self).ceiling() == old(self).ceiling(),
            final(self).peak() == old(self).peak(),
            final(self).turns() == old(self).turns(),
            final(self)@ == without(old(self)@, meta.id),
            match r {
                Some(e) => numbered(old(self)@, meta.id) < old(self)@.len() && e == old(self)@[numbered(old(self)@, meta.id)],
                None => numbered(old(self)@, meta.id) == old(self)@.len(),
            },
    {
        broadcast use vstd::std_specs::hash::group_hash_axioms;
        broadcast use vstd::std_specs::btree::group_btree_axioms;

        let ghost b = self.shelf();
        let ghost at = numbered(shelved(b), meta.id);
        proof {
            lemma_keys();
            lemma_numbered(shelved(b), meta.id);
        }
        let t: u64 = match self.by_id.remove(&meta.id) {
            Some(t) => t,
            None => {
                proof {
                    if at < shelved(b).len() {
                        assert(b.order.contains_key(b.line[at]));
                        assert(b.by_id.contains_key(meta.id));
                    }
                    assert(self.by_id@ =~= old(self).by_id@);
                }
                return None;
            },
        };
        proof {
            assert(b.by_id.contains_key(meta.id));
            assert(b.order.contains_key(t));
            let p = choose|p: int| 0 <= p < b.line.len() && b.line[p] == t;
            assert(shelved(b)[p].meta.id == meta.id);
            assert(at <= p);
            assert(b.order.contains_key(b.line[at]));
            assert(b.line[at] == t);
        }
        let _turn = self.order.remove(&t);
        let e = self.take_from_node(meta.key, t);
        proof {
            self.line@ = b.line.remove(at);
            assert(self.shelf() == unlinked(b, at));
            lemma_unlinked(b, at);
            lemma_numbers(self.shelf());
        }
        match e {
            Some(e) => Some(Idle { meta: *meta, conn: e.conn }),
            None => None,
        }
    }

    /// Whether an idle connection has the number `id`.
    pub fn has_number(&self, id: i32) -> (r: bool)
        requires
            self.wf(),
        ensures
            r == exists|i: int| 0 <= i < self@.len() && (#[trigger] self@[i]).meta.id == id,
    {
        broadcast use vstd::std_specs::hash::group_hash_axioms;

        let ghost b = self.shelf();
        proof {
            if b.by_id.contains_key(id) {
                let t = b.by_id[id];
                assert(b.order.contains_key(t));
                let p = choose|p: int| 0 <= p < b.line.len() && b.line[p] == t;
                assert(self@[p].meta.id == id);
            }
            assert forall|i: int| 0 <= i < self@.len() && (
            #[trigger] self@[i]).meta.id == id implies b.by_id.contains_key(id) by {
                assert(b.order.contains_key(b.line[i]));
            }
        }
        self.by_id.contains_key(&id)
    }

    /// Whether there is a turn left for one more connection.
    pub fn has_turn(&self) -> (r: bool)
        requires
            self.wf(),
        ensures
            r == (self.turns() < u64::MAX - 1),
    {
        self.next_turn < u64::MAX
    }

    /// The number of idle connections.
    pub fn idle_len(&self) -> (n: usize)
        requires
            self.wf(),
        ensures
            n == self@.len(),
    {
        broadcast use vstd::std_specs::btree::group_btree_axioms;

        proof {
            lemma_keys();
        }
        self.order.len()
    }

    /// The most connections that were ever offered at once.
    pub fn idle_high_water(&self) -> (n: usize)
        ensures
            n == self.peak(),
    {
        self.high_water
    }
}

/// The ceiling for a fleet of `worker_count` workers when none is set: thirty-two
/// connections for each worker, and at least 512.
pub open spec fn default_ceiling(worker_count: int) -> int {
    let workers = if worker_count < 1 { 1 } else { worker_count };
    if workers * 32 > 512 { workers * 32 } else { 512 }
}

pub fn default_idle_ceiling(worker_count: usize) -> (r: usize)
    requires
        worker_count * 32 <= usize::MAX,
    ensures
        r == default_ceiling(worker_count as int),
{
    let workers: usize = if worker_count < 1 {
        1
    } else {
        worker_count
    };
    let per_worker: usize = workers * 32;
    if per_worker > 512 {
        per_worker
    } else {
        512
    }
}

/// Where the idle ceiling came from.
#[derive(Clone, Copy, Debug, PartialEq, Eq, Structural)]
pub enum IdleCeilingSource {
    Env,
    Default,
}

impl IdleCeilingSource {
    pub open spec fn text(self) -> Seq<char> {
        match self {
            IdleCeilingSource::Env => "env"@,
            IdleCeilingSource::Default => "default"@,
        }
    }

    pub fn as_str(self) -> (r: &'static str)
        ensures
            r@ == self.text(),
    {
        match self {
            IdleCeilingSource::Env => "env",
            IdleCeilingSource::Default => "default",
        }
    }
}

/// The positive number that a setting holds, with white space round it or not.
pub open spec fn positive_setting(raw: Option<Seq<char>>) -> Option<nat> {
    match raw {
        Some(v) => match whole(trimmed(v), usize::MAX as nat) {
            Some(n) => if n > 0 { Some(n) } else { None },
            None => None,
        },
        None => None,
    }
}

/// The idle ceiling and where it came from.
pub open spec fn ceiling_of(raw: Option<Seq<char>>, worker_count: int) -> (
    usize,
    IdleCeilingSource,
) {
    match positive_setting(raw) {
        Some(n) => (n as usize, IdleCeilingSource::Env),
        None => (default_ceiling(worker_count) as usize, IdleCeilingSource::Default),
    }
}

/// The idle ceiling: a positive setting, else the default for the fleet.
pub fn resolve_idle_ceiling(raw: Option<&str>, worker_count: usize) -> (r: (
    usize,
    IdleCeilingSource,
))
    requires
        worker_count * 32 <= usize::MAX,
    ensures
        r == ceiling_of(opt_str(raw), worker_count as int),
        r.0 >= 1,
{
    if let Some(v) = raw {
        if let Some(n) = parse_whole(trim(v), usize::MAX as u64) {
            if n > 0 {
                return (n as usize, IdleCeilingSource::Env);
            }
        }
    }
    (default_idle_ceiling(worker_count), IdleCeilingSource::Default)
}

/// The pools that can be asked for.
#[derive(Clone, Copy, Debug, PartialEq, Eq, Structural)]
pub enum PoolImpl {
    Owned,
}

/// Which pool a setting asks for, or the words of a refusal.
pub open spec fn pool_named(raw: Option<Seq<char>>) -> Result<PoolImpl, Seq<char>> {
    match raw {
        None => Ok(PoolImpl::Owned),
        Some(v) => {
            let t = trimmed(v);
            if t == ""@ || t == "owned"@ {
                Ok(PoolImpl::Owned)
            } else if t == "pingora"@ {
                Err(
                    "OXO_EDGE_POOL=pingora: the pingora pool was the A/B control and was              removed; only owned remains"@,
                )
            } else {
                Err("OXO_EDGE_POOL="@ + quoted(t) + ": expected owned"@)
            }
        },
    }
}

/// Which pool the setting asks for; the words of a refusal name the setting.
pub fn parse_pool_impl(raw: Option<&str>) -> (r: Result<PoolImpl, String>)
    ensures
        match (r, pool_named(opt_str(raw))) {
            (Ok(a), Ok(b)) => a == b,
            (Err(a), Err(b)) => a@ == b,
            _ => false,
        },
{
    let v: &str = match raw {
        None => {
            return Ok(PoolImpl::Owned);
        },
        Some(v) => trim(v),
    };
    if same(v, "") || same(v, "owned") {
        Ok(PoolImpl::Owned)
    } else if same(v, "pingora") {
        Err(
            owned(
                "OXO_EDGE_POOL=pingora: the pingora pool was the A/B control and was              removed; only owned remains",
            ),
        )
    } else {
        let mut m: String = owned("OXO_EDGE_POOL=");
        m.append(quote(v).as_str());
        m.append(": expected owned");
        Err(m)
    }
}

/// The ceiling on idle connections is read as it is written, with white space around it or
/// without. Otherwise each worker has thirty-two, and there are never fewer than 512.
pub proof fn ceilings_are_read_back(
    a: Seq<char>,
    n: usize,
    b: Seq<char>,
    raw: Option<Seq<char>>,
    workers: usize,
)
    requires
        all_white(a),
        all_white(b),
        workers * 32 <= usize::MAX,
    ensures
        n > 0 ==> ceiling_of(Some(a + decimal(n as nat) + b), workers as int) == (
            n,
            IdleCeilingSource::Env,
        ),
        raw is None || raw == Some(a + b) || raw == Some(a + decimal(0) + b) ==> {
            let (ceiling, source) = ceiling_of(raw, workers as int);
            &&& source is Default
            &&& ceiling >= 512 && ceiling >= 32 * workers
            &&& ceiling == 512 || ceiling == 32 * workers
        },
{
    let d = decimal(n as nat);
    let z = decimal(0);
    let empty = Seq::<char>::empty();
    numbers_are_read_back(n as nat, usize::MAX as nat);
    numbers_are_read_back(0, usize::MAX as nat);
    assert('0' <= d[0] && d[0] <= '9');
    assert('0' <= d[d.len() - 1] && d[d.len() - 1] <= '9');
    assert('0' <= z[0] && z[0] <= '9');
    assert('0' <= z[z.len() - 1] && z[z.len() - 1] <= '9');
    trimming_takes_what_is_around(a, d, b);
    trimming_takes_what_is_around(a, z, b);
    trimming_takes_what_is_around(a, empty, b);
    assert(a + empty + b =~= a + b);
}

/// There is one pool to ask for, by its name or by not asking.
pub proof fn one_pool_can_be_asked_for(a: Seq<char>, b: Seq<char>, raw: Seq<char>)
    requires
        all_white(a),
        all_white(b),
    ensures
        pool_named(None) is Ok,
        pool_named(Some(a + b)) is Ok,
        pool_named(Some(a + "owned"@ + b)) is Ok,
        pool_named(Some(raw)) is Ok ==> trimmed(raw).len() == 0 || trimmed(raw) == "owned"@,
{
    let empty = Seq::<char>::empty();
    reveal_strlit("");
    reveal_strlit("owned");
    assert(""@ =~= empty);
    trimming_takes_what_is_around(a, empty, b);
    assert(a + empty + b =~= a + b);
    trimming_takes_what_is_around(a, "owned"@, b);
}

} // verus!
