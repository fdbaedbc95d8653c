//! The order in which the workers are tried for one request.
use vstd::prelude::*;
use vstd::arithmetic::div_mod::lemma_fundamental_div_mod;
use vstd::arithmetic::div_mod::lemma_fundamental_div_mod_converse;

use crate::dispatch::{
    mode, mode_name, mode_of_env, name_of, slot, Dispatch, DispatchMode, Gauges, MAX_WORKERS,
    DEPTH_BUCKETS,
};
use crate::json::{fields_are_written_in_a_row, fields_text};
use crate::text::{decimal, owned, push_decimal};
use crate::sticky::gauged;

verus! {

/// The workers of a fleet in the order in which they are tried.
pub enum CandidateOrder {
    Rotated { start: usize, n: usize },
    Ordered { buf: [usize; MAX_WORKERS], len: usize },
}

/// The `len` workers of a fleet of `n` that follow one another from `start` on.
pub open spec fn rotation(start: int, n: int, len: int) -> Seq<usize> {
    Seq::new(len as nat, |o: int| ((start + o) % n) as usize)
}

impl CandidateOrder {
    pub open spec fn wf(&self) -> bool {
        match self {
            CandidateOrder::Rotated { start, n } => *start + *n <= usize::MAX,
            CandidateOrder::Ordered { buf, len } => *len <= MAX_WORKERS,
        }
    }

    pub open spec fn view(&self) -> Seq<usize> {
        match self {
            CandidateOrder::Rotated { start, n } => rotation(*start as int, *n as int, *n as int),
            CandidateOrder::Ordered { buf, len } => buf@.take(*len as int),
        }
    }

    /// The workers, first to be tried first.
    pub fn iter(&self) -> (r: Vec<usize>)
        requires
            self.wf(),
        ensures
            r@ == self@,
    {
        let mut out: Vec<usize> = Vec::new();
        match self {
            CandidateOrder::Rotated { start, n } => {
                let mut o: usize = 0;
                while o < *n
                    invariant
                        o <= *n,
                        *start + *n <= usize::MAX,
                        out@ == rotation(*start as int, *n as int, o as int),
                    decreases *n - o,
                {
                    out.push((*start + o) % *n);
                    o += 1;
                    assert(out@ =~= rotation(*start as int, *n as int, o as int));
                }
            },
            CandidateOrder::Ordered { buf, len } => {
                let mut i: usize = 0;
                while i < *len
                    invariant
                        i <= *len <= MAX_WORKERS,
                        out@ == buf@.take(i as int),
                    decreases *len - i,
                {
                    out.push(buf[i]);
                    i += 1;
                    assert(out@ =~= buf@.take(i as int));
                }
            },
        }
        out
    }
}

/// A rotation names every worker of the fleet, and none twice.
pub proof fn rotation_covers_the_fleet(start: int, n: int, w: int, a: int, b: int)
    requires
        0 <= start,
        0 <= w < n,
        n <= usize::MAX,
        0 <= a < b < n,
    ensures
        exists|o: int| 0 <= o < n && #[trigger] rotation(start, n, n)[o] == w,
        rotation(start, n, n)[a] != rotation(start, n, n)[b],
{
    let q = start / n;
    let r = start % n;
    lemma_fundamental_div_mod(start, n);
    let o = if w >= r { w - r } else { w - r + n };
    assert(start + o == (if w >= r { q } else { q + 1 }) * n + w) by (nonlinear_arith)
        requires
            start == n * q + r,
            o == (if w >= r { w - r } else { w - r + n }),
    ;
    lemma_fundamental_div_mod_converse(start + o, n, if w >= r { q } else { q + 1 }, w);
    assert(rotation(start, n, n)[o] == w);
    lemma_rotation_distinct(start, n, a, b);
}

proof fn lemma_rotation_distinct(start: int, n: int, a: int, b: int)
    requires
        0 <= start,
        0 <= a < b < n <= usize::MAX,
    ensures
        (start + a) % n != (start + b) % n,
        0 <= (start + a) % n < n,
        0 <= (start + b) % n < n,
{
    lemma_fundamental_div_mod(start + a, n);
    lemma_fundamental_div_mod(start + b, n);
    let x = (start + a) / n;
    let y = (start + b) / n;
    if (start + a) % n == (start + b) % n {
        assert(b - a == n * (y - x)) by (nonlinear_arith)
            requires
                start + a == n * x + (start + a) % n,
                start + b == n * y + (start + b) % n,
                (start + a) % n == (start + b) % n,
        ;
        assert(false) by (nonlinear_arith)
            requires
                b - a == n * (y - x),
                0 < b - a < n,
        ;
    }
}

/// The depth of worker `i` as far as it has a gauge.
pub open spec fn depth_of(depth: Seq<usize>, i: usize) -> usize {
    depth[slot(i)]
}

/// The position of the first worker of `s` that is deeper than `d`, or the length.
pub open spec fn first_deeper(s: Seq<usize>, depth: Seq<usize>, d: usize) -> int
    decreases s.len(),
{
    if s.len() == 0 || depth_of(depth, s[0]) > d {
        0
    } else {
        1 + first_deeper(s.drop_first(), depth, d)
    }
}

/// `s` ordered by depth, where equals keep their order.
pub open spec fn by_depth(s: Seq<usize>, depth: Seq<usize>) -> Seq<usize>
    decreases s.len(),
{
    if s.len() == 0 {
        s
    } else {
        let t = by_depth(s.drop_last(), depth);
        t.insert(first_deeper(t, depth, depth_of(depth, s.last())), s.last())
    }
}

/// The position of the first idle worker of `s`, or the length.
pub open spec fn first_idle(s: Seq<usize>, depth: Seq<usize>) -> int
    decreases s.len(),
{
    if s.len() == 0 || depth_of(depth, s[0]) == 0 {
        0
    } else {
        1 + first_idle(s.drop_first(), depth)
    }
}

/// `s` with its first idle worker in front, if the first of all is busy.
pub open spec fn idle_first(s: Seq<usize>, depth: Seq<usize>) -> Seq<usize> {
    let p = first_idle(s, depth);
    if p < s.len() {
        seq![s[p]] + s.remove(p)
    } else {
        s
    }
}

/// The order for a fleet of `n` from `start` on under mode `m`.
pub open spec fn order(start: usize, n: usize, m: DispatchMode, depth: Seq<usize>) -> Seq<usize> {
    let base = rotation(start as int, n as int, gauged(n));
    match m {
        DispatchMode::Rr => rotation(start as int, n as int, n as int),
        DispatchMode::LeastOutstanding => by_depth(base, depth),
        DispatchMode::Sticky => by_depth(base, depth),
        DispatchMode::FreeFirst => idle_first(base, depth),
    }
}

/// `a` comes before `b` in `s`.
pub open spec fn precedes(s: Seq<usize>, a: usize, b: usize) -> bool {
    exists|p: int, q: int| 0 <= p < q < s.len() && #[trigger] s[p] == a && #[trigger] s[q] == b
}

proof fn lemma_first_deeper(s: Seq<usize>, depth: Seq<usize>, d: usize)
    ensures
        0 <= first_deeper(s, depth, d) <= s.len(),
        forall|j: int|
            0 <= j < first_deeper(s, depth, d) ==> depth_of(depth, #[trigger] s[j]) <= d,
        first_deeper(s, depth, d) < s.len() ==> depth_of(depth, s[first_deeper(s, depth, d)]) > d,
    decreases s.len(),
{
    if s.len() > 0 && depth_of(depth, s[0]) <= d {
        lemma_first_deeper(s.drop_first(), depth, d);
        assert forall|j: int| 0 <= j < first_deeper(s, depth, d) implies depth_of(
            depth,
            #[trigger] s[j],
        ) <= d by {
            if j > 0 {
                assert(s.drop_first()[j - 1] == s[j]);
            }
        }
    }
}

proof fn lemma_first_idle(s: Seq<usize>, depth: Seq<usize>)
    ensures
        0 <= first_idle(s, depth) <= s.len(),
        forall|j: int| 0 <= j < first_idle(s, depth) ==> depth_of(depth, #[trigger] s[j]) != 0,
        first_idle(s, depth) < s.len() ==> depth_of(depth, s[first_idle(s, depth)]) == 0,
    decreases s.len(),
{
    if s.len() > 0 && depth_of(depth, s[0]) != 0 {
        lemma_first_idle(s.drop_first(), depth);
        assert forall|j: int| 0 <= j < first_idle(s, depth) implies depth_of(
            depth,
            #[trigger] s[j],
        ) != 0 by {
            if j > 0 {
                assert(s.drop_first()[j - 1] == s[j]);
            }
        }
    }
}

/// Ordering by depth loses no worker and adds none, puts the shallower first, and
/// leaves equals in the order in which they came.
pub proof fn by_depth_is_a_stable_sort(s: Seq<usize>, depth: Seq<usize>)
    ensures
        by_depth(s, depth).len() == s.len(),
        by_depth(s, depth).to_multiset() == s.to_multiset(),
        forall|i: int, j: int|
            0 <= i < j < s.len() ==> depth_of(depth, #[trigger] by_depth(s, depth)[i]) <= depth_of(
                depth,
                #[trigger] by_depth(s, depth)[j],
            ),
        forall|i: int, j: int|
            0 <= i < j < s.len() && depth_of(depth, by_depth(s, depth)[i]) == depth_of(
                depth,
                by_depth(s, depth)[j],
            ) ==> precedes(
                s,
                #[trigger] by_depth(s, depth)[i],
                #[trigger] by_depth(s, depth)[j],
            ),
    decreases s.len(),
{
    broadcast use vstd::seq_lib::group_to_multiset_ensures;

    if s.len() > 0 {
        let rest = s.drop_last();
        let x = s.last();
        let t = by_depth(rest, depth);
        by_depth_is_a_stable_sort(rest, depth);
        lemma_first_deeper(t, depth, depth_of(depth, x));
        let p = first_deeper(t, depth, depth_of(depth, x));
        let r = by_depth(s, depth);
        assert(r == t.insert(p, x));
        assert(s =~= rest.push(x));
        vstd::seq_lib::to_multiset_build(rest, x);
        lemma_insert_multiset(t, p, x);
        assert forall|i: int| 0 <= i < r.len() implies #[trigger] r[i] == (if i < p {
            t[i]
        } else if i == p {
            x
        } else {
            t[i - 1]
        }) by {}
        assert forall|i: int, j: int| 0 <= i < j < s.len() implies depth_of(
            depth,
            #[trigger] r[i],
        ) <= depth_of(depth, #[trigger] r[j]) by {
            let a = if i < p { i } else { i - 1 };
            let b = if j < p { j } else { j - 1 };
            if i != p && j != p {
                assert(depth_of(depth, t[a]) <= depth_of(depth, t[b]));
            } else if i == p {
                assert(depth_of(depth, t[p]) <= depth_of(depth, t[b]));
            }
        }
        assert forall|i: int, j: int|
            0 <= i < j < s.len() && depth_of(depth, r[i]) == depth_of(
                depth,
                r[j],
            ) implies precedes(s, #[trigger] r[i], #[trigger] r[j]) by {
            let a = if i < p { i } else { i - 1 };
            let b = if j < p { j } else { j - 1 };
            if i != p && j != p {
                assert(precedes(rest, t[a], t[b]));
                let (u, v) = choose|u: int, v: int|
                    0 <= u < v < rest.len() && #[trigger] rest[u] == t[a] && #[trigger] rest[v]
                        == t[b];
                assert(s[u] == r[i] && s[v] == r[j]);
            } else if j == p {
                assert(t.to_multiset().count(t[a]) > 0);
                assert(rest.to_multiset().count(t[a]) > 0);
                assert(rest.contains(t[a]));
                let u = choose|u: int| 0 <= u < rest.len() && rest[u] == t[a];
                assert(s[u] == r[i] && s[s.len() - 1] == r[j]);
            } else {
                assert(depth_of(depth, t[p]) <= depth_of(depth, t[b]));
            }
        }
    }
}

proof fn lemma_insert_multiset(t: Seq<usize>, p: int, x: usize)
    requires
        0 <= p <= t.len(),
    ensures
        t.insert(p, x).to_multiset() == t.to_multiset().insert(x),
{
    broadcast use vstd::seq_lib::group_to_multiset_ensures;

    let ins = t.insert(p, x);
    assert(ins[p] == x);
    assert(ins.contains(x));
    assert(ins.remove(p) =~= t);
    assert(ins.to_multiset().count(x) > 0);
    assert(ins.to_multiset() =~= ins.to_multiset().remove(x).insert(x));
}

/// Putting an idle worker in front moves no other worker relative to the rest, and
/// happens only when the first in line is busy.
pub proof fn idle_first_promotes_one(s: Seq<usize>, depth: Seq<usize>)
    requires
        s.len() > 0,
    ensures
        idle_first(s, depth).len() == s.len(),
        idle_first(s, depth).to_multiset() == s.to_multiset(),
        depth_of(depth, s[0]) == 0 ==> idle_first(s, depth) == s,
        (exists|i: int| 0 <= i < s.len() && depth_of(depth, #[trigger] s[i]) == 0) ==> depth_of(
            depth,
            idle_first(s, depth)[0],
        ) == 0,
        (forall|i: int| 0 <= i < s.len() ==> depth_of(depth, #[trigger] s[i]) != 0) ==> idle_first(
            s,
            depth,
        ) == s,
{
    broadcast use vstd::seq_lib::group_to_multiset_ensures;

    lemma_first_idle(s, depth);
    let p = first_idle(s, depth);
    if p < s.len() {
        let rest = s.remove(p);
        assert(seq![s[p]] + rest =~= rest.insert(0, s[p]));
        lemma_insert_multiset(rest, 0, s[p]);
        assert(s.contains(s[p]));
        assert(s.to_multiset().count(s[p]) > 0);
        assert(s.to_multiset() =~= s.to_multiset().remove(s[p]).insert(s[p]));
        if p == 0 {
            assert(seq![s[0]] + s.remove(0) =~= s);
        }
    }
}

/// How many workers of a fleet of `n` come before `w` when they are counted round from
/// `start` on.
pub open spec fn turn(w: int, start: int, n: int) -> int {
    (w - start) % n
}

proof fn lemma_turn(start: int, n: int, o: int)
    requires
        0 <= start,
        0 <= o < n,
    ensures
        turn((start + o) % n, start, n) == o,
        0 <= (start + o) % n < n,
{
    let q = (start + o) / n;
    let w = (start + o) % n;
    lemma_fundamental_div_mod(start + o, n);
    assert(w - start == (-q) * n + o) by (nonlinear_arith)
        requires
            start + o == n * q + w,
    ;
    lemma_fundamental_div_mod_converse(w - start, n, -q, o);
}

proof fn lemma_turn_back(start: int, n: int, w: int)
    requires
        0 <= start,
        0 <= w < n,
    ensures
        0 <= turn(w, start, n) < n,
        (start + turn(w, start, n)) % n == w,
{
    let q = (w - start) / n;
    let o = (w - start) % n;
    lemma_fundamental_div_mod(w - start, n);
    assert(start + o == (-q) * n + w) by (nonlinear_arith)
        requires
            w - start == n * q + o,
    ;
    lemma_fundamental_div_mod_converse(start + o, n, -q, w);
}

/// What a mode may do to a rotation: the same workers in another order.
proof fn lemma_reordered(start: usize, n: usize, len: int, s: Seq<usize>)
    requires
        1 <= n,
        0 <= len <= n,
        s.len() == len,
        s.to_multiset() == rotation(start as int, n as int, len).to_multiset(),
    ensures
        s.no_duplicates(),
        forall|i: int| 0 <= i < s.len() ==> #[trigger] s[i] < n,
        forall|w: usize| w < n ==> (#[trigger] s.contains(w) <==> turn(
            w as int,
            start as int,
            n as int,
        ) < len),
{
    broadcast use vstd::seq_lib::group_to_multiset_ensures;

    let base = rotation(start as int, n as int, len);
    assert(base.no_duplicates()) by {
        assert forall|i: int, j: int| 0 <= i < base.len() && 0 <= j < base.len() && i
            != j implies base[i] != base[j] by {
            if i < j {
                lemma_rotation_distinct(start as int, n as int, i, j);
            } else {
                lemma_rotation_distinct(start as int, n as int, j, i);
            }
        }
    }
    base.lemma_multiset_has_no_duplicates();
    assert forall|x: usize| s.to_multiset().contains(x) implies s.to_multiset().count(x) == 1 by {
        assert(base.to_multiset().contains(x));
    }
    s.lemma_multiset_has_no_duplicates_conv();
    assert forall|w: usize| #[trigger] s.contains(w) <==> base.contains(w) by {
        assert(s.contains(w) <==> s.to_multiset().count(w) > 0);
        assert(base.contains(w) <==> base.to_multiset().count(w) > 0);
    }
    assert forall|w: usize| w < n implies (#[trigger] s.contains(w) <==> turn(
        w as int,
        start as int,
        n as int,
    ) < len) by {
        let o = turn(w as int, start as int, n as int);
        lemma_turn_back(start as int, n as int, w as int);
        if o < len {
            assert(base[o] == w);
        }
        if base.contains(w) {
            let p = choose|p: int| 0 <= p < base.len() && base[p] == w;
            lemma_turn(start as int, n as int, p);
        }
    }
    assert forall|i: int| 0 <= i < s.len() implies #[trigger] s[i] < n by {
        assert(s.contains(s[i]));
        assert(base.contains(s[i]));
        let p = choose|p: int| 0 <= p < base.len() && base[p] == s[i];
        lemma_turn(start as int, n as int, p);
    }
}

/// Where a worker stands in a rotation is its turn.
proof fn lemma_place_is_turn(start: usize, n: usize, len: int, i: int)
    requires
        1 <= n,
        0 <= i < len <= n,
    ensures
        turn(
            rotation(start as int, n as int, len)[i] as int,
            start as int,
            n as int,
        ) == i,
{
    lemma_turn(start as int, n as int, i);
}

/// Every order tries a worker once and leaves out none that has a gauge: under round robin
/// it is the whole fleet, under any other mode as much of it as there are gauges for, in a
/// fleet of up to so many workers all of it.
pub proof fn every_order_covers_the_fleet(
    start: usize,
    n: usize,
    m: DispatchMode,
    depth: Seq<usize>,
    w: usize,
)
    requires
        1 <= n,
        w < n,
    ensures
        order(start, n, m, depth).no_duplicates(),
        forall|i: int|
            0 <= i < order(start, n, m, depth).len() ==> #[trigger] order(start, n, m, depth)[i] < n,
        m == DispatchMode::Rr || n <= MAX_WORKERS ==> order(start, n, m, depth).contains(w)
            && order(start, n, m, depth).len() == n,
        order(start, n, m, depth).contains(w) <==> m == DispatchMode::Rr || turn(
            w as int,
            start as int,
            n as int,
        ) < MAX_WORKERS,
{
    lemma_turn_back(start as int, n as int, w as int);
    let len = if m == DispatchMode::Rr { n as int } else { gauged(n) };
    let base = rotation(start as int, n as int, len);
    match m {
        DispatchMode::Rr => {},
        DispatchMode::FreeFirst => idle_first_promotes_one(base, depth),
        _ => by_depth_is_a_stable_sort(base, depth),
    }
    lemma_reordered(start, n, len, order(start, n, m, depth));
}

/// Round robin starts at the worker whose turn it is and goes round from there.
pub proof fn round_robin_goes_round(start: usize, n: usize, depth: Seq<usize>, i: int)
    requires
        1 <= n,
        0 <= i < n,
    ensures
        ({
            let s = order(start, n, DispatchMode::Rr, depth);
            &&& s.len() == n
            &&& s[0] == start % n
            &&& i + 1 < n ==> s[i + 1] == (if s[i] + 1 == n {
                0
            } else {
                s[i] + 1
            })
        }),
{
    lemma_turn(start as int, n as int, i);
    lemma_turn(start as int, n as int, 0);
    if i + 1 < n {
        let a = (start + i) % n as int;
        let q = (start + i) / n as int;
        lemma_fundamental_div_mod(start + i, n as int);
        if a + 1 == n {
            assert(start + i + 1 == (q + 1) * n + 0) by (nonlinear_arith)
                requires
                    start + i == n * q + a,
                    a + 1 == n,
            ;
            lemma_fundamental_div_mod_converse(start + i + 1, n as int, q + 1, 0);
        } else {
            assert(start + i + 1 == q * n + (a + 1)) by (nonlinear_arith)
                requires
                    start + i == n * q + a,
            ;
            lemma_fundamental_div_mod_converse(start + i + 1, n as int, q, a + 1);
        }
    }
}

/// Unless the mode is round robin or free first, and so also for a request without a pin
/// under sticky dispatch, no worker is tried before one with fewer requests in flight, and
/// workers with equally many are tried in turn.
pub proof fn the_least_busy_come_first(
    start: usize,
    n: usize,
    m: DispatchMode,
    depth: Seq<usize>,
    i: int,
    j: int,
)
    requires
        1 <= n <= MAX_WORKERS,
        m != DispatchMode::Rr,
        m != DispatchMode::FreeFirst,
        0 <= i < j < n,
    ensures
        ({
            let s = order(start, n, m, depth);
            &&& s.len() == n
            &&& depth[s[i] as int] <= depth[s[j] as int]
            &&& depth[s[i] as int] == depth[s[j] as int] ==> turn(
                s[i] as int,
                start as int,
                n as int,
            ) < turn(s[j] as int, start as int, n as int)
        }),
{
    let base = rotation(start as int, n as int, n as int);
    by_depth_is_a_stable_sort(base, depth);
    every_order_covers_the_fleet(start, n, m, depth, 0);
    let s = order(start, n, m, depth);
    assert(s[i] < n && s[j] < n);
    assert(depth_of(depth, s[i]) <= depth_of(depth, s[j]));
    if depth_of(depth, s[i]) == depth_of(depth, s[j]) {
        assert(precedes(base, s[i], s[j]));
        let (p, q) = choose|p: int, q: int|
            0 <= p < q < base.len() && #[trigger] base[p] == s[i] && #[trigger] base[q] == s[j];
        lemma_place_is_turn(start, n, n as int, p);
        lemma_place_is_turn(start, n, n as int, q);
    }
}

/// Free first tries an idle worker first if there is one: of the idle ones the first in
/// turn. All others, and all if none is idle, are tried in turn.
pub proof fn free_first_tries_an_idle_worker_first(
    start: usize,
    n: usize,
    depth: Seq<usize>,
    w: usize,
    i: int,
    j: int,
)
    requires
        1 <= n <= MAX_WORKERS,
        w < n,
        0 <= i < j < n,
    ensures
        ({
            let s = order(start, n, DispatchMode::FreeFirst, depth);
            &&& s.len() == n
            &&& depth[w as int] == 0 ==> depth[s[0] as int] == 0 && turn(
                s[0] as int,
                start as int,
                n as int,
            ) <= turn(w as int, start as int, n as int)
            &&& 1 <= i || depth[s[0] as int] != 0 ==> turn(s[i] as int, start as int, n as int)
                < turn(s[j] as int, start as int, n as int)
        }),
{
    let base = rotation(start as int, n as int, n as int);
    let s = order(start, n, DispatchMode::FreeFirst, depth);
    idle_first_promotes_one(base, depth);
    lemma_first_idle(base, depth);
    every_order_covers_the_fleet(start, n, DispatchMode::FreeFirst, depth, w);
    let p = first_idle(base, depth);
    let o = turn(w as int, start as int, n as int);
    lemma_turn_back(start as int, n as int, w as int);
    assert(base[o] == w);
    assert forall|x: int| 0 <= x < n implies turn(
        #[trigger] base[x] as int,
        start as int,
        n as int,
    ) == x && base[x] < n by {
        lemma_place_is_turn(start, n, n as int, x);
        lemma_turn(start as int, n as int, x);
    }
    assert(depth_of(depth, w) == depth[w as int]);
    if p < n {
        assert(s[0] == base[p]);
        assert(depth[s[0] as int] == 0);
        let x = if i - 1 < p { i - 1 } else { i };
        let y = if j - 1 < p { j - 1 } else { j };
        if i >= 1 {
            assert(s[i] == base[x] && s[j] == base[y]);
        }
    } else {
        assert(s == base);
    }
}

/// Copies at most sixteen workers into the fixed array of an order.
fn ordered(workers: &Vec<usize>) -> (r: CandidateOrder)
    requires
        workers@.len() <= MAX_WORKERS,
    ensures
        r.wf(),
        r@ == workers@,
{
    let mut buf: [usize; MAX_WORKERS] = [0;MAX_WORKERS];
    let mut i: usize = 0;
    while i < workers.len()
        invariant
            i <= workers@.len() <= MAX_WORKERS,
            forall|j: int| 0 <= j < i ==> buf@[j] == workers@[j],
        decreases workers@.len() - i,
    {
        buf[i] = workers[i];
        i += 1;
    }
    let r = CandidateOrder::Ordered { buf, len: workers.len() };
    assert(r@ =~= workers@);
    r
}

fn depth_at(d: &Dispatch, i: usize) -> (r: usize)
    ensures
        r == depth_of(d.gauges.in_flight@, i),
{
    if i < MAX_WORKERS {
        d.gauges.in_flight[i]
    } else {
        d.gauges.in_flight[MAX_WORKERS - 1]
    }
}

/// The order for a fleet of `n` from `start` on under the mode in force.
pub fn candidate_order(
    d: &mut Dispatch,
    env: Option<&str>,
    start: usize,
    n: usize,
) -> (r: CandidateOrder)
    requires
        start + n <= usize::MAX,
    ensures
        r.wf(),
        ({
            let m = match old(d).mode {
                Some(m) => m,
                None => mode_of_env(env),
            };
            &&& r@ == order(start, n, m, old(d).gauges.in_flight@)
            &&& *final(d) == (Dispatch { mode: Some(m), ..*old(d) })
        }),
{
    let m: DispatchMode = mode(d, env);
    candidate_order_with(d, start, n, m)
}

/// The order for a fleet of `n` from `start` on under mode `m`.
pub fn candidate_order_with(
    d: &Dispatch,
    start: usize,
    n: usize,
    m: DispatchMode,
) -> (r: CandidateOrder)
    requires
        start + n <= usize::MAX,
    ensures
        r.wf(),
        r@ == order(start, n, m, d.gauges.in_flight@),
{
    if m == DispatchMode::Rr {
        return CandidateOrder::Rotated { start, n };
    }
    let len: usize = if n < MAX_WORKERS {
        n
    } else {
        MAX_WORKERS
    };
    let ghost depth = d.gauges.in_flight@;
    let ghost base = rotation(start as int, n as int, len as int);
    if m == DispatchMode::FreeFirst {
        let mut line: Vec<usize> = Vec::new();
        let mut o: usize = 0;
        while o < len
            invariant
                o <= len <= n,
                start + n <= usize::MAX,
                line@ == rotation(start as int, n as int, o as int),
            decreases len - o,
        {
            line.push((start + o) % n);
            o += 1;
            assert(line@ =~= rotation(start as int, n as int, o as int));
        }
        assert(line@ == base);
        let mut p: usize = 0;
        while p < line.len() && depth_at(d, line[p]) != 0
            invariant
                p <= line@.len(),
                line@ == base,
                depth == d.gauges.in_flight@,
                forall|j: int| 0 <= j < p ==> depth_of(depth, #[trigger] base[j]) != 0,
            decreases line@.len() - p,
        {
            p += 1;
        }
        proof {
            lemma_first_idle(base, depth);
            assert(p == first_idle(base, depth));
        }
        if p < line.len() {
            let w: usize = line.remove(p);
            line.insert(0, w);
            assert(line@ =~= seq![base[p as int]] + base.remove(p as int));
        }
        return ordered(&line);
    }
    let mut sorted: Vec<usize> = Vec::new();
    let mut o: usize = 0;
    assert(rotation(start as int, n as int, 0) =~= Seq::<usize>::empty());
    while o < len
        invariant
            o <= len <= n,
            len <= MAX_WORKERS,
            start + n <= usize::MAX,
            depth == d.gauges.in_flight@,
            sorted@.len() == o,
            sorted@ == by_depth(rotation(start as int, n as int, o as int), depth),
        decreases len - o,
    {
        let w: usize = (start + o) % n;
        let x: usize = depth_at(d, w);
        let mut p: usize = 0;
        while p < sorted.len() && depth_at(d, sorted[p]) <= x
            invariant
                p <= sorted@.len(),
                depth == d.gauges.in_flight@,
                forall|j: int| 0 <= j < p ==> depth_of(depth, #[trigger] sorted@[j]) <= x,
            decreases sorted@.len() - p,
        {
            p += 1;
        }
        proof {
            lemma_first_deeper(sorted@, depth, x);
            let next = rotation(start as int, n as int, o + 1);
            assert(next.drop_last() =~= rotation(start as int, n as int, o as int));
            assert(next.last() == w);
        }
        sorted.insert(p, w);
        o += 1;
    }
    ordered(&sorted)
}

/// `s` without `x`.
pub open spec fn others(s: Seq<usize>, x: usize) -> Seq<usize>
    decreases s.len(),
{
    if s.len() == 0 {
        s
    } else if s.last() == x {
        others(s.drop_last(), x)
    } else {
        others(s.drop_last(), x).push(s.last())
    }
}

/// The pinned worker of a fleet of `len`; a pin past the fleet stands for its last
/// worker.
pub open spec fn pin_in(pinned: usize, len: int) -> usize {
    if len == 0 {
        0
    } else if pinned < len {
        pinned
    } else {
        (len - 1) as usize
    }
}

proof fn lemma_others_len(start: int, n: int, o: int, x: usize)
    requires
        0 <= start,
        0 <= o <= n,
        0 <= x < n,
        n <= usize::MAX,
    ensures
        others(rotation(start, n, o), x).len() <= o,
        others(rotation(start, n, n), x).len() == n - 1,
        (forall|j: int| 0 <= j < o ==> rotation(start, n, o)[j] != x) ==> others(
            rotation(start, n, o),
            x,
        ).len() == o,
        (exists|j: int| 0 <= j < o && rotation(start, n, o)[j] == x) ==> others(
            rotation(start, n, o),
            x,
        ).len() == o - 1,
    decreases o,
{
    lemma_others_count(start, n, o, x);
    lemma_others_count(start, n, n, x);
    if n >= 2 {
        rotation_covers_the_fleet(start, n, x as int, 0, 1);
    } else {
        assert(rotation(start, n, n)[0] == 0) by {
            lemma_fundamental_div_mod(start, n);
            assert(start % 1 == 0);
        }
    }
}

proof fn lemma_others_count(start: int, n: int, o: int, x: usize)
    requires
        0 <= start,
        0 <= o <= n,
        0 <= x < n,
        n <= usize::MAX,
    ensures
        (forall|j: int| 0 <= j < o ==> rotation(start, n, o)[j] != x) ==> others(
            rotation(start, n, o),
            x,
        ).len() == o,
        (exists|j: int| 0 <= j < o && rotation(start, n, o)[j] == x) ==> others(
            rotation(start, n, o),
            x,
        ).len() == o - 1,
    decreases o,
{
    if o > 0 {
        lemma_others_count(start, n, o - 1, x);
        let r = rotation(start, n, o);
        let s = rotation(start, n, o - 1);
        assert(r.drop_last() =~= s);
        if r.last() == x {
            assert forall|j: int| 0 <= j < o - 1 implies s[j] != x by {
                lemma_rotation_distinct(start, n, j, o - 1);
            }
        } else if exists|j: int| 0 <= j < o && r[j] == x {
            let j = choose|j: int| 0 <= j < o && r[j] == x;
            assert(s[j] == x);
        } else {
            assert forall|j: int| 0 <= j < o - 1 implies s[j] != x by {
                assert(r[j] == s[j]);
            }
        }
    }
}

/// The order for a pinned connection.
pub open spec fn pinned_order(pinned: usize, start: usize, n: usize) -> Seq<usize> {
    seq![pin_in(pinned, gauged(n))] + others(
        rotation(start as int, gauged(n), gauged(n)),
        pin_in(pinned, gauged(n)),
    )
}

/// The order for a pinned connection: its worker first, then the others from `start`
/// on.
pub fn sticky_order(pinned: usize, start: usize, n: usize) -> (r: CandidateOrder)
    requires
        start + n <= usize::MAX,
    ensures
        r.wf(),
        r@ == pinned_order(pinned, start, n),
        r@ == seq![pin_in(pinned, gauged(n))] + others(
            rotation(start as int, gauged(n), gauged(n)),
            pin_in(pinned, gauged(n)),
        ),
{
    let len: usize = if n < MAX_WORKERS {
        n
    } else {
        MAX_WORKERS
    };
    let p: usize = if len == 0 {
        0
    } else if pinned < len {
        pinned
    } else {
        len - 1
    };
    let mut line: Vec<usize> = Vec::new();
    line.push(p);
    let mut o: usize = 0;
    assert(rotation(start as int, len as int, 0) =~= Seq::<usize>::empty());
    assert(line@ =~= seq![p] + Seq::<usize>::empty());
    while o < len
        invariant
            o <= len <= MAX_WORKERS,
            len <= n,
            start + n <= usize::MAX,
            line@ == seq![p] + others(rotation(start as int, len as int, o as int), p),
        decreases len - o,
    {
        let i: usize = (start + o) % len;
        let ghost next = rotation(start as int, len as int, o + 1);
        assert(next.drop_last() =~= rotation(start as int, len as int, o as int));
        assert(next.last() == i);
        if i != p {
            line.push(i);
            assert(line@ =~= seq![p] + others(next, p));
        }
        o += 1;
    }
    proof {
        if len > 0 {
            lemma_others_len(start as int, len as int, len as int, p);
        }
    }
    ordered(&line)
}

/// A pinned connection tries its own worker first and every other worker once.
pub proof fn pinned_order_covers_the_fleet(pinned: usize, start: usize, n: usize, w: int)
    requires
        1 <= n <= MAX_WORKERS,
        0 <= w < n,
    ensures
        ({
            let p = pin_in(pinned, gauged(n));
            let tail = others(rotation(start as int, n as int, n as int), p);
            &&& tail.len() == n - 1
            &&& !tail.contains(p)
            &&& w != p ==> tail.contains(w as usize)
        }),
{
    let p = pin_in(pinned, gauged(n));
    lemma_others_len(start as int, n as int, n as int, p);
    lemma_others_members(rotation(start as int, n as int, n as int), p, w as usize);
    lemma_others_members(rotation(start as int, n as int, n as int), p, p);
    if n >= 2 {
        rotation_covers_the_fleet(start as int, n as int, w, 0, 1);
        let o = choose|o: int|
            0 <= o < n && #[trigger] rotation(start as int, n as int, n as int)[o] == w;
        assert(rotation(start as int, n as int, n as int).contains(w as usize));
    }
}

/// A pinned connection tries its own worker first, and then the others of the fleet in
/// turn, each once.
pub proof fn pinned_connections_try_their_worker_first(
    pinned: usize,
    start: usize,
    n: usize,
    w: usize,
    i: int,
    j: int,
)
    requires
        1 <= n <= MAX_WORKERS,
        pinned < n,
        w < n,
        1 <= i < j < n,
    ensures
        ({
            let s = pinned_order(pinned, start, n);
            &&& s.len() == n
            &&& s[0] == pinned
            &&& s.contains(w)
            &&& s[i] != pinned
            &&& turn(s[i] as int, start as int, n as int) < turn(
                s[j] as int,
                start as int,
                n as int,
            )
        }),
{
    let s = pinned_order(pinned, start, n);
    let base = rotation(start as int, n as int, n as int);
    pinned_order_covers_the_fleet(pinned, start, n, w as int);
    let tail = others(base, pinned);
    if w != pinned {
        let x = choose|x: int| 0 <= x < tail.len() && tail[x] == w;
        assert(s[x + 1] == w);
    } else {
        assert(s[0] == w);
    }
    assert(s[i] == tail[i - 1] && s[j] == tail[j - 1]);
    lemma_others_members(base, pinned, s[i]);
    assert(tail.contains(tail[i - 1]));
    lemma_others_in_turn(base, pinned, i - 1, j - 1);
    let (p, q) = choose|p: int, q: int|
        0 <= p < q < base.len() && #[trigger] base[p] == s[i] && #[trigger] base[q] == s[j];
    lemma_place_is_turn(start, n, n as int, p);
    lemma_place_is_turn(start, n, n as int, q);
}

proof fn lemma_others_in_turn(s: Seq<usize>, x: usize, i: int, j: int)
    requires
        0 <= i < j < others(s, x).len(),
    ensures
        precedes(s, others(s, x)[i], others(s, x)[j]),
    decreases s.len(),
{
    let t = s.drop_last();
    let r = others(t, x);
    if s.last() == x || j < r.len() {
        lemma_others_in_turn(t, x, i, j);
        let (p, q) = choose|p: int, q: int|
            0 <= p < q < t.len() && #[trigger] t[p] == r[i] && #[trigger] t[q] == r[j];
        assert(s[p] == r[i] && s[q] == r[j]);
    } else {
        assert(r.contains(r[i]));
        lemma_others_members(t, x, r[i]);
        let p = choose|p: int| 0 <= p < t.len() && t[p] == r[i];
        assert(s[p] == others(s, x)[i] && s[s.len() - 1] == others(s, x)[j]);
    }
}

proof fn lemma_others_members(s: Seq<usize>, x: usize, y: usize)
    ensures
        others(s, x).contains(y) <==> s.contains(y) && y != x,
    decreases s.len(),
{
    if s.len() > 0 {
        let t = s.drop_last();
        lemma_others_members(t, x, y);
        let r = others(s, x);
        if others(t, x).contains(y) {
            let i = choose|i: int| 0 <= i < others(t, x).len() && others(t, x)[i] == y;
            assert(r[i] == y);
        }
        if t.contains(y) {
            let i = choose|i: int| 0 <= i < t.len() && t[i] == y;
            assert(s[i] == y);
        }
        if s.contains(y) && !t.contains(y) {
            let i = choose|i: int| 0 <= i < s.len() && s[i] == y;
            if i < s.len() - 1 {
                assert(t[i] == y);
            }
            assert(s.last() == y);
            if y != x {
                assert(r[r.len() - 1] == y);
            }
        }
        if r.contains(y) && !others(t, x).contains(y) {
            let i = choose|i: int| 0 <= i < r.len() && r[i] == y;
            if i < others(t, x).len() {
                assert(others(t, x)[i] == y);
            }
            assert(y == s.last());
            assert(s[s.len() - 1] == y);
        }
    }
}

/// The depth histogram as the fields of a JSON object: `"class":count`, with commas
/// between them.
pub open spec fn histogram(hist: Seq<u64>) -> Seq<char>
    decreases hist.len(),
{
    if hist.len() == 0 {
        Seq::empty()
    } else {
        histogram(hist.drop_last()) + (if hist.len() == 1 {
            Seq::empty()
        } else {
            ","@
        }) + "\""@ + decimal((hist.len() - 1) as nat) + "\":"@ + decimal(hist.last() as nat)
    }
}

/// The dispatch ledger as a JSON object.
pub open spec fn ledger(m: DispatchMode, g: Gauges) -> Seq<char> {
    "{\"mode\":\""@ + name_of(m) + "\",\"dispatch_total\":"@ + decimal(g.dispatch_total as nat)
        + ",\"chosen_busy\":"@ + decimal(g.chosen_busy as nat) + ",\"bad_dispatch\":"@ + decimal(
        g.bad_dispatch as nat,
    ) + ",\"depth_hist\":{"@ + histogram(g.depth_hist@) + "}}"@
}

/// The dispatch ledger; `env` is what the environment says of the mode.
pub fn report_json(d: &mut Dispatch, env: Option<&str>) -> (r: String)
    ensures
        ({
            let m = match old(d).mode {
                Some(m) => m,
                None => mode_of_env(env),
            };
            &&& r@ == ledger(m, old(d).gauges)
            &&& *final(d) == (Dispatch { mode: Some(m), ..*old(d) })
        }),
{
    let m: DispatchMode = mode(d, env);
    let mut out: String = owned("{\"mode\":\"");
    out.append(mode_name(m));
    out.append("\",\"dispatch_total\":");
    push_decimal(&mut out, d.gauges.dispatch_total);
    out.append(",\"chosen_busy\":");
    push_decimal(&mut out, d.gauges.chosen_busy);
    out.append(",\"bad_dispatch\":");
    push_decimal(&mut out, d.gauges.bad_dispatch);
    out.append(",\"depth_hist\":{");
    let ghost head = out@;
    let ghost hist = d.gauges.depth_hist@;
    let mut i: usize = 0;
    assert(hist.take(0) =~= Seq::<u64>::empty());
    assert(head + histogram(hist.take(0)) =~= head);
    while i < DEPTH_BUCKETS
        invariant
            i <= DEPTH_BUCKETS,
            hist == d.gauges.depth_hist@,
            out@ == head + histogram(hist.take(i as int)),
        decreases DEPTH_BUCKETS - i,
    {
        if i > 0 {
            out.append(",");
        }
        out.append("\"");
        push_decimal(&mut out, i as u64);
        out.append("\":");
        push_decimal(&mut out, d.gauges.depth_hist[i]);
        proof {
            let t = hist.take(i + 1);
            assert(t.drop_last() =~= hist.take(i as int));
            assert(out@ =~= head + histogram(t));
        }
        i += 1;
    }
    assert(hist.take(i as int) =~= hist);
    out.append("}}");
    out
}

/// The histogram is the fields of an object: one for each class, named by its number.
pub proof fn histograms_are_fields(hist: Seq<u64>)
    ensures
        histogram(hist) == fields_text(
            Seq::new(hist.len(), |i: int| (decimal(i as nat), decimal(hist[i] as nat))),
        ),
    decreases hist.len(),
{
    let fs = Seq::new(hist.len(), |i: int| (decimal(i as nat), decimal(hist[i] as nat)));
    if hist.len() > 0 {
        let rest = hist.drop_last();
        let before = Seq::new(rest.len(), |i: int| (decimal(i as nat), decimal(rest[i] as nat)));
        histograms_are_fields(rest);
        assert(fs.drop_last() =~= before);
        reveal_strlit("");
        assert(""@ =~= Seq::<char>::empty());
    }
}

/// The ledger is an object of five fields: the name of the mode, the three counts, and the
/// histogram as an object of its own.
pub proof fn ledgers_are_objects(m: DispatchMode, g: Gauges)
    ensures
        ledger(m, g) == "{"@ + fields_text(
            seq![
                ("mode"@, "\""@ + name_of(m) + "\""@),
                ("dispatch_total"@, decimal(g.dispatch_total as nat)),
                ("chosen_busy"@, decimal(g.chosen_busy as nat)),
                ("bad_dispatch"@, decimal(g.bad_dispatch as nat)),
                ("depth_hist"@, "{"@ + histogram(g.depth_hist@) + "}"@),
            ],
        ) + "}"@,
{
    let f0 = ("mode"@, "\""@ + name_of(m) + "\""@);
    let f1 = ("dispatch_total"@, decimal(g.dispatch_total as nat));
    let f2 = ("chosen_busy"@, decimal(g.chosen_busy as nat));
    let f3 = ("bad_dispatch"@, decimal(g.bad_dispatch as nat));
    let f4 = ("depth_hist"@, "{"@ + histogram(g.depth_hist@) + "}"@);
    let a = seq![f0];
    let b = a.push(f1);
    let c = b.push(f2);
    let d = c.push(f3);
    let e = d.push(f4);
    assert(e =~= seq![f0, f1, f2, f3, f4]);
    assert(b.drop_last() =~= a && c.drop_last() =~= b && d.drop_last() =~= c && e.drop_last()
        =~= d);
    fields_are_written_in_a_row(a, a);
    reveal_strlit("{");
    reveal_strlit("}");
    reveal_strlit("}}");
    reveal_strlit(",");
    reveal_strlit("\"");
    reveal_strlit("\":");
    reveal_strlit("mode");
    reveal_strlit("dispatch_total");
    reveal_strlit("chosen_busy");
    reveal_strlit("bad_dispatch");
    reveal_strlit("depth_hist");
    reveal_strlit("{\"mode\":\"");
    reveal_strlit("\",\"dispatch_total\":");
    reveal_strlit(",\"chosen_busy\":");
    reveal_strlit(",\"bad_dispatch\":");
    reveal_strlit(",\"depth_hist\":{");
    assert("{\"mode\":\""@ =~= "{"@ + "\""@ + "mode"@ + "\":"@ + "\""@);
    assert("\",\"dispatch_total\":"@ =~= "\""@ + ","@ + "\""@ + "dispatch_total"@ + "\":"@);
    assert(",\"chosen_busy\":"@ =~= ","@ + "\""@ + "chosen_busy"@ + "\":"@);
    assert(",\"bad_dispatch\":"@ =~= ","@ + "\""@ + "bad_dispatch"@ + "\":"@);
    assert(",\"depth_hist\":{"@ =~= ","@ + "\""@ + "depth_hist"@ + "\":"@ + "{"@);
    assert("}}"@ =~= "}"@ + "}"@);
    let ta = fields_text(a);
    let tb = fields_text(b);
    let tc = fields_text(c);
    let td = fields_text(d);
    let te = fields_text(e);
    assert("{"@ + ta + ","@ + "\""@ + "dispatch_total"@ + "\":"@ =~= "{\"mode\":\""@ + name_of(m)
        + "\",\"dispatch_total\":"@);
    let lb = "{\"mode\":\""@ + name_of(m) + "\",\"dispatch_total\":"@ + f1.1;
    assert("{"@ + tb =~= lb);
    let lc = lb + ",\"chosen_busy\":"@ + f2.1;
    assert("{"@ + tc =~= lc);
    let ld = lc + ",\"bad_dispatch\":"@ + f3.1;
    assert("{"@ + td =~= ld);
    assert("{"@ + te + "}"@ =~= ld + ",\"depth_hist\":{"@ + histogram(g.depth_hist@) + "}}"@);
}

} // verus!
