//! Pins: under sticky dispatch a connection keeps the worker it was first given.
use std::collections::HashMap;

use vstd::prelude::*;

use crate::dispatch::{
    no_pins, Dispatch, Pins, Sticky, MAX_WORKERS, STICKY_SHARDS, STICKY_SHARD_MAX,
};
use crate::text::{decimal, owned, push_decimal};

verus! {

/// The shard of `key`.
pub open spec fn shard_of(key: u64) -> int {
    (key % 16) as int
}

/// The worker that `key` is pinned to.
pub open spec fn pinned(pins: Map<u64, u8>, key: u64) -> Option<u8> {
    if pins.contains_key(key) {
        Some(pins[key])
    } else {
        None
    }
}

/// The keys that are pinned to `w`.
pub open spec fn keys_on(pins: Map<u64, u8>, w: int) -> Set<u64> {
    pins.dom().filter(|key: u64| pins[key] == w)
}

/// The number of pins on `w`.
pub open spec fn count(pins: Map<u64, u8>, w: int) -> nat {
    keys_on(pins, w).len()
}

/// The number of pins on `w` in all shards.
pub open spec fn tally(shards: Seq<Map<u64, u8>>, w: int) -> nat
    decreases shards.len(),
{
    if shards.len() == 0 {
        0
    } else {
        tally(shards.drop_last(), w) + count(shards.last(), w)
    }
}

/// The counts with one more pin on `w`.
pub open spec fn counted(counts: Seq<usize>, w: int) -> Seq<usize> {
    counts.update(w, counts[w].wrapping_add(1))
}

/// The counts with one pin less on `w`.
pub open spec fn uncounted(counts: Seq<usize>, w: int) -> Seq<usize> {
    if w < MAX_WORKERS {
        counts.update(w, counts[w].wrapping_sub(1))
    } else {
        counts
    }
}

/// `c` counted down `n` times.
pub open spec fn down(c: usize, n: nat) -> usize
    decreases n,
{
    if n == 0 {
        c
    } else {
        down(c, (n - 1) as nat).wrapping_sub(1)
    }
}

/// The counts without any of `pins`.
pub open spec fn all_uncounted(counts: Seq<usize>, pins: Map<u64, u8>) -> Seq<usize> {
    Seq::new(counts.len(), |w: int| down(counts[w], count(pins, w)))
}

/// Whether worker `a` takes the next connection rather than `b`: fewer pins, then
/// fewer requests in flight, then the lower number.
pub open spec fn before(counts: Seq<usize>, depth: Seq<usize>, a: int, b: int) -> bool {
    ||| counts[a] < counts[b]
    ||| counts[a] == counts[b] && depth[a] < depth[b]
    ||| counts[a] == counts[b] && depth[a] == depth[b] && a < b
}

/// The worker that takes the next connection of the first `len` workers.
pub open spec fn fewest(counts: Seq<usize>, depth: Seq<usize>, len: int) -> int
    decreases len,
{
    if len <= 1 {
        0
    } else {
        let b = fewest(counts, depth, len - 1);
        if before(counts, depth, len - 1, b) {
            len - 1
        } else {
            b
        }
    }
}

/// The choice is a worker of the fleet, and no other worker comes before it.
pub proof fn fewest_is_least(counts: Seq<usize>, depth: Seq<usize>, len: int)
    requires
        len >= 1,
    ensures
        0 <= fewest(counts, depth, len) < len,
        forall|i: int|
            0 <= i < len && i != fewest(counts, depth, len) ==> #[trigger] before(
                counts,
                depth,
                fewest(counts, depth, len),
                i,
            ),
    decreases len,
{
    if len > 1 {
        fewest_is_least(counts, depth, len - 1);
        let b = fewest(counts, depth, len - 1);
        let f = fewest(counts, depth, len);
        assert forall|i: int| 0 <= i < len && i != f implies #[trigger] before(
            counts,
            depth,
            f,
            i,
        ) by {
            if i != b && i < len - 1 {
                assert(before(counts, depth, b, i));
            }
        }
    }
}

/// The fleet as far as it has gauges.
pub open spec fn gauged(n: usize) -> int {
    if n < MAX_WORKERS { n as int } else { MAX_WORKERS as int }
}

/// The pins after a connection was found where it was pinned.
pub open spec fn hit(p: Pins) -> Pins {
    Pins { hits: p.hits.wrapping_add(1), ..p }
}

/// The pins with room for one more in the shard of `key`: a full shard is cleared and
/// its pins are taken off the counts.
pub open spec fn with_room(p: Pins, key: u64) -> Pins {
    let shard = p.shards[shard_of(key)];
    if shard.len() >= STICKY_SHARD_MAX {
        Pins {
            shards: p.shards.update(shard_of(key), Map::empty()),
            counts: all_uncounted(p.counts, shard),
            evicted: p.evicted.wrapping_add(shard.len() as u64),
            ..p
        }
    } else {
        p
    }
}

/// The shards with `key` pinned to `worker`, in place of what it was pinned to.
pub open spec fn with_pin(shards: Seq<Map<u64, u8>>, key: u64, worker: u8) -> Seq<Map<u64, u8>> {
    shards.update(shard_of(key), shards[shard_of(key)].insert(key, worker))
}

/// The pins after `key` was pinned anew, with a full shard cleared first.
pub open spec fn assigned(p: Pins, depth: Seq<usize>, key: u64, n: usize) -> Pins {
    let w = fewest(p.counts, depth, gauged(n));
    let q = with_room(p, key);
    Pins {
        shards: with_pin(q.shards, key, w as u8),
        counts: counted(
            match pinned(q.shards[shard_of(key)], key) {
                Some(prev) => uncounted(q.counts, prev as int),
                None => q.counts,
            },
            w,
        ),
        misses: p.misses.wrapping_add(1),
        ..q
    }
}

/// The pins after the worker of `key` was asked for in a fleet of `n`: where it is pinned
/// within the fleet it stays, and else it is pinned anew.
pub open spec fn looked_up(p: Pins, depth: Seq<usize>, key: u64, n: usize) -> Pins {
    match pinned(p.shards[shard_of(key)], key) {
        Some(v) if v < gauged(n) => hit(p),
        _ => assigned(p, depth, key, n),
    }
}

/// The last gauge stands for all workers past it.
pub open spec fn last_gauge(w: usize) -> int {
    if w < MAX_WORKERS { w as int } else { MAX_WORKERS - 1 }
}

/// The pins after a look at `key` that puts `prior` back if the pin was cleared, with a
/// full shard cleared first.
pub open spec fn reread(p: Pins, key: u64, prior: usize) -> Pins {
    if pinned(p.shards[shard_of(key)], key) is Some {
        p
    } else {
        let q = with_room(p, key);
        Pins {
            shards: with_pin(q.shards, key, prior as u8),
            counts: counted(q.counts, last_gauge(prior)),
            ..q
        }
    }
}

/// The pins after `key` moved from `from` to `to`; nothing moves if it is not pinned
/// to `from`.
pub open spec fn repinned(p: Pins, key: u64, from: usize, to: usize) -> Pins {
    if pinned(p.shards[shard_of(key)], key) == Some(from as u8) {
        Pins {
            shards: with_pin(p.shards, key, to as u8),
            counts: counted(uncounted(p.counts, last_gauge(from)), last_gauge(to)),
            ..p
        }
    } else {
        p
    }
}

/// A shard holds no more pins than it may, each with a key of its shard and on a worker
/// with a gauge.
pub open spec fn shard_ok(pins: Map<u64, u8>, s: int) -> bool {
    &&& pins.dom().finite()
    &&& pins.len() <= STICKY_SHARD_MAX
    &&& forall|key: u64| #[trigger]
        pins.contains_key(key) ==> shard_of(key) == s && pins[key] < MAX_WORKERS
}

/// Every shard is in order, and the counts say how many pins each worker has.
pub open spec fn books(p: Pins) -> bool {
    &&& p.shards.len() == STICKY_SHARDS
    &&& p.counts.len() == MAX_WORKERS
    &&& forall|s: int| 0 <= s < STICKY_SHARDS ==> shard_ok(#[trigger] p.shards[s], s)
    &&& forall|w: int| 0 <= w < MAX_WORKERS ==> #[trigger] p.counts[w] == tally(p.shards, w)
}

proof fn lemma_count_insert(pins: Map<u64, u8>, key: u64, worker: u8, w: int)
    requires
        pins.dom().finite(),
    ensures
        pins.insert(key, worker).dom().finite(),
        keys_on(pins, w).finite(),
        count(pins.insert(key, worker), w) == count(pins, w) - (if pins.contains_key(key)
            && pins[key] == w {
            1int
        } else {
            0
        }) + (if worker == w {
            1int
        } else {
            0
        }),
{
    let a = keys_on(pins, w);
    let b = keys_on(pins.insert(key, worker), w);
    let rest = a.remove(key);
    vstd::set_lib::lemma_set_subset_finite(pins.dom(), a);
    if worker == w {
        assert(b =~= rest.insert(key));
    } else {
        assert(b =~= rest);
    }
}

proof fn lemma_count_bound(pins: Map<u64, u8>, w: int)
    requires
        pins.dom().finite(),
    ensures
        count(pins, w) <= pins.len(),
{
    vstd::set_lib::lemma_len_subset(keys_on(pins, w), pins.dom());
}

proof fn lemma_count_empty(w: int)
    ensures
        count(Map::<u64, u8>::empty(), w) == 0,
{
    assert(keys_on(Map::<u64, u8>::empty(), w) =~= Set::empty());
}

proof fn lemma_down(c: usize, n: nat)
    requires
        n <= c,
    ensures
        down(c, n) == c - n,
    decreases n,
{
    if n > 0 {
        lemma_down(c, (n - 1) as nat);
    }
}

proof fn lemma_none_counted(counts: Seq<usize>, pins: Map<u64, u8>)
    ensures
        forall|ks: Seq<u64>|
            all_uncounted(counts, pins.restrict((#[trigger] ks.take(0)).to_set())) == counts,
{
    assert forall|ks: Seq<u64>|
        all_uncounted(counts, pins.restrict((#[trigger] ks.take(0)).to_set())) == counts by {
        let none = pins.restrict(ks.take(0).to_set());
        assert(none =~= Map::<u64, u8>::empty());
        assert forall|w: int| 0 <= w < counts.len() implies all_uncounted(counts, none)[w]
            == counts[w] by {
            lemma_count_empty(w);
        }
        assert(all_uncounted(counts, none) =~= counts);
    }
}

proof fn lemma_all_walked(pins: Map<u64, u8>)
    ensures
        forall|ks: Seq<u64>, i: int|
            i == ks.len() && ks.to_set() == pins.dom() ==> pins.restrict(
                (#[trigger] ks.take(i)).to_set(),
            ) == pins,
{
    assert forall|ks: Seq<u64>, i: int| i == ks.len() && ks.to_set() == pins.dom() implies pins.restrict(
        (#[trigger] ks.take(i)).to_set(),
    ) == pins by {
        assert(ks.take(i) =~= ks);
        assert(pins.restrict(pins.dom()) =~= pins);
    }
}

proof fn lemma_one_more(pins: Map<u64, u8>, ks: Seq<u64>, i: int)
    requires
        0 <= i < ks.len(),
        ks.no_duplicates(),
        ks.to_set() == pins.dom(),
        pins.dom().finite(),
    ensures
        pins.contains_key(ks[i]),
        pins.restrict(ks.take(i).to_set()).dom().finite(),
        !pins.restrict(ks.take(i).to_set()).contains_key(ks[i]),
        pins.restrict(ks.take(i + 1).to_set()) == pins.restrict(ks.take(i).to_set()).insert(
            ks[i],
            pins[ks[i]],
        ),
{
    let a = ks.take(i);
    let b = ks.take(i + 1);
    assert(ks.to_set().contains(ks[i]));
    assert(!a.contains(ks[i]));
    assert(b =~= a.push(ks[i]));
    assert(b[i] == ks[i]);
    assert forall|key: u64| b.contains(key) == (a.contains(key) || key == ks[i]) by {
        if a.contains(key) {
            let j = choose|j: int| 0 <= j < a.len() && a[j] == key;
            assert(b[j] == key);
        }
        if b.contains(key) && key != ks[i] {
            let j = choose|j: int| 0 <= j < b.len() && b[j] == key;
            assert(a[j] == key);
        }
    }
    assert(pins.restrict(b.to_set()) =~= pins.restrict(a.to_set()).insert(ks[i], pins[ks[i]]));
    vstd::set_lib::lemma_set_subset_finite(pins.dom(), pins.restrict(a.to_set()).dom());
}

proof fn lemma_uncount_one(counts: Seq<usize>, pins: Map<u64, u8>, key: u64, worker: u8)
    requires
        counts.len() == MAX_WORKERS,
        pins.dom().finite(),
        !pins.contains_key(key),
    ensures
        all_uncounted(counts, pins.insert(key, worker)) == uncounted(
            all_uncounted(counts, pins),
            worker as int,
        ),
{
    let a = all_uncounted(counts, pins.insert(key, worker));
    let b = uncounted(all_uncounted(counts, pins), worker as int);
    assert forall|w: int| 0 <= w < counts.len() implies a[w] == b[w] by {
        lemma_count_insert(pins, key, worker, w);
    }
    assert(a =~= b);
}

proof fn lemma_tally_update(shards: Seq<Map<u64, u8>>, i: int, t: Map<u64, u8>, w: int)
    requires
        0 <= i < shards.len(),
    ensures
        tally(shards.update(i, t), w) == tally(shards, w) - count(shards[i], w) + count(t, w),
        count(shards[i], w) <= tally(shards, w),
    decreases shards.len(),
{
    if i == shards.len() - 1 {
        assert(shards.update(i, t).drop_last() =~= shards.drop_last());
    } else {
        lemma_tally_update(shards.drop_last(), i, t, w);
        assert(shards.update(i, t).drop_last() =~= shards.drop_last().update(i, t));
    }
}

proof fn lemma_tally_bound(shards: Seq<Map<u64, u8>>, w: int)
    requires
        forall|s: int| 0 <= s < shards.len() ==> shard_ok(#[trigger] shards[s], s),
    ensures
        tally(shards, w) <= STICKY_SHARD_MAX * shards.len(),
    decreases shards.len(),
{
    if shards.len() > 0 {
        let rest = shards.drop_last();
        assert forall|s: int| 0 <= s < rest.len() implies shard_ok(#[trigger] rest[s], s) by {
            assert(rest[s] == shards[s]);
        }
        lemma_tally_bound(rest, w);
        assert(shard_ok(shards[shards.len() - 1], shards.len() - 1));
        lemma_count_bound(shards.last(), w);
        assert(STICKY_SHARD_MAX * shards.len() == STICKY_SHARD_MAX * rest.len()
            + STICKY_SHARD_MAX) by (nonlinear_arith)
            requires
                shards.len() == rest.len() + 1,
        ;
    }
}

proof fn lemma_tally_empty(shards: Seq<Map<u64, u8>>, w: int)
    requires
        forall|i: int| 0 <= i < shards.len() ==> (#[trigger] shards[i]) == Map::<u64, u8>::empty(),
    ensures
        tally(shards, w) == 0,
    decreases shards.len(),
{
    if shards.len() > 0 {
        lemma_tally_empty(shards.drop_last(), w);
        lemma_count_empty(w);
    }
}

/// The pins with every one of them forgotten.
pub open spec fn emptied(p: Pins) -> Pins {
    Pins { shards: no_pins().shards, counts: no_pins().counts, ..p }
}

proof fn lemma_emptied(p: Pins)
    ensures
        books(emptied(p)),
{
    let q = emptied(p);
    assert forall|w: int| 0 <= w < MAX_WORKERS implies #[trigger] q.counts[w] == tally(
        q.shards,
        w,
    ) by {
        lemma_tally_empty(q.shards, w);
    }
}

/// Making room keeps the books, and there is room.
proof fn lemma_with_room(p: Pins, key: u64)
    requires
        books(p),
    ensures
        books(with_room(p, key)),
        with_room(p, key).shards[shard_of(key)].len() < STICKY_SHARD_MAX,
{
    let s = shard_of(key);
    let shard = p.shards[s];
    let q = with_room(p, key);
    assert(shard_ok(shard, s));
    if shard.len() >= STICKY_SHARD_MAX {
        assert forall|w: int| 0 <= w < MAX_WORKERS implies #[trigger] q.counts[w] == tally(
            q.shards,
            w,
        ) by {
            lemma_tally_update(p.shards, s, Map::empty(), w);
            lemma_count_empty(w);
            assert(p.counts[w] == tally(p.shards, w));
            lemma_down(p.counts[w], count(shard, w));
        }
        assert forall|t: int| 0 <= t < STICKY_SHARDS implies shard_ok(
            #[trigger] q.shards[t],
            t,
        ) by {
            if t != s {
                assert(q.shards[t] == p.shards[t]);
            }
        }
    }
}

/// Setting a pin where there is room for it, or moving one, keeps the books when it is
/// counted on its worker and no longer on the one that it leaves.
proof fn lemma_with_pin(p: Pins, key: u64, worker: u8, q: Pins)
    requires
        books(p),
        worker < MAX_WORKERS,
        p.shards[shard_of(key)].len() < STICKY_SHARD_MAX || pinned(
            p.shards[shard_of(key)],
            key,
        ) is Some,
        q.shards == with_pin(p.shards, key, worker),
        q.counts == counted(
            match pinned(p.shards[shard_of(key)], key) {
                Some(prev) => uncounted(p.counts, prev as int),
                None => p.counts,
            },
            worker as int,
        ),
    ensures
        books(q),
{
    let s = shard_of(key);
    let shard = p.shards[s];
    assert(shard_ok(shard, s));
    let t = shard.insert(key, worker);
    lemma_count_insert(shard, key, worker, 0);
    assert(t.dom() =~= shard.dom().insert(key));
    assert(shard_ok(t, s));
    assert forall|w: int| 0 <= w < MAX_WORKERS implies #[trigger] q.counts[w] == tally(
        q.shards,
        w,
    ) by {
        lemma_tally_update(p.shards, s, t, w);
        lemma_tally_bound(p.shards, w);
        lemma_count_insert(shard, key, worker, w);
        assert(p.counts[w] == tally(p.shards, w));
        if let Some(prev) = pinned(shard, key) {
            lemma_tally_update(p.shards, s, t, prev as int);
            assert(p.counts[prev as int] == tally(p.shards, prev as int));
            lemma_tally_bound(p.shards, worker as int);
            assert(p.counts[worker as int] == tally(p.shards, worker as int));
            assert(keys_on(shard, prev as int).contains(key));
            lemma_count_insert(shard, key, worker, prev as int);
        }
    }
    assert forall|t: int| 0 <= t < STICKY_SHARDS implies shard_ok(#[trigger] q.shards[t], t) by {
        if t != s {
            assert(q.shards[t] == p.shards[t]);
        }
    }
}

/// One call on the pins.
pub ghost enum PinStep {
    /// The worker of `key` is asked for, with `depth` requests in flight on each worker.
    Lookup { depth: Seq<usize>, key: u64, n: usize },
    /// The pin of `key` is looked at after a wait.
    Reread { key: u64, prior: usize },
    /// The pin of `key` is moved.
    Repin { key: u64, from: usize, to: usize },
}

impl PinStep {
    /// Whether the workers that the step names have a gauge of their own.
    pub open spec fn in_range(self) -> bool {
        match self {
            PinStep::Lookup { depth, key, n } => true,
            PinStep::Reread { key, prior } => prior < MAX_WORKERS,
            PinStep::Repin { key, from, to } => from < MAX_WORKERS && to < MAX_WORKERS,
        }
    }
}

/// The pins after one step.
pub open spec fn stepped(p: Pins, step: PinStep) -> Pins {
    match step {
        PinStep::Lookup { depth, key, n } => looked_up(p, depth, key, n),
        PinStep::Reread { key, prior } => reread(p, key, prior),
        PinStep::Repin { key, from, to } => repinned(p, key, from, to),
    }
}

/// The pins after `steps`, one after the other.
pub open spec fn after_steps(p: Pins, steps: Seq<PinStep>) -> Pins
    decreases steps.len(),
{
    if steps.len() == 0 {
        p
    } else {
        stepped(after_steps(p, steps.drop_last()), steps.last())
    }
}

/// Every call on the pins keeps the books, and with them the bound on every shard.
pub proof fn books_are_kept(p: Pins, step: PinStep)
    requires
        books(p),
        step.in_range(),
    ensures
        books(stepped(p, step)),
        books(emptied(p)),
{
    lemma_emptied(p);
    match step {
        PinStep::Lookup { depth, key, n } => {
            let w = fewest(p.counts, depth, gauged(n));
            if gauged(n) >= 1 {
                fewest_is_least(p.counts, depth, gauged(n));
            }
            lemma_with_room(p, key);
            match pinned(p.shards[shard_of(key)], key) {
                Some(v) if v < gauged(n) => {},
                _ => lemma_with_pin(
                    with_room(p, key),
                    key,
                    w as u8,
                    assigned(p, depth, key, n),
                ),
            }
        },
        PinStep::Reread { key, prior } => {
            if pinned(p.shards[shard_of(key)], key) is None {
                lemma_with_room(p, key);
                let q = with_room(p, key);
                assert(pinned(q.shards[shard_of(key)], key) is None);
                lemma_with_pin(q, key, prior as u8, reread(p, key, prior));
            }
        },
        PinStep::Repin { key, from, to } => {
            if pinned(p.shards[shard_of(key)], key) == Some(from as u8) {
                lemma_with_pin(p, key, to as u8, repinned(p, key, from, to));
            }
        },
    }
}

/// After any calls in any order the books are in order still: no shard ever holds more
/// pins than it may.
pub proof fn every_run_keeps_the_books(p: Pins, steps: Seq<PinStep>)
    requires
        books(p),
        forall|i: int| 0 <= i < steps.len() ==> (#[trigger] steps[i]).in_range(),
    ensures
        books(after_steps(p, steps)),
    decreases steps.len(),
{
    if steps.len() > 0 {
        assert(steps[steps.len() - 1].in_range());
        assert forall|i: int| 0 <= i < steps.len() - 1 implies (
        #[trigger] steps.drop_last()[i]).in_range() by {
            assert(steps[i].in_range());
        }
        every_run_keeps_the_books(p, steps.drop_last());
        books_are_kept(after_steps(p, steps.drop_last()), steps.last());
    }
}

/// The sum of the first `n` counts.
pub open spec fn sum(counts: Seq<usize>, n: int) -> nat
    decreases n,
{
    if n <= 0 {
        0
    } else {
        sum(counts, n - 1) + counts[n - 1] as nat
    }
}

/// The keys that are pinned, whatever the worker.
pub open spec fn pinned_keys(p: Pins) -> Set<u64> {
    Set::new(|key: u64| p.shards[shard_of(key)].contains_key(key))
}

/// The keys that are pinned to `w`.
pub open spec fn pinned_keys_on(p: Pins, w: int) -> Set<u64> {
    Set::new(|key: u64| pinned(p.shards[shard_of(key)], key) == Some(w as u8))
}

/// The keys of the first `n` shards.
spec fn keys_below(parts: Seq<Set<u64>>, n: int) -> Set<u64> {
    Set::new(|key: u64| shard_of(key) < n && parts[shard_of(key)].contains(key))
}

spec fn sizes(parts: Seq<Set<u64>>, n: int) -> nat
    decreases n,
{
    if n <= 0 {
        0
    } else {
        sizes(parts, n - 1) + parts[n - 1].len()
    }
}

/// Sets of keys of different shards add up.
proof fn lemma_keys_below(parts: Seq<Set<u64>>, n: int)
    requires
        0 <= n <= parts.len() <= STICKY_SHARDS,
        forall|s: int| 0 <= s < parts.len() ==> (#[trigger] parts[s]).finite(),
        forall|s: int, key: u64|
            0 <= s < parts.len() && #[trigger] parts[s].contains(key) ==> shard_of(key) == s,
    ensures
        keys_below(parts, n).finite(),
        keys_below(parts, n).len() == sizes(parts, n),
    decreases n,
{
    if n <= 0 {
        assert(keys_below(parts, n) =~= Set::empty());
    } else {
        lemma_keys_below(parts, n - 1);
        let a = keys_below(parts, n - 1);
        let b = parts[n - 1];
        assert(b.finite());
        assert forall|key: u64| #[trigger]
            keys_below(parts, n).contains(key) == (a.contains(key) || b.contains(key)) by {
            if b.contains(key) {
                assert(parts[n - 1].contains(key));
            }
        }
        assert(keys_below(parts, n) =~= a.union(b));
        assert(a.disjoint(b)) by {
            assert forall|key: u64| a.contains(key) implies !b.contains(key) by {
                if b.contains(key) {
                    assert(parts[n - 1].contains(key));
                }
            }
        }
        vstd::set_lib::lemma_set_disjoint_lens(a, b);
    }
}

proof fn lemma_entries_are_sizes(shards: Seq<Map<u64, u8>>, parts: Seq<Set<u64>>, n: int)
    requires
        0 <= n <= shards.len() == parts.len(),
        forall|s: int| 0 <= s < shards.len() ==> #[trigger] parts[s] == shards[s].dom(),
    ensures
        entries(shards.take(n)) == sizes(parts, n),
    decreases n,
{
    if n > 0 {
        lemma_entries_are_sizes(shards, parts, n - 1);
        assert(shards.take(n).drop_last() =~= shards.take(n - 1));
        assert(parts[n - 1] == shards[n - 1].dom());
    }
}

proof fn lemma_tally_is_sizes(shards: Seq<Map<u64, u8>>, w: int, parts: Seq<Set<u64>>, n: int)
    requires
        0 <= n <= shards.len() == parts.len(),
        forall|s: int| 0 <= s < shards.len() ==> #[trigger] parts[s] == keys_on(shards[s], w),
    ensures
        tally(shards.take(n), w) == sizes(parts, n),
    decreases n,
{
    if n > 0 {
        lemma_tally_is_sizes(shards, w, parts, n - 1);
        assert(shards.take(n).drop_last() =~= shards.take(n - 1));
        assert(parts[n - 1] == keys_on(shards[n - 1], w));
    }
}

/// The number of pins of a shard on the first `n` workers.
spec fn counts_below(pins: Map<u64, u8>, n: int) -> nat
    decreases n,
{
    if n <= 0 {
        0
    } else {
        counts_below(pins, n - 1) + count(pins, n - 1)
    }
}

proof fn lemma_counts_below(pins: Map<u64, u8>, n: int)
    requires
        pins.dom().finite(),
        0 <= n,
    ensures
        pins.dom().filter(|key: u64| pins[key] < n).finite(),
        counts_below(pins, n) == pins.dom().filter(|key: u64| pins[key] < n).len(),
    decreases n,
{
    let all = pins.dom().filter(|key: u64| pins[key] < n);
    vstd::set_lib::lemma_set_subset_finite(pins.dom(), all);
    if n == 0 {
        assert(all =~= Set::empty());
    } else {
        lemma_counts_below(pins, n - 1);
        let a = pins.dom().filter(|key: u64| pins[key] < n - 1);
        let b = keys_on(pins, n - 1);
        vstd::set_lib::lemma_set_subset_finite(pins.dom(), b);
        assert(all =~= a.union(b));
        assert(a.disjoint(b));
        vstd::set_lib::lemma_set_disjoint_lens(a, b);
    }
}

/// The pins of all shards on the first `n` workers.
spec fn tallies_below(shards: Seq<Map<u64, u8>>, n: int) -> nat
    decreases n,
{
    if n <= 0 {
        0
    } else {
        tallies_below(shards, n - 1) + tally(shards, n - 1)
    }
}

proof fn lemma_tallies_split(shards: Seq<Map<u64, u8>>, n: int)
    requires
        0 <= n,
    ensures
        shards.len() == 0 ==> tallies_below(shards, n) == 0,
        shards.len() > 0 ==> tallies_below(shards, n) == tallies_below(shards.drop_last(), n)
            + counts_below(shards.last(), n),
    decreases n,
{
    if n > 0 {
        lemma_tallies_split(shards, n - 1);
    }
}

proof fn lemma_tallies_are_entries(shards: Seq<Map<u64, u8>>)
    requires
        forall|s: int| 0 <= s < shards.len() ==> shard_ok(#[trigger] shards[s], s),
    ensures
        tallies_below(shards, MAX_WORKERS as int) == entries(shards),
    decreases shards.len(),
{
    lemma_tallies_split(shards, MAX_WORKERS as int);
    if shards.len() > 0 {
        let rest = shards.drop_last();
        let last = shards.last();
        assert forall|s: int| 0 <= s < rest.len() implies shard_ok(#[trigger] rest[s], s) by {
            assert(rest[s] == shards[s]);
        }
        lemma_tallies_are_entries(rest);
        assert(shard_ok(shards[shards.len() - 1], shards.len() - 1));
        lemma_counts_below(last, MAX_WORKERS as int);
        assert(last.dom().filter(|key: u64| last[key] < MAX_WORKERS as int) =~= last.dom());
    }
}

proof fn lemma_sum_of_tallies(p: Pins, n: int)
    requires
        books(p),
        0 <= n <= MAX_WORKERS,
    ensures
        sum(p.counts, n) == tallies_below(p.shards, n),
    decreases n,
{
    if n > 0 {
        lemma_sum_of_tallies(p, n - 1);
        assert(p.counts[n - 1] == tally(p.shards, n - 1));
    }
}

/// Where the books are in order, the number of entries is the number of keys that are
/// pinned and the sum of the counts, and each count is the number of keys that are pinned
/// to its worker.
pub proof fn counts_add_up(p: Pins, w: int)
    requires
        books(p),
        0 <= w < MAX_WORKERS,
    ensures
        entries(p.shards) == sum(p.counts, MAX_WORKERS as int),
        pinned_keys(p).finite(),
        entries(p.shards) == pinned_keys(p).len(),
        pinned_keys_on(p, w).finite(),
        p.counts[w] == pinned_keys_on(p, w).len(),
{
    let shards = p.shards;
    lemma_tallies_are_entries(shards);
    lemma_sum_of_tallies(p, MAX_WORKERS as int);
    assert(shards.take(STICKY_SHARDS as int) =~= shards);
    let doms = Seq::new(STICKY_SHARDS as nat, |s: int| shards[s].dom());
    let ons = Seq::new(STICKY_SHARDS as nat, |s: int| keys_on(shards[s], w));
    assert forall|s: int| 0 <= s < STICKY_SHARDS implies (#[trigger] doms[s]).finite() by {
        assert(shard_ok(shards[s], s));
    }
    assert forall|s: int, key: u64|
        0 <= s < STICKY_SHARDS && #[trigger] doms[s].contains(key) implies shard_of(key) == s by {
        assert(shard_ok(shards[s], s));
        assert(shards[s].contains_key(key));
    }
    assert forall|s: int| 0 <= s < STICKY_SHARDS implies (#[trigger] ons[s]).finite() by {
        assert(shard_ok(shards[s], s));
        vstd::set_lib::lemma_set_subset_finite(shards[s].dom(), ons[s]);
    }
    assert forall|s: int, key: u64|
        0 <= s < STICKY_SHARDS && #[trigger] ons[s].contains(key) implies shard_of(key) == s by {
        assert(shard_ok(shards[s], s));
        assert(shards[s].contains_key(key));
    }
    lemma_keys_below(doms, STICKY_SHARDS as int);
    lemma_keys_below(ons, STICKY_SHARDS as int);
    lemma_entries_are_sizes(shards, doms, STICKY_SHARDS as int);
    lemma_tally_is_sizes(shards, w, ons, STICKY_SHARDS as int);
    assert(keys_below(doms, STICKY_SHARDS as int) =~= pinned_keys(p));
    assert forall|key: u64| #[trigger]
        keys_below(ons, STICKY_SHARDS as int).contains(key) == pinned_keys_on(p, w).contains(
            key,
        ) by {
        let s = shard_of(key);
        assert(ons[s] == keys_on(shards[s], w));
        assert(shard_ok(shards[s], s));
    }
    assert(keys_below(ons, STICKY_SHARDS as int) =~= pinned_keys_on(p, w));
    assert(p.counts[w] == tally(p.shards, w));
}

/// Once every pin is forgotten, whatever calls follow: the number of entries is the
/// number of keys that are pinned and the sum of the counts, and each count is the number
/// of keys that are pinned to its worker.
pub proof fn counts_add_up_after_every_run(p: Pins, steps: Seq<PinStep>, w: int)
    requires
        forall|i: int| 0 <= i < steps.len() ==> (#[trigger] steps[i]).in_range(),
        0 <= w < MAX_WORKERS,
    ensures
        ({
            let q = after_steps(emptied(p), steps);
            &&& entries(q.shards) == sum(q.counts, MAX_WORKERS as int)
            &&& entries(q.shards) == pinned_keys(q).len()
            &&& q.counts[w] == pinned_keys_on(q, w).len()
            &&& forall|s: int|
                0 <= s < STICKY_SHARDS ==> (#[trigger] q.shards[s]).len() <= STICKY_SHARD_MAX
        }),
{
    lemma_emptied(p);
    every_run_keeps_the_books(emptied(p), steps);
    let q = after_steps(emptied(p), steps);
    counts_add_up(q, w);
    assert forall|s: int| 0 <= s < STICKY_SHARDS implies (#[trigger] q.shards[s]).len()
        <= STICKY_SHARD_MAX by {
        assert(shard_ok(q.shards[s], s));
    }
}

/// No two of the first `n` workers are more than one pin apart.
pub open spec fn level(counts: Seq<usize>, n: int) -> bool {
    forall|a: int, b: int|
        0 <= a < n && 0 <= b < n ==> #[trigger] counts[a] <= #[trigger] counts[b] + 1
}

/// Pinning a new connection keeps the fleet level, as long as its shard is not full.
pub proof fn new_pins_stay_level(p: Pins, depth: Seq<usize>, key: u64, n: usize)
    requires
        books(p),
        n >= 1,
        p.shards[shard_of(key)].len() < STICKY_SHARD_MAX,
        pinned(p.shards[shard_of(key)], key) is None,
        level(p.counts, gauged(n)),
    ensures
        level(assigned(p, depth, key, n).counts, gauged(n)),
        sum(assigned(p, depth, key, n).counts, gauged(n)) == sum(p.counts, gauged(n)) + 1,
{
    let w = fewest(p.counts, depth, gauged(n));
    let q = assigned(p, depth, key, n);
    fewest_is_least(p.counts, depth, gauged(n));
    lemma_tally_bound(p.shards, w);
    assert(p.counts[w] == tally(p.shards, w));
    assert forall|a: int, b: int| 0 <= a < gauged(n) && 0 <= b < gauged(n) implies #[trigger] q.counts[a]
        <= #[trigger] q.counts[b] + 1 by {
        assert(p.counts[a] <= p.counts[b] + 1);
        if b != w {
            assert(before(p.counts, depth, w, b));
        }
    }
    lemma_sum_update(p.counts, w, q.counts[w], gauged(n));
}

proof fn lemma_sum_update(counts: Seq<usize>, w: int, c: usize, n: int)
    requires
        0 <= w < counts.len(),
        0 <= n <= counts.len(),
    ensures
        sum(counts.update(w, c), n) == sum(counts, n) + (if w < n {
            c - counts[w]
        } else {
            0
        }),
    decreases n,
{
    if n > 0 {
        lemma_sum_update(counts, w, c, n - 1);
    }
}

/// The number of `steps` with a key of shard `s`.
pub open spec fn keys_in_shard(steps: Seq<PinStep>, s: int) -> nat
    decreases steps.len(),
{
    if steps.len() == 0 {
        0
    } else {
        keys_in_shard(steps.drop_last(), s) + (if steps.last() is Lookup && shard_of(
            steps.last()->Lookup_key,
        ) == s {
            1nat
        } else {
            0
        })
    }
}

/// Whether `steps` ask for the workers of connections that are all different, in a fleet
/// of `n`.
pub open spec fn new_connections(steps: Seq<PinStep>, n: usize) -> bool {
    &&& forall|i: int|
        0 <= i < steps.len() ==> (#[trigger] steps[i] matches PinStep::Lookup { depth, key, n: m }
            && m == n)
    &&& forall|i: int, j: int|
        0 <= i < j < steps.len() ==> (#[trigger] steps[i])->Lookup_key != (
        #[trigger] steps[j])->Lookup_key
}

/// Once every pin is forgotten, connections that ask for a worker one after the other, in
/// whatever order, spread level over the fleet: no worker has two pins more than another,
/// and there are as many pins as connections, as long as no shard fills up.
pub proof fn new_connections_spread_level(p: Pins, steps: Seq<PinStep>, n: usize)
    requires
        n >= 1,
        new_connections(steps, n),
        forall|s: int|
            0 <= s < STICKY_SHARDS ==> #[trigger] keys_in_shard(steps, s) <= STICKY_SHARD_MAX,
    ensures
        level(after_steps(emptied(p), steps).counts, gauged(n)),
        sum(after_steps(emptied(p), steps).counts, gauged(n)) == steps.len(),
        entries(after_steps(emptied(p), steps).shards) == steps.len(),
{
    lemma_spread(p, steps, n);
    let q = after_steps(emptied(p), steps);
    counts_add_up(q, 0);
    lemma_sum_tail(q.counts, gauged(n), MAX_WORKERS as int);
}

proof fn lemma_sum_tail(counts: Seq<usize>, n: int, m: int)
    requires
        0 <= n <= m <= counts.len(),
        forall|w: int| n <= w < m ==> #[trigger] counts[w] == 0,
    ensures
        sum(counts, m) == sum(counts, n),
    decreases m - n,
{
    if n < m {
        lemma_sum_tail(counts, n, m - 1);
    }
}

proof fn lemma_spread(p: Pins, steps: Seq<PinStep>, n: usize)
    requires
        n >= 1,
        new_connections(steps, n),
        forall|s: int|
            0 <= s < STICKY_SHARDS ==> #[trigger] keys_in_shard(steps, s) <= STICKY_SHARD_MAX,
    ensures
        ({
            let q = after_steps(emptied(p), steps);
            &&& books(q)
            &&& level(q.counts, gauged(n))
            &&& sum(q.counts, gauged(n)) == steps.len()
            &&& forall|w: int| gauged(n) <= w < MAX_WORKERS ==> #[trigger] q.counts[w] == 0
            &&& forall|s: int|
                0 <= s < STICKY_SHARDS ==> (#[trigger] q.shards[s]).len() == keys_in_shard(steps, s)
            &&& forall|s: int, key: u64|
                0 <= s < STICKY_SHARDS && #[trigger] q.shards[s].contains_key(key) ==> exists|i: int|
                    0 <= i < steps.len() && (#[trigger] steps[i])->Lookup_key == key
        }),
    decreases steps.len(),
{
    lemma_emptied(p);
    if steps.len() == 0 {
        lemma_sum_of_none(emptied(p).counts, gauged(n));
    } else {
        let rest = steps.drop_last();
        let last = steps.last();
        let k = steps.len() - 1;
        assert(last == steps[k]);
        assert forall|i: int| 0 <= i < rest.len() implies (#[trigger] rest[i] matches PinStep::Lookup {
            depth,
            key,
            n: m,
        } && m == n) by {
            assert(rest[i] == steps[i]);
        }
        assert forall|i: int, j: int| 0 <= i < j < rest.len() implies (
        #[trigger] rest[i])->Lookup_key != (#[trigger] rest[j])->Lookup_key by {
            assert(rest[i] == steps[i] && rest[j] == steps[j]);
        }
        assert forall|s: int| 0 <= s < STICKY_SHARDS implies #[trigger] keys_in_shard(rest, s)
            <= STICKY_SHARD_MAX by {
            assert(keys_in_shard(rest, s) <= keys_in_shard(steps, s));
        }
        lemma_spread(p, rest, n);
        let q = after_steps(emptied(p), rest);
        let depth = last->depth;
        let key = last->Lookup_key;
        let s = shard_of(key);
        if q.shards[s].contains_key(key) {
            let i = choose|i: int| 0 <= i < rest.len() && (#[trigger] rest[i])->Lookup_key == key;
            assert(rest[i] == steps[i]);
            assert(steps[i]->Lookup_key != steps[k]->Lookup_key);
            assert(false);
        }
        assert(keys_in_shard(steps, s) == keys_in_shard(rest, s) + 1);
        assert(q.shards[s].len() == keys_in_shard(rest, s));
        new_pins_stay_level(q, depth, key, n);
        books_are_kept(q, last);
        let t = after_steps(emptied(p), steps);
        assert(t == assigned(q, depth, key, n));
        fewest_is_least(q.counts, depth, gauged(n));
        let w = fewest(q.counts, depth, gauged(n));
        assert forall|v: int| gauged(n) <= v < MAX_WORKERS implies #[trigger] t.counts[v] == 0 by {
            assert(q.counts[v] == 0);
        }
        assert(shard_ok(q.shards[s], s));
        assert(q.shards[s].insert(key, w as u8).dom() =~= q.shards[s].dom().insert(key));
        assert forall|x: int| 0 <= x < STICKY_SHARDS implies (#[trigger] t.shards[x]).len()
            == keys_in_shard(steps, x) by {
            assert(q.shards[x].len() == keys_in_shard(rest, x));
        }
        assert forall|x: int, y: u64|
            0 <= x < STICKY_SHARDS && #[trigger] t.shards[x].contains_key(y) implies exists|i: int|
            0 <= i < steps.len() && (#[trigger] steps[i])->Lookup_key == y by {
            if x == s && y == key {
                assert(steps[k]->Lookup_key == y);
            } else {
                assert(q.shards[x].contains_key(y));
                let i = choose|i: int| 0 <= i < rest.len() && (#[trigger] rest[i])->Lookup_key == y;
                assert(steps[i] == rest[i]);
            }
        }
    }
}

proof fn lemma_sum_of_none(counts: Seq<usize>, n: int)
    requires
        0 <= n <= counts.len(),
        forall|w: int| 0 <= w < counts.len() ==> #[trigger] counts[w] == 0,
    ensures
        sum(counts, n) == 0,
    decreases n,
{
    if n > 0 {
        lemma_sum_of_none(counts, n - 1);
    }
}

/// A pin that was just set or put back is found again, and moving a pin from where it is
/// not changes nothing.
pub proof fn pins_are_found_again(
    p: Pins,
    depth: Seq<usize>,
    key: u64,
    n: usize,
    from: usize,
    to: usize,
)
    requires
        p.shards.len() == STICKY_SHARDS,
    ensures
        pinned(assigned(p, depth, key, n).shards[shard_of(key)], key) == Some(
            fewest(p.counts, depth, gauged(n)) as u8,
        ),
        pinned(p.shards[shard_of(key)], key) is None ==> pinned(
            reread(p, key, from).shards[shard_of(key)],
            key,
        ) == Some(from as u8),
        pinned(p.shards[shard_of(key)], key) == Some(from as u8) ==> pinned(
            repinned(p, key, from, to).shards[shard_of(key)],
            key,
        ) == Some(to as u8),
        pinned(p.shards[shard_of(key)], key) != Some(from as u8) ==> repinned(p, key, from, to)
            == p,
{
}

/// A pin that goes in where there is room leaves no shard with more than it may hold.
proof fn lemma_room_is_kept(d: Dispatch, key: u64, worker: u8)
    requires
        d.wf(),
    ensures
        forall|s: int|
            0 <= s < STICKY_SHARDS ==> (#[trigger] with_pin(
                with_room(d.sticky@, key).shards,
                key,
                worker,
            )[s]).len() <= STICKY_SHARD_MAX,
        pinned(d.sticky@.shards[shard_of(key)], key) is Some ==> forall|s: int|
            0 <= s < STICKY_SHARDS ==> (#[trigger] with_pin(d.sticky@.shards, key, worker)[s]).len()
                <= STICKY_SHARD_MAX,
{
    broadcast use vstd::std_specs::hash::group_hash_axioms;

    let s = shard_of(key);
    let shard = d.sticky@.shards[s];
    assert(shard == d.sticky.shards@[s]@);
    assert(shard.insert(key, worker).dom() =~= shard.dom().insert(key));
    assert(Map::<u64, u8>::empty().insert(key, worker).dom() =~= Set::<u64>::empty().insert(key));
    assert forall|t: int| 0 <= t < STICKY_SHARDS implies d.sticky@.shards[t].len()
        <= STICKY_SHARD_MAX by {
        assert(d.sticky@.shards[t] == d.sticky.shards@[t]@);
    }
}

proof fn lemma_within_bounds(d: Dispatch)
    requires
        d.sticky@.shards.len() == STICKY_SHARDS,
        forall|s: int|
            0 <= s < STICKY_SHARDS ==> (#[trigger] d.sticky@.shards[s]).len() <= STICKY_SHARD_MAX,
    ensures
        d.wf(),
{
    assert forall|s: int| 0 <= s < STICKY_SHARDS implies (#[trigger] d.sticky.shards@[s])@.len()
        <= STICKY_SHARD_MAX by {
        assert(d.sticky@.shards[s] == d.sticky.shards@[s]@);
    }
}

/// Everything but the pins.
pub open spec fn same_but_pins(a: Dispatch, b: Dispatch) -> bool {
    &&& a.gauges == b.gauges
    &&& a.mode == b.mode
    &&& a.cap == b.cap
    &&& a.capped == b.capped
    &&& a.parked == b.parked
    &&& a.park_total == b.park_total
}

impl Sticky {
    /// Pins `key` to `worker` and hands out what it was pinned to; the counts are left to
    /// the caller.
    fn store(&mut self, key: u64, worker: u8) -> (prev: Option<u8>)
        requires
            old(self).shards@.len() == STICKY_SHARDS,
        ensures
            final(self).shards@.len() == STICKY_SHARDS,
            prev == pinned(old(self)@.shards[shard_of(key)], key),
            final(self)@ == (Pins { shards: with_pin(old(self)@.shards, key, worker), ..old(self)@ }),
    {
        broadcast use vstd::std_specs::hash::group_hash_axioms;

        let s: usize = (key % 16) as usize;
        let mut shard: HashMap<u64, u8> = HashMap::new();
        std::mem::swap(&mut shard, &mut self.shards[s]);
        let prev: Option<u8> = shard.insert(key, worker);
        self.shards.set(s, shard);
        assert(self@.shards =~= with_pin(old(self)@.shards, key, worker));
        prev
    }

    fn count_pin(&mut self, w: usize)
        requires
            w < MAX_WORKERS,
        ensures
            final(self).shards == old(self).shards,
            final(self)@ == (Pins { counts: counted(old(self)@.counts, w as int), ..old(self)@ }),
    {
        self.pin_counts[w] = self.pin_counts[w].wrapping_add(1);
    }

    fn uncount_pin(&mut self, w: usize)
        ensures
            final(self).shards == old(self).shards,
            final(self)@ == (Pins { counts: uncounted(old(self)@.counts, w as int), ..old(self)@ }),
    {
        if w < MAX_WORKERS {
            self.pin_counts[w] = self.pin_counts[w].wrapping_sub(1);
        }
    }

    fn lookup(&self, key: u64) -> (r: Option<u8>)
        requires
            self.shards@.len() == STICKY_SHARDS,
        ensures
            r == pinned(self@.shards[shard_of(key)], key),
    {
        broadcast use vstd::std_specs::hash::group_hash_axioms;

        let s: usize = (key % 16) as usize;
        match self.shards[s].get(&key) {
            Some(w) => Some(*w),
            None => None,
        }
    }

    /// Makes room in the shard of `key`: a full one is cleared and its pins are released.
    fn make_room(&mut self, key: u64)
        requires
            old(self).shards@.len() == STICKY_SHARDS,
        ensures
            final(self).shards@.len() == STICKY_SHARDS,
            final(self)@ == with_room(old(self)@, key),
    {
        broadcast use vstd::std_specs::hash::group_hash_axioms;

        let s: usize = (key % 16) as usize;
        if self.shards[s].len() < STICKY_SHARD_MAX {
            return;
        }
        let mut shard: HashMap<u64, u8> = HashMap::new();
        std::mem::swap(&mut shard, &mut self.shards[s]);
        assert(self@.shards =~= old(self)@.shards.update(shard_of(key), Map::empty()));
        self.evict_total = self.evict_total.wrapping_add(shard.len() as u64);
        let ghost cleared = *self;
        let ghost all = shard@;
        proof {
            lemma_none_counted(cleared@.counts, all);
        }
        for k in walk: shard.keys()
            invariant
                all == shard@,
                all.dom().finite(),
                walk.seq().unref().to_set() == all.dom(),
                walk.seq().no_duplicates(),
                self.shards == cleared.shards,
                self@ == (Pins {
                    counts: all_uncounted(
                        cleared@.counts,
                        all.restrict(walk.seq().unref().take(walk.index() as int).to_set()),
                    ),
                    ..cleared@
                }),
        {
            let ghost ks = walk.seq().unref();
            let ghost i = walk.index() as int;
            proof {
                assert(ks[i] == *k);
                assert(ks.to_set().contains(*k));
                lemma_one_more(all, ks, i);
            }
            if let Some(w) = shard.get(k) {
                self.uncount_pin(*w as usize);
                proof {
                    lemma_uncount_one(cleared@.counts, all.restrict(ks.take(i).to_set()), *k, *w);
                }
            }
        }
        proof {
            lemma_all_walked(all);
        }
    }
}

/// Counts a connection that sticky dispatch could not tell apart.
pub fn sticky_note_fallback(d: &mut Dispatch)
    ensures
        final(d).sticky@ == (Pins {
            fallbacks: old(d).sticky@.fallbacks.wrapping_add(1),
            ..old(d).sticky@
        }),
        same_but_pins(*old(d), *final(d)),
        old(d).wf() ==> final(d).wf(),
{
    d.sticky.fallback_total = d.sticky.fallback_total.wrapping_add(1);
}

/// Among the first `n` workers, the one with the fewest pins.
fn choose_worker(d: &Dispatch, n: usize) -> (w: usize)
    ensures
        w == fewest(d.sticky@.counts, d.gauges.in_flight@, gauged(n)),
        w < MAX_WORKERS,
        n >= 1 ==> w < n,
{
    let len: usize = if n < MAX_WORKERS {
        n
    } else {
        MAX_WORKERS
    };
    let mut best: usize = 0;
    let mut i: usize = 1;
    while i < len
        invariant
            1 <= i,
            len <= MAX_WORKERS,
            len == gauged(n),
            i <= len || len == 0,
            len == 0 ==> i == 1,
            best == fewest(d.sticky@.counts, d.gauges.in_flight@, i as int),
            best < MAX_WORKERS,
            best < i,
        decreases len - i,
    {
        let a: usize = d.sticky.pin_counts[i];
        let b: usize = d.sticky.pin_counts[best];
        let da: usize = d.gauges.in_flight[i];
        let db: usize = d.gauges.in_flight[best];
        if a < b || (a == b && da < db) {
            best = i;
        }
        i += 1;
    }
    best
}

/// The worker of the connection `key` in a fleet of `n`: the one it is pinned to, or
/// the one with the fewest pins, to which it is pinned from then on.
pub fn sticky_lookup_or_assign(d: &mut Dispatch, key: u64, n: usize) -> (w: usize)
    requires
        old(d).wf(),
    ensures
        w < 16,
        n > 0 ==> w < n,
        final(d).sticky@.shards[(key % 16) as int].contains_key(key),
        final(d).sticky@.shards[(key % 16) as int][key] == w,
        final(d).wf(),
        same_but_pins(*old(d), *final(d)),
        final(d).sticky@ == looked_up(old(d).sticky@, old(d).gauges.in_flight@, key, n),
        w == (match pinned(old(d).sticky@.shards[shard_of(key)], key) {
            Some(v) if v < gauged(n) => v as int,
            _ => fewest(old(d).sticky@.counts, old(d).gauges.in_flight@, gauged(n)),
        }),
{
    let len: usize = if n < MAX_WORKERS {
        n
    } else {
        MAX_WORKERS
    };
    if let Some(v) = d.sticky.lookup(key) {
        if (v as usize) < len {
            d.sticky.hit_total = d.sticky.hit_total.wrapping_add(1);
            return v as usize;
        }
    }
    d.sticky.miss_total = d.sticky.miss_total.wrapping_add(1);
    let w: usize = choose_worker(d, n);
    d.sticky.make_room(key);
    if let Some(prev) = d.sticky.store(key, w as u8) {
        d.sticky.uncount_pin(prev as usize);
    }
    d.sticky.count_pin(w);
    proof {
        let a = assigned(old(d).sticky@, old(d).gauges.in_flight@, key, n);
        assert(d.sticky@.shards =~= a.shards);
        assert(d.sticky@.counts =~= a.counts);
        lemma_room_is_kept(*old(d), key, w as u8);
        lemma_within_bounds(*d);
    }
    w
}

/// The worker of `key` after a wait: where it is pinned by now, or `prior`, which is
/// put back if the pin was cleared meanwhile.
pub fn sticky_reread(d: &mut Dispatch, key: u64, prior: usize) -> (w: usize)
    requires
        old(d).wf(),
    ensures
        final(d).sticky@.shards[(key % 16) as int].contains_key(key),
        w < 256 ==> final(d).sticky@.shards[(key % 16) as int][key] == w,
        old(d).sticky@.shards[(key % 16) as int].contains_key(key) ==> *final(d) == *old(d),
        final(d).wf(),
        same_but_pins(*old(d), *final(d)),
        final(d).sticky@ == reread(old(d).sticky@, key, prior),
        w == (match pinned(old(d).sticky@.shards[shard_of(key)], key) {
            Some(v) => v as usize,
            None => prior,
        }),
{
    match d.sticky.lookup(key) {
        Some(v) => v as usize,
        None => {
            d.sticky.make_room(key);
            let _none: Option<u8> = d.sticky.store(key, #[verifier::truncate] (prior as u8));
            let g: usize = if prior < MAX_WORKERS {
                prior
            } else {
                MAX_WORKERS - 1
            };
            d.sticky.count_pin(g);
            proof {
                lemma_room_is_kept(*old(d), key, prior as u8);
                lemma_within_bounds(*d);
            }
            prior
        },
    }
}

/// Moves the pin of `key` from `from` to `to`; a pin that is elsewhere stays.
pub fn sticky_repin(d: &mut Dispatch, key: u64, from: usize, to: usize)
    requires
        old(d).wf(),
    ensures
        final(d).wf(),
        same_but_pins(*old(d), *final(d)),
        final(d).sticky@ == repinned(old(d).sticky@, key, from, to),
{
    if let Some(v) = d.sticky.lookup(key) {
        if v == #[verifier::truncate] (from as u8) {
            let _from: Option<u8> = d.sticky.store(key, #[verifier::truncate] (to as u8));
            let f: usize = if from < MAX_WORKERS {
                from
            } else {
                MAX_WORKERS - 1
            };
            let t: usize = if to < MAX_WORKERS {
                to
            } else {
                MAX_WORKERS - 1
            };
            d.sticky.uncount_pin(f);
            d.sticky.count_pin(t);
            proof {
                lemma_room_is_kept(*old(d), key, to as u8);
                lemma_within_bounds(*d);
            }
        }
    }
}

/// The numbers of `counts`, with commas between them.
pub open spec fn listed(counts: Seq<usize>) -> Seq<char>
    decreases counts.len(),
{
    if counts.len() == 0 {
        Seq::empty()
    } else if counts.len() == 1 {
        decimal(counts[0] as nat)
    } else {
        listed(counts.drop_last()) + ","@ + decimal(counts.last() as nat)
    }
}

/// The pins on each of the first `n` workers, as a JSON list.
pub fn sticky_pins_json(d: &Dispatch, n: usize) -> (r: String)
    ensures
        r@ == "["@ + listed(d.sticky@.counts.take(gauged(n))) + "]"@,
{
    let len: usize = if n < MAX_WORKERS {
        n
    } else {
        MAX_WORKERS
    };
    let ghost c = d.sticky@.counts;
    let mut out: String = owned("[");
    let mut i: usize = 0;
    assert(c.take(0) =~= Seq::<usize>::empty());
    assert("["@ + listed(c.take(0)) =~= "["@);
    while i < len
        invariant
            i <= len <= MAX_WORKERS,
            c == d.sticky.pin_counts@,
            out@ == "["@ + listed(c.take(i as int)),
        decreases len - i,
    {
        let ghost head = out@;
        if i > 0 {
            out.append(",");
        }
        push_decimal(&mut out, d.sticky.pin_counts[i] as u64);
        proof {
            let t = c.take(i + 1);
            assert(t.drop_last() =~= c.take(i as int));
            if i > 0 {
                assert(out@ =~= "["@ + listed(t));
            } else {
                assert(c.take(0) =~= Seq::<usize>::empty());
                assert(head =~= "["@);
                assert(out@ =~= "["@ + listed(t));
            }
        }
        i += 1;
    }
    out.append("]");
    out
}

/// The number of pins in all shards.
pub open spec fn entries(shards: Seq<Map<u64, u8>>) -> nat
    decreases shards.len(),
{
    if shards.len() == 0 {
        0
    } else {
        entries(shards.drop_last()) + shards.last().len()
    }
}

pub fn sticky_entries(d: &Dispatch) -> (r: usize)
    requires
        d.wf(),
    ensures
        r == entries(d.sticky@.shards),
        r <= STICKY_SHARDS * STICKY_SHARD_MAX,
{
    broadcast use vstd::std_specs::hash::group_hash_axioms;

    let ghost shards = d.sticky@.shards;
    let mut sum: usize = 0;
    let mut i: usize = 0;
    assert(shards.take(0) =~= Seq::<Map<u64, u8>>::empty());
    while i < d.sticky.shards.len()
        invariant
            i <= d.sticky.shards@.len(),
            d.wf(),
            shards == d.sticky@.shards,
            sum == entries(shards.take(i as int)),
            sum <= i * STICKY_SHARD_MAX,
        decreases d.sticky.shards@.len() - i,
    {
        proof {
            assert(shards.take(i + 1).drop_last() =~= shards.take(i as int));
            assert(shards[i as int] == d.sticky.shards@[i as int]@);
        }
        sum = sum + d.sticky.shards[i].len();
        i += 1;
    }
    assert(shards.take(i as int) =~= shards);
    sum
}

/// Forgets every pin; the totals stay.
pub fn sticky_reset_for_tests(d: &mut Dispatch)
    requires
        old(d).wf(),
    ensures
        final(d).wf(),
        same_but_pins(*old(d), *final(d)),
        final(d).sticky@ == emptied(old(d).sticky@),
{
    let mut shards: Vec<HashMap<u64, u8>> = Vec::new();
    let mut i: usize = 0;
    while i < STICKY_SHARDS
        invariant
            i <= STICKY_SHARDS,
            shards@.len() == i,
            forall|j: int| 0 <= j < i ==> (#[trigger] shards@[j])@ == Map::<u64, u8>::empty(),
        decreases STICKY_SHARDS - i,
    {
        shards.push(HashMap::new());
        i += 1;
    }
    d.sticky.shards = shards;
    d.sticky.pin_counts = [0;MAX_WORKERS];
    assert(d.sticky@.shards =~= no_pins().shards);
    assert(d.sticky@.counts =~= no_pins().counts);
}

/// The numbers are written one after the other with a comma between, and the pins of all
/// shards are those of the first and those of the rest.
pub proof fn pins_are_listed_in_a_row(
    a: Seq<usize>,
    b: Seq<usize>,
    x: Seq<Map<u64, u8>>,
    y: Seq<Map<u64, u8>>,
)
    ensures
        a.len() > 0 && b.len() > 0 ==> listed(a + b) == listed(a) + ","@ + listed(b),
        a.len() == 1 ==> listed(a) == decimal(a[0] as nat),
        entries(x + y) == entries(x) + entries(y),
        x.len() == 1 ==> entries(x) == x[0].len(),
    decreases b.len(), y.len(),
{
    if a.len() > 0 && b.len() > 0 {
        assert((a + b).drop_last() =~= a + b.drop_last());
        if b.len() == 1 {
            assert(a + b.drop_last() =~= a);
        } else {
            pins_are_listed_in_a_row(a, b.drop_last(), x, y);
            assert(listed(a + b) =~= listed(a) + ","@ + listed(b));
        }
    }
    lemma_entries_join(x, y);
    if x.len() == 1 {
        assert(x.drop_last() =~= Seq::<Map<u64, u8>>::empty());
        assert(entries(x.drop_last()) == 0);
    }
}

proof fn lemma_entries_join(x: Seq<Map<u64, u8>>, y: Seq<Map<u64, u8>>)
    ensures
        entries(x + y) == entries(x) + entries(y),
    decreases y.len(),
{
    if y.len() == 0 {
        assert(x + y =~= x);
    } else {
        assert((x + y).drop_last() =~= x + y.drop_last());
        lemma_entries_join(x, y.drop_last());
    }
}

/// A new connection goes to a worker of the fleet that has no more pins than any other; of
/// those with as few, to one with no more requests in flight; and of those, to the first.
pub proof fn new_connections_go_where_there_is_least(
    p: Pins,
    depth: Seq<usize>,
    key: u64,
    n: usize,
    i: int,
)
    requires
        p.shards.len() == STICKY_SHARDS,
        n > 0,
        0 <= i < n,
        i < 16,
        pinned(p.shards[shard_of(key)], key) is None,
    ensures
        ({
            let after = looked_up(p, depth, key, n);
            let w = pinned(after.shards[(key % 16) as int], key)->0 as int;
            &&& 0 <= w < n
            &&& p.counts[w] <= p.counts[i]
            &&& p.counts[w] == p.counts[i] ==> depth[w] <= depth[i]
            &&& p.counts[w] == p.counts[i] && depth[w] == depth[i] ==> w <= i
        }),
{
    let w = fewest(p.counts, depth, gauged(n));
    fewest_is_least(p.counts, depth, gauged(n));
    if i != w {
        assert(before(p.counts, depth, w, i));
    }
}

/// A pin stays where it is for as long as its worker is of the fleet: asking for it counts
/// as a hit and changes nothing else. Asking for any other counts as a miss.
pub proof fn pins_stay_within_the_fleet(p: Pins, depth: Seq<usize>, key: u64, n: usize, v: u8)
    requires
        p.shards.len() == STICKY_SHARDS,
    ensures
        ({
            let after = looked_up(p, depth, key, n);
            let found = p.shards[(key % 16) as int];
            &&& found.contains_key(key) && found[key] == v && v < n && v < 16 ==> {
                &&& after.shards == p.shards
                &&& after.counts == p.counts
                &&& after.hits == p.hits.wrapping_add(1)
                &&& after.misses == p.misses
                &&& after.fallbacks == p.fallbacks
                &&& after.evicted == p.evicted
            }
            &&& !found.contains_key(key) || (found[key] == v && (v >= n || v >= 16)) ==> {
                &&& after.hits == p.hits
                &&& after.misses == p.misses.wrapping_add(1)
                &&& after.fallbacks == p.fallbacks
            }
        }),
{
}

/// What is done for one connection leaves every other where it is, unless its shard was
/// full: then the pins of that shard, and no others, are dropped and counted as evicted.
pub proof fn pins_do_not_move_each_other(
    p: Pins,
    depth: Seq<usize>,
    key: u64,
    n: usize,
    from: usize,
    to: usize,
    other: u64,
)
    requires
        p.shards.len() == STICKY_SHARDS,
        other != key,
    ensures
        ({
            let s = (other % 16) as int;
            let before = p.shards[s];
            let full = key % 16 == other % 16 && before.len() >= 256;
            let looked = looked_up(p, depth, key, n);
            let again = reread(p, key, from);
            let moved = repinned(p, key, from, to);
            &&& moved.shards[s].contains_key(other) == before.contains_key(other)
            &&& moved.shards[s][other] == before[other]
            &&& moved.hits == p.hits && moved.misses == p.misses && moved.evicted == p.evicted
            &&& !full ==> {
                &&& looked.shards[s].contains_key(other) == before.contains_key(other)
                &&& looked.shards[s][other] == before[other]
                &&& again.shards[s].contains_key(other) == before.contains_key(other)
                &&& again.shards[s][other] == before[other]
            }
            &&& key % 16 == other % 16 && before.len() < 256 ==> {
                &&& looked.evicted == p.evicted
                &&& again.evicted == p.evicted
            }
            &&& full && !before.contains_key(key) ==> {
                &&& !looked.shards[s].contains_key(other)
                &&& !again.shards[s].contains_key(other)
                &&& looked.evicted == p.evicted.wrapping_add(before.len() as u64)
                &&& again.evicted == p.evicted.wrapping_add(before.len() as u64)
            }
        }),
{
}

} // verus!
