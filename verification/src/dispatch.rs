//! Which worker gets the next request: depth gauges, the per-worker cap, the order
//! in which workers are tried, and the pins of sticky connections.
use std::collections::HashMap;

use vstd::prelude::*;

use crate::text::{decimal, numbers_are_read_back, parse_whole, same, whole};

verus! {

/// The number of depth gauges, and so of workers whose depth can be told apart.
pub const MAX_WORKERS: usize = 16;

/// The classes of depth that the histogram tells apart.
pub const DEPTH_BUCKETS: usize = 8;

pub const STICKY_SHARDS: usize = 16;

/// The most pins that one shard holds. A full shard is cleared, and its pins are taken
/// off the counts, before another pin goes in.
pub const STICKY_SHARD_MAX: usize = 256;

/// How deep each worker is in requests, and the ledger of past dispatches.
pub struct Gauges {
    pub in_flight: [usize; MAX_WORKERS],
    pub dispatch_total: u64,
    pub chosen_busy: u64,
    pub bad_dispatch: u64,
    pub depth_hist: [u64; DEPTH_BUCKETS],
}

/// The disciplines by which the next worker is chosen.
#[derive(Clone, Copy, Debug, PartialEq, Eq, Structural)]
pub enum DispatchMode {
    Rr,
    LeastOutstanding,
    FreeFirst,
    Sticky,
}

/// The pins of the connections, in shards by key, each with its worker, and the number
/// of pins on each worker.
pub struct Sticky {
    pub shards: Vec<HashMap<u64, u8>>,
    pub pin_counts: [usize; MAX_WORKERS],
    pub hit_total: u64,
    pub miss_total: u64,
    pub fallback_total: u64,
    pub evict_total: u64,
}

/// All that dispatch remembers.
pub struct Dispatch {
    pub gauges: Gauges,
    pub mode: Option<DispatchMode>,
    pub cap: Option<Option<usize>>,
    pub capped: bool,
    pub parked: usize,
    pub park_total: u64,
    pub sticky: Sticky,
}

/// What `Sticky` holds.
pub ghost struct Pins {
    pub shards: Seq<Map<u64, u8>>,
    pub counts: Seq<usize>,
    pub hits: u64,
    pub misses: u64,
    pub fallbacks: u64,
    pub evicted: u64,
}

impl Sticky {
    pub open spec fn view(&self) -> Pins {
        Pins {
            shards: self.shards@.map_values(|m: HashMap<u64, u8>| m@),
            counts: self.pin_counts@,
            hits: self.hit_total,
            misses: self.miss_total,
            fallbacks: self.fallback_total,
            evicted: self.evict_total,
        }
    }
}

impl Dispatch {
    /// The shards are all there, and none holds more pins than it may.
    pub open spec fn wf(&self) -> bool {
        &&& self.sticky.shards@.len() == STICKY_SHARDS
        &&& forall|s: int|
            0 <= s < STICKY_SHARDS ==> (#[trigger] self.sticky.shards@[s])@.len()
                <= STICKY_SHARD_MAX
    }

    pub fn new() -> (d: Dispatch)
        ensures
            d.wf(),
            d.mode is None,
            d.cap is None,
            !d.capped,
            d.parked == 0,
            d.park_total == 0,
            forall|i: int| 0 <= i < MAX_WORKERS ==> #[trigger] d.gauges.in_flight@[i] == 0,
            forall|i: int| 0 <= i < DEPTH_BUCKETS ==> #[trigger] d.gauges.depth_hist@[i] == 0,
            d.gauges.dispatch_total == 0,
            d.gauges.chosen_busy == 0,
            d.gauges.bad_dispatch == 0,
            d.sticky@ == no_pins(),
    {
        let mut shards: Vec<HashMap<u64, u8>> = Vec::new();
        let mut i: usize = 0;
        while i < STICKY_SHARDS
            invariant
                i <= STICKY_SHARDS,
                shards@.len() == i,
                forall|j: int| 0 <= j < i ==> (#[trigger] shards@[j])@ == Map::<u64, u8>::empty(),
            decreases STICKY_SHARDS - i,
        {
            shards.push(HashMap::new());
            i += 1;
        }
        let d = Dispatch {
            gauges: Gauges {
                in_flight: [0;MAX_WORKERS],
                dispatch_total: 0,
                chosen_busy: 0,
                bad_dispatch: 0,
                depth_hist: [0;DEPTH_BUCKETS],
            },
            mode: None,
            cap: None,
            capped: false,
            parked: 0,
            park_total: 0,
            sticky: Sticky {
                shards,
                pin_counts: [0;MAX_WORKERS],
                hit_total: 0,
                miss_total: 0,
                fallback_total: 0,
                evict_total: 0,
            },
        };
        proof {
            assert(d.sticky@.shards =~= no_pins().shards);
            assert(d.sticky@.counts =~= no_pins().counts);
        }
        d
    }
}

/// No connection pinned and nothing counted.
pub open spec fn no_pins() -> Pins {
    Pins {
        shards: Seq::new(STICKY_SHARDS as nat, |i: int| Map::<u64, u8>::empty()),
        counts: Seq::new(MAX_WORKERS as nat, |i: int| 0usize),
        hits: 0,
        misses: 0,
        fallbacks: 0,
        evicted: 0,
    }
}

/// The gauges.
pub fn gauges(d: &Dispatch) -> (g: &Gauges)
    ensures
        *g == d.gauges,
{
    &d.gauges
}

/// The mode that a setting names.
pub open spec fn mode_named(value: Seq<char>) -> Option<DispatchMode> {
    if value == "rr"@ {
        Some(DispatchMode::Rr)
    } else if value == "least-outstanding"@ {
        Some(DispatchMode::LeastOutstanding)
    } else if value == "free-first"@ {
        Some(DispatchMode::FreeFirst)
    } else if value == "sticky"@ {
        Some(DispatchMode::Sticky)
    } else {
        None
    }
}

/// The name of a mode.
pub open spec fn name_of(m: DispatchMode) -> Seq<char> {
    match m {
        DispatchMode::Rr => "rr"@,
        DispatchMode::LeastOutstanding => "least-outstanding"@,
        DispatchMode::FreeFirst => "free-first"@,
        DispatchMode::Sticky => "sticky"@,
    }
}

/// Every mode is read back from its own name, and every name that is read is the
/// name of what was read.
pub proof fn modes_and_names_agree(m: DispatchMode, value: Seq<char>)
    ensures
        mode_named(name_of(m)) == Some(m),
        mode_named(value) matches Some(n) ==> name_of(n) == value,
{
    reveal_strlit("rr");
    reveal_strlit("least-outstanding");
    reveal_strlit("free-first");
    reveal_strlit("sticky");
    assert("rr"@.len() == 2);
    assert("least-outstanding"@.len() == 17);
    assert("free-first"@.len() == 10);
    assert("sticky"@.len() == 6);
}

pub fn parse_mode(value: &str) -> (r: Option<DispatchMode>)
    ensures
        r == mode_named(value@),
{
    if same(value, "rr") {
        Some(DispatchMode::Rr)
    } else if same(value, "least-outstanding") {
        Some(DispatchMode::LeastOutstanding)
    } else if same(value, "free-first") {
        Some(DispatchMode::FreeFirst)
    } else if same(value, "sticky") {
        Some(DispatchMode::Sticky)
    } else {
        None
    }
}

pub fn mode_name(m: DispatchMode) -> (r: &'static str)
    ensures
        r@ == name_of(m),
{
    match m {
        DispatchMode::Rr => "rr",
        DispatchMode::LeastOutstanding => "least-outstanding",
        DispatchMode::FreeFirst => "free-first",
        DispatchMode::Sticky => "sticky",
    }
}

/// Settles the mode, unless it is settled already.
pub fn init_mode(d: &mut Dispatch, m: DispatchMode)
    ensures
        *final(d) == (Dispatch {
            mode: if old(d).mode is Some { old(d).mode } else { Some(m) },
            ..*old(d)
        }),
{
    if d.mode.is_none() {
        d.mode = Some(m);
    }
}

/// What an unset mode becomes when it is first asked for.
pub open spec fn mode_of_env(env: Option<&str>) -> DispatchMode {
    match env {
        Some(v) => match mode_named(v@) {
            Some(m) => m,
            None => DispatchMode::LeastOutstanding,
        },
        None => DispatchMode::LeastOutstanding,
    }
}

/// The mode; `env` is what the environment holds, and is looked at once.
pub fn mode(d: &mut Dispatch, env: Option<&str>) -> (r: DispatchMode)
    ensures
        r == (match old(d).mode {
            Some(m) => m,
            None => mode_of_env(env),
        }),
        *final(d) == (Dispatch { mode: Some(r), ..*old(d) }),
{
    match d.mode {
        Some(m) => m,
        None => {
            let m: DispatchMode = match env {
                Some(v) => match parse_mode(v) {
                    Some(m) => m,
                    None => DispatchMode::LeastOutstanding,
                },
                None => DispatchMode::LeastOutstanding,
            };
            d.mode = Some(m);
            m
        },
    }
}

/// Whether a cap was ever in force.
pub fn capped(d: &Dispatch) -> (r: bool)
    ensures
        r == d.capped,
{
    d.capped
}

/// Sets the capped latch by hand.
pub fn set_capped_for_tests(d: &mut Dispatch, on: bool)
    ensures
        *final(d) == (Dispatch { capped: on, ..*old(d) }),
{
    d.capped = on;
}

/// Settles the cap, unless it is settled already; a cap latches `capped` either way.
pub fn init_cap(d: &mut Dispatch, k: Option<usize>)
    ensures
        *final(d) == (Dispatch {
            cap: if old(d).cap is Some { old(d).cap } else { Some(k) },
            capped: old(d).capped || k is Some,
            ..*old(d)
        }),
{
    if k.is_some() {
        d.capped = true;
    }
    if d.cap.is_none() {
        d.cap = Some(k);
    }
}

/// What an unset cap becomes when it is first asked for: a positive whole number in
/// the environment, else none.
pub open spec fn cap_of_env(env: Option<&str>) -> Option<usize> {
    match env {
        Some(v) => match whole(v@, usize::MAX as nat) {
            Some(n) => if n >= 1 { Some(n as usize) } else { None },
            None => None,
        },
        None => None,
    }
}

/// The cap; `env` is what the environment holds, and is looked at once.
pub fn cap(d: &mut Dispatch, env: Option<&str>) -> (r: Option<usize>)
    ensures
        old(d).cap matches Some(k) ==> r == k && *final(d) == *old(d),
        old(d).cap is None ==> r == cap_of_env(env) && *final(d) == (Dispatch {
            cap: Some(r),
            capped: old(d).capped || r is Some,
            ..*old(d)
        }),
{
    match d.cap {
        Some(k) => k,
        None => {
            let k: Option<usize> = match env {
                Some(v) => match parse_whole(v, usize::MAX as u64) {
                    Some(n) => if n >= 1 {
                        Some(n as usize)
                    } else {
                        None
                    },
                    None => None,
                },
                None => None,
            };
            if k.is_some() {
                d.capped = true;
            }
            d.cap = Some(k);
            k
        },
    }
}

/// A request that waits for a slot; `leave` ends the wait.
pub struct ParkGuard(());

impl ParkGuard {
    /// Counts one more waiting request.
    pub fn enter(d: &mut Dispatch) -> (g: ParkGuard)
        ensures
            *final(d) == (Dispatch {
                parked: old(d).parked.wrapping_add(1),
                park_total: old(d).park_total.wrapping_add(1),
                ..*old(d)
            }),
    {
        d.parked = d.parked.wrapping_add(1);
        d.park_total = d.park_total.wrapping_add(1);
        ParkGuard(())
    }

    /// Counts one waiting request less.
    pub fn leave(self, d: &mut Dispatch)
        ensures
            *final(d) == (Dispatch { parked: old(d).parked.wrapping_sub(1), ..*old(d) }),
    {
        d.parked = d.parked.wrapping_sub(1);
    }
}

/// Whether bit `i` of `mask` is set.
pub open spec fn in_mask(mask: u32, i: int) -> bool {
    mask & (1u32 << (i as u32)) != 0
}

/// Whether a worker of `mask` has room for one more request under a cap of `k`.
pub open spec fn room(depth: Seq<usize>, mask: u32, k: usize) -> bool {
    exists|i: int| 0 <= i < MAX_WORKERS && in_mask(mask, i) && #[trigger] depth[i] < k
}

pub fn any_admittable(d: &Dispatch, mask: u32, k: usize) -> (r: bool)
    ensures
        r == room(d.gauges.in_flight@, mask, k),
{
    let mut i: usize = 0;
    while i < MAX_WORKERS
        invariant
            i <= MAX_WORKERS,
            forall|j: int|
                0 <= j < i ==> !(in_mask(mask, j) && #[trigger] d.gauges.in_flight@[j] < k),
        decreases MAX_WORKERS - i,
    {
        if mask & (1u32 << (i as u32)) != 0 && d.gauges.in_flight[i] < k {
            assert(in_mask(mask, i as int) && d.gauges.in_flight@[i as int] < k);
            return true;
        }
        i += 1;
    }
    false
}

/// One request on its way to worker `idx`, which had `depth` others; `release` ends
/// it.
pub struct InFlightGuard {
    pub idx: usize,
    pub depth: usize,
}

/// The gauge of worker `idx`: those past the last gauge share it.
pub open spec fn slot(idx: usize) -> int {
    if idx < MAX_WORKERS { idx as int } else { MAX_WORKERS - 1 }
}

/// Whether one of the first `workers` workers, other than `but`, is idle.
pub open spec fn other_idle(depth: Seq<usize>, workers: usize, but: int) -> bool {
    exists|i: int| 0 <= i < workers && i < MAX_WORKERS && i != but && #[trigger] depth[i] == 0
}

/// The class of `depth` in the histogram.
pub open spec fn bucket(depth: usize) -> int {
    if depth < DEPTH_BUCKETS { depth as int } else { DEPTH_BUCKETS - 1 }
}

/// The gauges after one more request was sent to worker `idx` of `workers`.
pub open spec fn dispatched(old: Gauges, new: Gauges, idx: usize, workers: usize) -> bool {
    let i = slot(idx);
    let depth = old.in_flight@[i];
    &&& new.in_flight@ == old.in_flight@.update(i, depth.wrapping_add(1))
    &&& new.dispatch_total == old.dispatch_total.wrapping_add(1)
    &&& new.depth_hist@ == old.depth_hist@.update(
        bucket(depth),
        old.depth_hist@[bucket(depth)].wrapping_add(1),
    )
    &&& new.chosen_busy == (if depth > 0 {
        old.chosen_busy.wrapping_add(1)
    } else {
        old.chosen_busy
    })
    &&& new.bad_dispatch == (if depth > 0 && other_idle(new.in_flight@, workers, i) {
        old.bad_dispatch.wrapping_add(1)
    } else {
        old.bad_dispatch
    })
}

/// Whether a request is let in on worker `idx` under the cap `k`.
pub open spec fn let_in(depth: Seq<usize>, idx: usize, k: Option<usize>) -> bool {
    k matches Some(kv) ==> depth[slot(idx)] < kv
}

/// The depths after a request asked for worker `idx` under the cap `k`.
pub open spec fn asked(depth: Seq<usize>, idx: usize, k: Option<usize>) -> Seq<usize> {
    if let_in(depth, idx, k) {
        depth.update(slot(idx), depth[slot(idx)].wrapping_add(1))
    } else {
        depth
    }
}

/// The depths after a request ended that was counted on gauge `at`.
pub open spec fn ended(depth: Seq<usize>, at: int) -> Seq<usize> {
    depth.update(at, depth[at].wrapping_sub(1))
}

/// Everything but the gauges.
pub open spec fn same_but_gauges(a: Dispatch, b: Dispatch) -> bool {
    &&& a.mode == b.mode
    &&& a.cap == b.cap
    &&& a.capped == b.capped
    &&& a.parked == b.parked
    &&& a.park_total == b.park_total
    &&& a.sticky == b.sticky
}

impl InFlightGuard {
    /// The gauge that this request is counted on.
    pub open spec fn at(&self) -> int {
        self.idx as int
    }

    pub open spec fn wf(&self) -> bool {
        self.idx < MAX_WORKERS
    }

    /// Counts a request on its way, whatever the depth.
    pub fn acquire(d: &mut Dispatch, idx: usize, worker_count: usize) -> (g: InFlightGuard)
        ensures
            g.wf(),
            g.at() == slot(idx),
            g.depth == old(d).gauges.in_flight@[slot(idx)],
            dispatched(old(d).gauges, final(d).gauges, idx, worker_count),
            same_but_gauges(*old(d), *final(d)),
    {
        let i: usize = if idx < MAX_WORKERS {
            idx
        } else {
            MAX_WORKERS - 1
        };
        let depth: usize = d.gauges.in_flight[i];
        d.gauges.in_flight[i] = depth.wrapping_add(1);
        d.gauges.dispatch_total = d.gauges.dispatch_total.wrapping_add(1);
        let b: usize = if depth < DEPTH_BUCKETS {
            depth
        } else {
            DEPTH_BUCKETS - 1
        };
        d.gauges.depth_hist[b] = d.gauges.depth_hist[b].wrapping_add(1);
        if depth > 0 {
            d.gauges.chosen_busy = d.gauges.chosen_busy.wrapping_add(1);
            if idle_besides(&d.gauges, worker_count, i) {
                d.gauges.bad_dispatch = d.gauges.bad_dispatch.wrapping_add(1);
            }
        }
        InFlightGuard { idx: i, depth }
    }

    /// Counts a request on its way unless the worker is at its cap `k`; a refusal
    /// changes nothing.
    pub fn try_acquire(
        d: &mut Dispatch,
        idx: usize,
        worker_count: usize,
        k: Option<usize>,
    ) -> (r: Option<InFlightGuard>)
        ensures
            r is Some <==> let_in(old(d).gauges.in_flight@, idx, k),
            final(d).gauges.in_flight@ == asked(old(d).gauges.in_flight@, idx, k),
            match r {
                Some(g) => {
                    &&& g.wf()
                    &&& g.at() == slot(idx)
                    &&& g.depth == old(d).gauges.in_flight@[slot(idx)]
                    &&& dispatched(old(d).gauges, final(d).gauges, idx, worker_count)
                    &&& same_but_gauges(*old(d), *final(d))
                    &&& k matches Some(kv) ==> final(d).gauges.in_flight@[slot(idx)] <= kv
                },
                None => *final(d) == *old(d),
            },
    {
        if let Some(kv) = k {
            let i: usize = if idx < MAX_WORKERS {
                idx
            } else {
                MAX_WORKERS - 1
            };
            if d.gauges.in_flight[i] >= kv {
                return None;
            }
        }
        Some(InFlightGuard::acquire(d, idx, worker_count))
    }

    /// The request is over. Says whether a waiting request should be woken.
    pub fn release(self, d: &mut Dispatch) -> (wake: bool)
        requires
            self.wf(),
        ensures
            final(d).gauges.in_flight@ == ended(old(d).gauges.in_flight@, self.at()),
            final(d).gauges.dispatch_total == old(d).gauges.dispatch_total,
            final(d).gauges.chosen_busy == old(d).gauges.chosen_busy,
            final(d).gauges.bad_dispatch == old(d).gauges.bad_dispatch,
            final(d).gauges.depth_hist == old(d).gauges.depth_hist,
            same_but_gauges(*old(d), *final(d)),
            wake == (old(d).capped && old(d).parked > 0),
    {
        d.gauges.in_flight[self.idx] = d.gauges.in_flight[self.idx].wrapping_sub(1);
        d.capped && d.parked > 0
    }
}

fn idle_besides(g: &Gauges, workers: usize, but: usize) -> (r: bool)
    ensures
        r == other_idle(g.in_flight@, workers, but as int),
{
    let mut i: usize = 0;
    while i < workers && i < MAX_WORKERS
        invariant
            i <= MAX_WORKERS,
            forall|j: int|
                0 <= j < i && j < workers ==> !(j != but && #[trigger] g.in_flight@[j] == 0),
        decreases MAX_WORKERS - i,
    {
        if i != but && g.in_flight[i] == 0 {
            assert(g.in_flight@[i as int] == 0);
            return true;
        }
        i += 1;
    }
    false
}

/// The end of a request undoes its start on every gauge.
pub proof fn release_undoes_acquire(old: Gauges, new: Gauges, idx: usize, workers: usize)
    requires
        dispatched(old, new, idx, workers),
    ensures
        ended(new.in_flight@, slot(idx)) == old.in_flight@,
{
    assert(ended(new.in_flight@, slot(idx)) =~= old.in_flight@);
}

/// One call on the gauges.
pub ghost enum GaugeStep {
    /// A request asks for worker `idx` under the cap `k`.
    Ask { idx: usize, k: Option<usize> },
    /// A request that is counted on gauge `at` ends.
    End { at: int },
}

/// The depths after `steps`, one after the other.
pub open spec fn depths_after(depth: Seq<usize>, steps: Seq<GaugeStep>) -> Seq<usize>
    decreases steps.len(),
{
    if steps.len() == 0 {
        depth
    } else {
        let before = depths_after(depth, steps.drop_last());
        match steps.last() {
            GaugeStep::Ask { idx, k } => asked(before, idx, k),
            GaugeStep::End { at } => ended(before, at),
        }
    }
}

/// The requests that `steps` let in on gauge `w`, without those that ended.
pub open spec fn still_in(depth: Seq<usize>, steps: Seq<GaugeStep>, w: int) -> int
    decreases steps.len(),
{
    if steps.len() == 0 {
        0
    } else {
        still_in(depth, steps.drop_last(), w) + match steps.last() {
            GaugeStep::Ask { idx, k } => if slot(idx) == w && let_in(
                depths_after(depth, steps.drop_last()),
                idx,
                k,
            ) {
                1int
            } else {
                0
            },
            GaugeStep::End { at } => if at == w {
                -1
            } else {
                0
            },
        }
    }
}

/// Whether every request for gauge `w` asks under the cap `k`, and only one that was let
/// in ends, once.
pub open spec fn capped_run(depth: Seq<usize>, steps: Seq<GaugeStep>, w: int, k: usize) -> bool {
    forall|i: int|
        0 <= i < steps.len() ==> match #[trigger] steps[i] {
            GaugeStep::Ask { idx, k: cap } => slot(idx) == w ==> cap == Some(k),
            GaugeStep::End { at } => 0 <= at < MAX_WORKERS && (at == w ==> still_in(
                depth,
                steps.take(i),
                w,
            ) > 0),
        }
}

/// However requests come and go, in whatever order: a gauge that starts at zero shows the
/// requests that are still in, and never more than the cap. So it is at zero again once
/// all have ended. What holds after every run holds at every moment of one.
pub proof fn capped_gauges_stay_within_their_cap(
    depth: Seq<usize>,
    steps: Seq<GaugeStep>,
    w: int,
    k: usize,
)
    requires
        depth.len() == MAX_WORKERS,
        0 <= w < MAX_WORKERS,
        depth[w] == 0,
        capped_run(depth, steps, w, k),
    ensures
        depths_after(depth, steps).len() == MAX_WORKERS,
        depths_after(depth, steps)[w] == still_in(depth, steps, w),
        depths_after(depth, steps)[w] <= k,
    decreases steps.len(),
{
    if steps.len() > 0 {
        let rest = steps.drop_last();
        let last = steps.len() - 1;
        assert(steps.take(last) =~= rest);
        assert forall|i: int| 0 <= i < rest.len() implies match #[trigger] rest[i] {
            GaugeStep::Ask { idx, k: cap } => slot(idx) == w ==> cap == Some(k),
            GaugeStep::End { at } => 0 <= at < MAX_WORKERS && (at == w ==> still_in(
                depth,
                rest.take(i),
                w,
            ) > 0),
        } by {
            assert(rest[i] == steps[i]);
            assert(rest.take(i) =~= steps.take(i));
        }
        capped_gauges_stay_within_their_cap(depth, rest, w, k);
        assert(steps[last] == steps.last());
    }
}

/// Every request that is sent counts once: in the total, in one class of the histogram,
/// which is that of the depth it met, and as sent to a busy worker exactly if that class is
/// not the idle one. It counts as badly sent only if it met a busy worker while another
/// was idle.
pub proof fn every_dispatch_counts_once(old: Gauges, new: Gauges, idx: usize, workers: usize, b: int)
    requires
        dispatched(old, new, idx, workers),
        0 <= b < 8,
        old.depth_hist@[b] < u64::MAX,
        old.chosen_busy < u64::MAX,
        old.bad_dispatch < u64::MAX,
        old.dispatch_total < u64::MAX,
    ensures
        ({
            let met = old.in_flight@[slot(idx)];
            let class = if met >= 7 {
                7
            } else {
                met as int
            };
            &&& new.dispatch_total == old.dispatch_total + 1
            &&& new.depth_hist@[b] == old.depth_hist@[b] + (if b == class {
                1int
            } else {
                0
            })
            &&& new.chosen_busy == old.chosen_busy + (if class == 0 {
                0int
            } else {
                1
            })
            &&& new.bad_dispatch != old.bad_dispatch ==> class != 0 && exists|i: int|
                0 <= i < 16 && i < workers && i != slot(idx) && #[trigger] old.in_flight@[i] == 0
            &&& class != 0 && (exists|i: int|
                0 <= i < 16 && i < workers && i != slot(idx) && #[trigger] old.in_flight@[i] == 0)
                ==> new.bad_dispatch == old.bad_dispatch + 1
            &&& forall|i: int|
                0 <= i < 16 && i != slot(idx) ==> #[trigger] new.in_flight@[i] == old.in_flight@[i]
            &&& slot(idx) == (if idx < 16 {
                idx as int
            } else {
                15
            })
        }),
{
    assert(old.in_flight@.len() == 16 && new.in_flight@.len() == 16);
    assert(old.depth_hist@.len() == 8);
    let s = slot(idx);
    if other_idle(new.in_flight@, workers, s) {
        let i = choose|i: int|
            0 <= i < workers && i < MAX_WORKERS && i != s && #[trigger] new.in_flight@[i] == 0;
        assert(old.in_flight@[i] == 0);
    }
    if exists|i: int|
        0 <= i < 16 && i < workers && i != s && #[trigger] old.in_flight@[i] == 0 {
        let i = choose|i: int|
            0 <= i < 16 && i < workers && i != s && #[trigger] old.in_flight@[i] == 0;
        assert(new.in_flight@[i] == 0);
    }
}

/// There is room behind a mask if there is behind one of its parts; a mask of one worker
/// has room exactly if that worker is below the cap; and an empty mask never has.
pub proof fn room_is_that_of_the_workers(depth: Seq<usize>, a: u32, b: u32, w: u32, k: usize)
    requires
        w < 16,
    ensures
        room(depth, a | b, k) <==> room(depth, a, k) || room(depth, b, k),
        room(depth, 1u32 << w, k) <==> depth[w as int] < k,
        !room(depth, 0, k),
        !room(depth, a, 0),
{
    if room(depth, a, k) {
        let i = choose|i: int| 0 <= i < MAX_WORKERS && in_mask(a, i) && #[trigger] depth[i] < k;
        lemma_masks(a, b, w, i);
    }
    if room(depth, b, k) {
        let i = choose|i: int| 0 <= i < MAX_WORKERS && in_mask(b, i) && #[trigger] depth[i] < k;
        lemma_masks(a, b, w, i);
    }
    if room(depth, a | b, k) {
        let i = choose|i: int| 0 <= i < MAX_WORKERS && in_mask(a | b, i) && #[trigger] depth[i] < k;
        lemma_masks(a, b, w, i);
    }
    if room(depth, 1u32 << w, k) {
        let i = choose|i: int|
            0 <= i < MAX_WORKERS && in_mask(1u32 << w, i) && #[trigger] depth[i] < k;
        lemma_masks(a, b, w, i);
    }
    lemma_masks(a, b, w, w as int);
    if room(depth, 0, k) {
        let i = choose|i: int| 0 <= i < MAX_WORKERS && in_mask(0, i) && #[trigger] depth[i] < k;
        lemma_masks(a, b, w, i);
    }
}

proof fn lemma_masks(a: u32, b: u32, w: u32, i: int)
    requires
        w < 16,
        0 <= i < 16,
    ensures
        in_mask(a | b, i) <==> in_mask(a, i) || in_mask(b, i),
        in_mask(1u32 << w, i) <==> i == w,
        !in_mask(0, i),
{
    let j = i as u32;
    assert((a | b) & (1u32 << j) != 0 <==> a & (1u32 << j) != 0 || b & (1u32 << j) != 0)
        by (bit_vector);
    assert((1u32 << w) & (1u32 << j) != 0 <==> w == j) by (bit_vector)
        requires
            w < 16,
            j < 16,
    ;
    assert(0u32 & (1u32 << j) == 0) by (bit_vector);
}

/// A cap in the environment is read as it is written, unless it is zero; and a mode that
/// the environment names is that mode, while anything else is the default.
pub proof fn the_environment_settles_the_rest(text: &str, n: usize, m: DispatchMode)
    ensures
        text@ == decimal(n as nat) ==> cap_of_env(Some(text)) == (if n > 0 {
            Some(n)
        } else {
            None
        }),
        text@ == name_of(m) ==> mode_of_env(Some(text)) == m,
        (forall|o: DispatchMode| text@ != #[trigger] name_of(o)) ==> mode_of_env(Some(text))
            == DispatchMode::LeastOutstanding,
        cap_of_env(None) is None,
        mode_of_env(None) == DispatchMode::LeastOutstanding,
{
    numbers_are_read_back(n as nat, usize::MAX as nat);
    modes_and_names_agree(m, text@);
}

} // verus!
