//! The pool of connections to the workers: when one is taken, kept or let go, and what
//! the pool counts.
use vstd::prelude::*;

use crate::frame_pool::{
    numbered, oldest_for, without, ConnectionMeta, ConnectionPool, Idle, IdleCeilingSource,
};
use crate::json::{fields_text, text_value, Field, Fields};
use crate::text::{
    all_white, decimal, is_digits, numbers_are_read_back, opt_str, owned, parse_whole, quote,
    quoted, same, trim, trimmed, trimming_takes_what_is_around, unsigned, whole,
};

verus! {

/// How long a pooled connection is waited for, in milliseconds, when nothing is set.
pub const UNWRAP_WAIT_BUDGET_DEFAULT_MS: u64 = 20;

/// The retries after which waiting for a pooled connection sleeps instead of yielding.
pub const UNWRAP_YIELD_ATTEMPTS: usize = 64;

/// What a setting says of that wait, or the words of a refusal.
pub open spec fn unwrap_wait_of(raw: Option<Seq<char>>) -> Result<u64, Seq<char>> {
    match raw {
        None => Ok(UNWRAP_WAIT_BUDGET_DEFAULT_MS),
        Some(v) => {
            let t = trimmed(v);
            if t == ""@ {
                Ok(UNWRAP_WAIT_BUDGET_DEFAULT_MS)
            } else {
                match whole(t, u64::MAX as nat) {
                    Some(n) => Ok(n as u64),
                    None => Err(
                        "OXO_EDGE_UNWRAP_WAIT_MS="@ + quoted(t)
                            + ": expected a whole number of milliseconds (0 = one attempt)"@,
                    ),
                }
            }
        },
    }
}

/// How long a pooled connection is waited for: a whole number of milliseconds.
pub fn parse_unwrap_wait_ms(raw: Option<&str>) -> (r: Result<u64, String>)
    ensures
        match (r, unwrap_wait_of(opt_str(raw))) {
            (Ok(a), Ok(b)) => a == b,
            (Err(a), Err(b)) => a@ == b,
            _ => false,
        },
{
    let v = match raw {
        None => {
            return Ok(UNWRAP_WAIT_BUDGET_DEFAULT_MS);
        },
        Some(v) => trim(v),
    };
    if same(v, "") {
        return Ok(UNWRAP_WAIT_BUDGET_DEFAULT_MS);
    }
    match parse_whole(v, u64::MAX) {
        Some(n) => Ok(n),
        None => {
            let mut m: String = owned("OXO_EDGE_UNWRAP_WAIT_MS=");
            m.append(quote(v).as_str());
            m.append(": expected a whole number of milliseconds (0 = one attempt)");
            Err(m)
        },
    }
}

/// What the pool of worker connections counts.
#[derive(Clone, Copy, Debug, PartialEq, Eq, Structural)]
pub struct PoolCounters {
    pub stale_evictions: u64,
    pub pool_reuse_total: u64,
    pub try_unwrap_fail_total: u64,
    pub unwrap_retry_total: u64,
    pub checkin_total: u64,
    pub fresh_connect_total: u64,
    pub lru_evictions: u64,
    pub unwrap_wait_ns: u64,
    pub unwrap_wait_max_ns: u64,
}

/// The pool of worker connections, one for all workers.
#[verifier::reject_recursive_types(S)]
pub struct WorkerFramePool<S> {
    pub pool: ConnectionPool<S>,
    pub next_id: i32,
    pub counters: PoolCounters,
    pub idle_ceiling: usize,
    pub idle_ceiling_source: IdleCeilingSource,
    pub unwrap_wait_budget_ms: u64,
}

/// What to do when a connection that left the pool is still held elsewhere.
#[derive(Clone, Copy, Debug, PartialEq, Eq, Structural)]
pub enum UnwrapMove {
    GiveUp,
    Yield,
    Sleep,
}

/// What became of a connection that was handed back.
pub enum Checkin<S> {
    /// It had bytes left over and must be closed.
    Refused { conn: S },
    /// It is idle under this number; a connection that had to make room is handed out.
    Kept { meta: ConnectionMeta, victim: Option<Idle<S>> },
}

/// Why the watch over an idle connection ended.
#[derive(Clone, Copy, Debug, PartialEq, Eq, Structural)]
pub enum WatchEnd {
    PickedUp,
    Forgotten,
    Evicted,
    Draining,
    ReadableOrTimedOut,
}

/// Nanoseconds as the counters hold them.
pub open spec fn counted_ns(ns: u128) -> u64 {
    if ns > u64::MAX { u64::MAX } else { ns as u64 }
}

impl PoolCounters {
    /// The counters after one wait of `ns` nanoseconds.
    pub open spec fn waited(self, ns: u128) -> PoolCounters {
        PoolCounters {
            unwrap_wait_ns: self.unwrap_wait_ns.wrapping_add(counted_ns(ns)),
            unwrap_wait_max_ns: if counted_ns(ns) > self.unwrap_wait_max_ns {
                counted_ns(ns)
            } else {
                self.unwrap_wait_max_ns
            },
            ..self
        }
    }
}

impl<S> WorkerFramePool<S> {
    /// The pool is in order.
    pub open spec fn wf(&self) -> bool {
        self.pool.wf()
    }

    /// Everything but the counters.
    pub open spec fn same_but_counters(self, other: WorkerFramePool<S>) -> bool {
        &&& self.pool == other.pool
        &&& self.next_id == other.next_id
        &&& self.idle_ceiling == other.idle_ceiling
        &&& self.idle_ceiling_source == other.idle_ceiling_source
        &&& self.unwrap_wait_budget_ms == other.unwrap_wait_budget_ms
    }

    pub fn from_ceiling(size: usize, source: IdleCeilingSource, unwrap_wait_budget_ms: u64) -> (p:
        WorkerFramePool<S>)
        ensures
            p.wf(),
            p.pool@ == Seq::<Idle<S>>::empty(),
            p.pool.ceiling() == if size == 0 { 1 } else { size },
            p.pool.peak() == 0,
            p.pool.turns() == 0,
            p.idle_ceiling == p.pool.ceiling(),
            p.idle_ceiling_source == source,
            p.unwrap_wait_budget_ms == unwrap_wait_budget_ms,
            p.next_id == 1,
            p.counters == (PoolCounters {
                stale_evictions: 0,
                pool_reuse_total: 0,
                try_unwrap_fail_total: 0,
                unwrap_retry_total: 0,
                checkin_total: 0,
                fresh_connect_total: 0,
                lru_evictions: 0,
                unwrap_wait_ns: 0,
                unwrap_wait_max_ns: 0,
            }),
    {
        let bounded: usize = if size == 0 {
            1
        } else {
            size
        };
        WorkerFramePool {
            pool: ConnectionPool::new(bounded),
            next_id: 1,
            counters: PoolCounters {
                stale_evictions: 0,
                pool_reuse_total: 0,
                try_unwrap_fail_total: 0,
                unwrap_retry_total: 0,
                checkin_total: 0,
                fresh_connect_total: 0,
                lru_evictions: 0,
                unwrap_wait_ns: 0,
                unwrap_wait_max_ns: 0,
            },
            idle_ceiling: bounded,
            idle_ceiling_source: source,
            unwrap_wait_budget_ms,
        }
    }

    /// Takes out the oldest idle connection to a worker.
    pub fn checkout(&mut self, worker_idx: usize) -> (r: Option<Idle<S>>)
        requires
            old(self).wf(),
        ensures
            (r matches Some(e) ==> e.meta.key == worker_idx && final(self).pool@.len() + 1 == old(
                self,
            ).pool@.len()),
            r is None ==> forall|i: int|
                0 <= i < old(self).pool@.len() ==> (#[trigger] old(self).pool@[i]).meta.key
                    != worker_idx,
            final(self).wf(),
            final(self).counters == old(self).counters,
            final(self).next_id == old(self).next_id,
            final(self).idle_ceiling == old(self).idle_ceiling,
            final(self).idle_ceiling_source == old(self).idle_ceiling_source,
            final(self).unwrap_wait_budget_ms == old(self).unwrap_wait_budget_ms,
            final(self).pool.ceiling() == old(self).pool.ceiling(),
            final(self).pool.peak() == old(self).pool.peak(),
            final(self).pool.turns() == old(self).pool.turns(),
            ({
                let p = oldest_for(old(self).pool@, worker_idx as u64);
                match r {
                    Some(e) => p < old(self).pool@.len() && e == old(self).pool@[p] && final(
                        self).pool@ == old(self).pool@.remove(p),
                    None => p == old(self).pool@.len() && final(self).pool@ == old(self).pool@,
                }
            }),
    {
        proof {
            crate::frame_pool::lemma_oldest_for(self.pool@, worker_idx as u64);
        }
        self.pool.get(worker_idx as u64)
    }

    /// A connection that left the pool is still held elsewhere, after `attempts` retries
    /// and `waited_ns` nanoseconds: give it up once the budget is spent, else retry.
    pub fn unwrap_failed(&mut self, waited_ns: u128, attempts: usize) -> (m: UnwrapMove)
        requires
            attempts < usize::MAX,
        ensures
            m is GiveUp <==> waited_ns >= old(self).unwrap_wait_budget_ms * 1000000,
            m is Yield ==> attempts < 64,
            m is Sleep ==> attempts >= 64,
            final(self).same_but_counters(*old(self)),
            if waited_ns / 1000000 >= old(self).unwrap_wait_budget_ms {
                &&& m is GiveUp
                &&& final(self).counters == (PoolCounters {
                    try_unwrap_fail_total: old(self).counters.try_unwrap_fail_total.wrapping_add(1),
                    ..old(self).counters
                }).waited(waited_ns)
            } else {
                &&& m == (if attempts + 1 <= UNWRAP_YIELD_ATTEMPTS {
                    UnwrapMove::Yield
                } else {
                    UnwrapMove::Sleep
                })
                &&& final(self).counters == old(self).counters
            },
    {
        if waited_ns / 1000000 >= self.unwrap_wait_budget_ms as u128 {
            self.counters.try_unwrap_fail_total = self.counters.try_unwrap_fail_total.wrapping_add(
                1,
            );
            self.record_unwrap_wait(waited_ns);
            return UnwrapMove::GiveUp;
        }
        if attempts + 1 <= UNWRAP_YIELD_ATTEMPTS {
            UnwrapMove::Yield
        } else {
            UnwrapMove::Sleep
        }
    }

    /// A connection that was held elsewhere came free after `waited_ns` nanoseconds.
    pub fn unwrap_recovered(&mut self, waited_ns: u128)
        ensures
            final(self).same_but_counters(*old(self)),
            final(self).counters == (PoolCounters {
                unwrap_retry_total: old(self).counters.unwrap_retry_total.wrapping_add(1),
                ..old(self).counters
            }).waited(waited_ns),
    {
        self.counters.unwrap_retry_total = self.counters.unwrap_retry_total.wrapping_add(1);
        self.record_unwrap_wait(waited_ns);
    }

    fn record_unwrap_wait(&mut self, waited_ns: u128)
        ensures
            final(self).same_but_counters(*old(self)),
            final(self).counters == old(self).counters.waited(waited_ns),
    {
        let ns: u64 = if waited_ns > u64::MAX as u128 {
            u64::MAX
        } else {
            waited_ns as u64
        };
        self.counters.unwrap_wait_ns = self.counters.unwrap_wait_ns.wrapping_add(ns);
        if ns > self.counters.unwrap_wait_max_ns {
            self.counters.unwrap_wait_max_ns = ns;
        }
    }

    /// Whether a connection from the pool is used again: only if it is still open and
    /// silent.
    pub fn reuse_if_live(&mut self, live: bool) -> (r: bool)
        ensures
            r == live,
            final(self).same_but_counters(*old(self)),
            final(self).counters == (if live {
                PoolCounters {
                    pool_reuse_total: old(self).counters.pool_reuse_total.wrapping_add(1),
                    ..old(self).counters
                }
            } else {
                old(self).counters
            }),
    {
        if live {
            self.counters.pool_reuse_total = self.counters.pool_reuse_total.wrapping_add(1);
        }
        live
    }

    /// Whether there is a turn left, and no idle connection has the number that is given
    /// out next. The numbers come round, so one may.
    pub open spec fn can_number(&self) -> bool {
        &&& self.pool.turns() < u64::MAX - 1
        &&& forall|i: int|
            0 <= i < self.pool@.len() ==> (#[trigger] self.pool@[i]).meta.id != self.next_id
    }

    /// Whether one more connection can be told apart from those that are idle.
    pub fn next_number_is_free(&self) -> (r: bool)
        requires
            self.wf(),
        ensures
            r == self.can_number(),
    {
        self.pool.has_turn() && !self.pool.has_number(self.next_id)
    }

    /// Hands a connection back, unless bytes are left over on it.
    pub fn checkin(&mut self, worker_idx: usize, surplus: bool, conn: S) -> (r: Checkin<S>)
        requires
            old(self).wf(),
            surplus || old(self).can_number(),
        ensures
            surplus <==> r is Refused,
            !surplus ==> final(self).pool@.len() <= old(self).pool.ceiling(),
            (r matches Checkin::Kept { meta, victim } ==> meta.key == worker_idx && (victim is Some
                <==> old(self).pool@.len() >= old(self).pool.ceiling())),
            final(self).wf(),
            final(self).idle_ceiling == old(self).idle_ceiling,
            final(self).idle_ceiling_source == old(self).idle_ceiling_source,
            final(self).unwrap_wait_budget_ms == old(self).unwrap_wait_budget_ms,
            surplus ==> (r matches Checkin::Refused { conn: c } && c == conn) && *final(self)
                == *old(self),
            !surplus ==> ({
                let meta = ConnectionMeta { key: worker_idx as u64, id: old(self).next_id };
                let offered = old(self).pool@.push(Idle { meta, conn });
                &&& final(self).next_id == old(self).next_id.wrapping_add(1)
                &&& final(self).pool.ceiling() == old(self).pool.ceiling()
                &&& final(self).pool.turns() == old(self).pool.turns() + 1
                &&& final(self).pool.peak() == (if offered.len() > old(self).pool.peak() {
                    offered.len() as usize
                } else {
                    old(self).pool.peak()
                })
                &&& final(self).counters == (PoolCounters {
                    checkin_total: old(self).counters.checkin_total.wrapping_add(1),
                    ..old(self).counters
                })
                &&& r matches Checkin::Kept { meta: m, victim } && m == meta && match victim {
                    Some(v) => offered.len() > old(self).pool.ceiling() && v == offered[0]
                        && final(self).pool@ == offered.remove(0),
                    None => offered.len() <= old(self).pool.ceiling() && final(self).pool@
                        == offered,
                }
            }),
    {
        if surplus {
            return Checkin::Refused { conn };
        }
        let id: i32 = self.next_id;
        self.next_id = self.next_id.wrapping_add(1);
        let meta = ConnectionMeta::new(worker_idx as u64, id);
        let victim = self.pool.put(&meta, conn);
        self.counters.checkin_total = self.counters.checkin_total.wrapping_add(1);
        Checkin::Kept { meta, victim }
    }

    /// The watch over an idle connection ended: unless it was picked up it leaves the
    /// pool, and an eviction is counted.
    pub fn watch_ended(&mut self, meta: &ConnectionMeta, end: WatchEnd)
        requires
            old(self).wf(),
            numbered(old(self).pool@, meta.id) < old(self).pool@.len() ==> old(self).pool@[numbered(
                old(self).pool@,
                meta.id,
            )].meta.key == meta.key,
        ensures
            final(self).wf(),
            final(self).next_id == old(self).next_id,
            final(self).idle_ceiling == old(self).idle_ceiling,
            final(self).idle_ceiling_source == old(self).idle_ceiling_source,
            final(self).unwrap_wait_budget_ms == old(self).unwrap_wait_budget_ms,
            final(self).pool.ceiling() == old(self).pool.ceiling(),
            final(self).pool.peak() == old(self).pool.peak(),
            final(self).pool.turns() == old(self).pool.turns(),
            final(self).pool@ == (if end is PickedUp {
                old(self).pool@
            } else {
                without(old(self).pool@, meta.id)
            }),
            final(self).counters == (if end is Forgotten || end is Evicted {
                PoolCounters {
                    lru_evictions: old(self).counters.lru_evictions.wrapping_add(1),
                    ..old(self).counters
                }
            } else {
                old(self).counters
            }),
    {
        if end == WatchEnd::PickedUp {
            return;
        }
        if end == WatchEnd::Forgotten || end == WatchEnd::Evicted {
            self.counters.lru_evictions = self.counters.lru_evictions.wrapping_add(1);
        }
        let _gone = self.pool.pop_closed(meta);
    }

    /// Counts a connection that was opened anew.
    pub fn note_fresh_connect(&mut self)
        ensures
            final(self).same_but_counters(*old(self)),
            final(self).counters == (PoolCounters {
                fresh_connect_total: old(self).counters.fresh_connect_total.wrapping_add(1),
                ..old(self).counters
            }),
    {
        self.counters.fresh_connect_total = self.counters.fresh_connect_total.wrapping_add(1);
    }

    /// Counts a pooled connection that turned out to be stale.
    pub fn note_stale(&mut self)
        ensures
            final(self).same_but_counters(*old(self)),
            final(self).counters == (PoolCounters {
                stale_evictions: old(self).counters.stale_evictions.wrapping_add(1),
                ..old(self).counters
            }),
    {
        self.counters.stale_evictions = self.counters.stale_evictions.wrapping_add(1);
    }

    /// The fields of the pool report; `contended` and `contended_ns` are how often, and
    /// how long, the pool's lock was waited for.
    pub open spec fn health(&self, contended: u64, contended_ns: u64) -> Seq<Field> {
        let c = self.counters;
        seq![
            ("pool_reuse_total"@, decimal(c.pool_reuse_total as nat)),
            ("fresh_connect_total"@, decimal(c.fresh_connect_total as nat)),
            ("stale_evictions"@, decimal(c.stale_evictions as nat)),
            ("try_unwrap_fail_total"@, decimal(c.try_unwrap_fail_total as nat)),
            ("unwrap_retry_total"@, decimal(c.unwrap_retry_total as nat)),
            ("checkin_total"@, decimal(c.checkin_total as nat)),
            ("lru_evictions"@, decimal(c.lru_evictions as nat)),
            ("frame_pool_idle"@, decimal(self.idle_ceiling as nat)),
            ("pool_impl"@, text_value("owned"@)),
            ("idle_high_water"@, decimal(self.pool.peak() as nat)),
            ("pool_lock_contended_total"@, decimal(contended as nat)),
            ("pool_lock_wait_ns"@, decimal(contended_ns as nat)),
            ("frame_pool_idle_source"@, text_value(self.idle_ceiling_source.text())),
            ("unwrap_wait_budget_ms"@, decimal(self.unwrap_wait_budget_ms as nat)),
            ("unwrap_wait_ns"@, decimal(c.unwrap_wait_ns as nat)),
            ("unwrap_wait_max_ns"@, decimal(c.unwrap_wait_max_ns as nat)),
        ]
    }

    fn health_fields(&self, contended: u64, contended_ns: u64) -> (f: Fields)
        ensures
            f@ == self.health(contended, contended_ns),
    {
        let mut f = Fields::new();
        f.number("pool_reuse_total", self.counters.pool_reuse_total);
        f.number("fresh_connect_total", self.counters.fresh_connect_total);
        f.number("stale_evictions", self.counters.stale_evictions);
        f.number("try_unwrap_fail_total", self.counters.try_unwrap_fail_total);
        f.number("unwrap_retry_total", self.counters.unwrap_retry_total);
        f.number("checkin_total", self.counters.checkin_total);
        f.number("lru_evictions", self.counters.lru_evictions);
        f.number("frame_pool_idle", self.idle_ceiling as u64);
        f.text("pool_impl", "owned");
        f.number("idle_high_water", self.pool.idle_high_water() as u64);
        f.number("pool_lock_contended_total", contended);
        f.number("pool_lock_wait_ns", contended_ns);
        f.text("frame_pool_idle_source", self.idle_ceiling_source.as_str());
        f.number("unwrap_wait_budget_ms", self.unwrap_wait_budget_ms);
        f.number("unwrap_wait_ns", self.counters.unwrap_wait_ns);
        f.number("unwrap_wait_max_ns", self.counters.unwrap_wait_max_ns);
        f
    }

    /// The pool report.
    pub fn health_json(&self, contended: u64, contended_ns: u64) -> (r: String)
        ensures
            r@ == "{"@ + fields_text(self.health(contended, contended_ns)) + "}\n"@,
    {
        let mut out: String = owned("{");
        let f = self.health_fields(contended, contended_ns);
        f.write(&mut out);
        out.append("}\n");
        out
    }
}

/// The pool report of the admin endpoint, which also answers when there is no pool.
pub fn admin_pool_health_json<S>(
    pool: Option<&WorkerFramePool<S>>,
    contended: u64,
    contended_ns: u64,
) -> (r: String)
    ensures
        r@ == (match pool {
            Some(p) => "{\"registered\":true,"@ + fields_text(p.health(contended, contended_ns))
                + "}\n"@,
            None => "{\"registered\":false}\n"@,
        }),
{
    match pool {
        Some(p) => {
            let mut out: String = owned("{\"registered\":true,");
            let f = p.health_fields(contended, contended_ns);
            f.write(&mut out);
            out.append("}\n");
            out
        },
        None => owned("{\"registered\":false}\n"),
    }
}

/// The reaper closes idle connections from one task; it is started again when it dies.
#[derive(Clone, Copy, Debug, PartialEq, Eq, Structural)]
pub struct ReaperCounters {
    pub spawned: u64,
    pub deaths: u64,
}

/// Whether idle connections are watched by one task; `raw` is what the setting holds.
pub fn reaper_enabled(raw: Option<&str>) -> (r: bool)
    ensures
        r == (opt_str(raw) == Some("1"@)),
{
    match raw {
        Some(v) => same(v, "1"),
        None => false,
    }
}

impl ReaperCounters {
    /// The reaper lives while it was started more often than it died.
    pub open spec fn alive(self) -> bool {
        self.spawned > self.deaths
    }

    pub fn new() -> (c: ReaperCounters)
        ensures
            c == (ReaperCounters { spawned: 0, deaths: 0 }),
    {
        ReaperCounters { spawned: 0, deaths: 0 }
    }

    /// The reaper is started.
    pub fn started(&mut self)
        ensures
            *final(self) == (ReaperCounters {
                spawned: old(self).spawned.wrapping_add(1),
                ..*old(self)
            }),
            old(self).spawned == old(self).deaths && old(self).spawned < u64::MAX ==> final(self).alive(),
    {
        self.spawned = self.spawned.wrapping_add(1);
    }

    /// The reaper died and is started again.
    pub fn respawned(&mut self)
        ensures
            *final(self) == (ReaperCounters {
                spawned: old(self).spawned.wrapping_add(1),
                deaths: old(self).deaths.wrapping_add(1),
            }),
            old(self).alive() && old(self).spawned < u64::MAX ==> final(self).alive(),
    {
        self.deaths = self.deaths.wrapping_add(1);
        self.spawned = self.spawned.wrapping_add(1);
    }
}

/// How long a pooled connection is waited for is read as it is written, with white space
/// around it or without; left open it is twenty milliseconds; and what is no number is
/// refused.
pub proof fn waits_are_read_back(a: Seq<char>, n: u64, b: Seq<char>, raw: Seq<char>)
    requires
        all_white(a),
        all_white(b),
    ensures
        unwrap_wait_of(Some(a + decimal(n as nat) + b)) == Ok::<u64, Seq<char>>(n),
        unwrap_wait_of(Some(a + b)) == Ok::<u64, Seq<char>>(20),
        unwrap_wait_of(None) == Ok::<u64, Seq<char>>(20),
        trimmed(raw).len() > 0 && !is_digits(unsigned(trimmed(raw))) ==> unwrap_wait_of(Some(raw))
            is Err,
{
    let d = decimal(n as nat);
    let empty = Seq::<char>::empty();
    numbers_are_read_back(n as nat, u64::MAX as nat);
    assert('0' <= d[0] && d[0] <= '9');
    assert('0' <= d[d.len() - 1] && d[d.len() - 1] <= '9');
    trimming_takes_what_is_around(a, d, b);
    trimming_takes_what_is_around(a, empty, b);
    assert(a + empty + b =~= a + b);
    reveal_strlit("");
    assert(""@ =~= empty);
}

/// A wait adds to the sum of all waits, and the longest is the longest of all so far; what
/// is too long to count counts as the longest that can be.
pub proof fn waits_add_up(c: PoolCounters, ns: u128)
    ensures
        ({
            let w = c.waited(ns);
            &&& ns + c.unwrap_wait_ns <= u64::MAX ==> w.unwrap_wait_ns == c.unwrap_wait_ns + ns
            &&& w.unwrap_wait_max_ns >= c.unwrap_wait_max_ns
            &&& w.unwrap_wait_max_ns >= ns || w.unwrap_wait_max_ns == u64::MAX
            &&& w.unwrap_wait_max_ns == c.unwrap_wait_max_ns || w.unwrap_wait_max_ns == ns
                || w.unwrap_wait_max_ns == u64::MAX
            &&& ns <= u64::MAX ==> w.unwrap_wait_max_ns == c.unwrap_wait_max_ns
                || w.unwrap_wait_max_ns == ns
            &&& w.stale_evictions == c.stale_evictions && w.pool_reuse_total == c.pool_reuse_total
                && w.try_unwrap_fail_total == c.try_unwrap_fail_total && w.unwrap_retry_total
                == c.unwrap_retry_total && w.checkin_total == c.checkin_total
                && w.fresh_connect_total == c.fresh_connect_total && w.lru_evictions
                == c.lru_evictions
        }),
{
}

/// The pool report tells every count under its own name.
pub proof fn pools_are_told_by_name<S>(p: WorkerFramePool<S>, contended: u64, contended_ns: u64)
    ensures
        ({
            let f = p.health(contended, contended_ns);
            let c = p.counters;
            &&& f.contains(("pool_reuse_total"@, decimal(c.pool_reuse_total as nat)))
            &&& f.contains(("fresh_connect_total"@, decimal(c.fresh_connect_total as nat)))
            &&& f.contains(("stale_evictions"@, decimal(c.stale_evictions as nat)))
            &&& f.contains(("try_unwrap_fail_total"@, decimal(c.try_unwrap_fail_total as nat)))
            &&& f.contains(("unwrap_retry_total"@, decimal(c.unwrap_retry_total as nat)))
            &&& f.contains(("checkin_total"@, decimal(c.checkin_total as nat)))
            &&& f.contains(("lru_evictions"@, decimal(c.lru_evictions as nat)))
            &&& f.contains(("frame_pool_idle"@, decimal(p.idle_ceiling as nat)))
            &&& f.contains(("idle_high_water"@, decimal(p.pool.peak() as nat)))
            &&& f.contains(("pool_lock_contended_total"@, decimal(contended as nat)))
            &&& f.contains(("pool_lock_wait_ns"@, decimal(contended_ns as nat)))
            &&& f.contains(("frame_pool_idle_source"@, text_value(p.idle_ceiling_source.text())))
            &&& f.contains(("unwrap_wait_budget_ms"@, decimal(p.unwrap_wait_budget_ms as nat)))
            &&& f.contains(("unwrap_wait_ns"@, decimal(c.unwrap_wait_ns as nat)))
            &&& f.contains(("unwrap_wait_max_ns"@, decimal(c.unwrap_wait_max_ns as nat)))
            &&& f.len() == 16
        }),
{
    let f = p.health(contended, contended_ns);
    assert(f[0].0 == "pool_reuse_total"@ && f[1].0 == "fresh_connect_total"@ && f[2].0
        == "stale_evictions"@ && f[3].0 == "try_unwrap_fail_total"@ && f[4].0
        == "unwrap_retry_total"@ && f[5].0 == "checkin_total"@ && f[6].0 == "lru_evictions"@
        && f[7].0 == "frame_pool_idle"@ && f[9].0 == "idle_high_water"@ && f[10].0
        == "pool_lock_contended_total"@ && f[11].0 == "pool_lock_wait_ns"@ && f[12].0
        == "frame_pool_idle_source"@ && f[13].0 == "unwrap_wait_budget_ms"@ && f[14].0
        == "unwrap_wait_ns"@ && f[15].0 == "unwrap_wait_max_ns"@);
}

} // verus!
