//! One request over the pooled hop: which workers are tried, when it waits for a slot,
//! when it may be sent again, and how its answer is streamed.
use vstd::prelude::*;

use crate::candidates::{candidate_order, order, others, pin_in, rotation, sticky_order};
use crate::dispatch::{
    any_admittable, cap, cap_of_env, in_mask, mode, mode_of_env, room, slot, Dispatch, DispatchMode,
    MAX_WORKERS,
};
use crate::fairness::{saturated, LongLivedAdmission, LongLivedRegistry};
use crate::limits::MAX_RESPONSE_BYTES;
use crate::sticky::{
    assigned, fewest, gauged, hit, pinned, repinned, reread, same_but_pins, shard_of,
    sticky_lookup_or_assign, sticky_note_fallback, sticky_repin, sticky_reread,
};

verus! {

/// Why a worker did not answer.
#[derive(Clone, Copy, Debug, PartialEq, Eq, Structural)]
pub enum FrameSendError {
    /// It could not be reached.
    Connect,
    /// The request may have been seen.
    AfterWrite { status: u16 },
    /// It is at its cap.
    AtCapacity,
}

/// What to do next.
#[derive(Clone, Copy, Debug, PartialEq, Eq)]
pub enum FrameMove {
    Try { worker: usize },
    Park { mask: u32, k: usize },
    Done { result: Result<u16, u16> },
}

/// A request on its way to some worker.
pub struct FrameHop {
    pub workers: usize,
    pub cap: Option<usize>,
    pub pin: Option<(u64, usize)>,
    pub woken: bool,
    pub line: Vec<usize>,
    pub pos: usize,
    pub at_capacity: u32,
    pub pin_unreachable: bool,
}

/// The mode in force.
pub open spec fn mode_in_force(d: Dispatch, env: Option<&str>) -> DispatchMode {
    match d.mode {
        Some(m) => m,
        None => mode_of_env(env),
    }
}

/// The cap in force.
pub open spec fn cap_in_force(d: Dispatch, env: Option<&str>) -> Option<usize> {
    match d.cap {
        Some(k) => k,
        None => cap_of_env(env),
    }
}

impl FrameHop {
    /// The workers in line exist.
    pub open spec fn wf(&self) -> bool {
        &&& self.workers >= 1
        &&& 2 * self.workers <= usize::MAX
        &&& self.pos <= self.line@.len()
        &&& forall|i: int| 0 <= i < self.line@.len() ==> #[trigger] self.line@[i] < self.workers
    }

    /// The next move: the next worker in line; when the line is through, a wait for one
    /// of those at their cap, or 503 when there are none.
    pub open spec fn due(&self) -> FrameMove {
        if self.pos < self.line@.len() {
            FrameMove::Try { worker: self.line@[self.pos as int] }
        } else if self.at_capacity == 0 {
            FrameMove::Done { result: Err(503) }
        } else {
            FrameMove::Park {
                mask: self.at_capacity,
                k: match self.cap {
                    Some(k) => k,
                    None => usize::MAX,
                },
            }
        }
    }

    /// Starts a request in a fleet of `workers`; `key` tells connections apart under
    /// sticky dispatch. Behind requests that wait already, it waits first.
    pub fn begin(
        d: &mut Dispatch,
        env_mode: Option<&str>,
        env_cap: Option<&str>,
        workers: usize,
        key: Option<u64>,
    ) -> (r: Result<(FrameHop, Option<FrameMove>), u16>)
        requires
            old(d).wf(),
            2 * workers <= usize::MAX,
        ensures
            (r matches Ok((h, _)) ==> (h.pin matches Some((of, w)) ==> {
                &&& key == Some(of)
                &&& w < workers
                &&& final(d).sticky@.shards[(of % 16) as int].contains_key(of)
                &&& final(d).sticky@.shards[(of % 16) as int][of] == w
            })),
            r is Err <==> workers == 0,
            final(d).wf(),
            workers == 0 ==> (r matches Err(s) && s == 503) && *final(d) == *old(d),
            workers > 0 ==> ({
                let k = cap_in_force(*old(d), env_cap);
                let sticky = mode_in_force(*old(d), env_mode) == DispatchMode::Sticky;
                &&& final(d).gauges == old(d).gauges
                &&& final(d).parked == old(d).parked
                &&& final(d).park_total == old(d).park_total
                &&& final(d).mode == Some(mode_in_force(*old(d), env_mode))
                &&& final(d).cap == Some(k)
                &&& final(d).capped == (old(d).capped || (old(d).cap is None && k is Some))
                &&& r matches Ok((h, first)) && {
                    &&& h.wf()
                    &&& h.workers == workers
                    &&& h.cap == k
                    &&& !h.woken
                    &&& h.line@.len() == 0
                    &&& h.at_capacity == 0
                    &&& !h.pin_unreachable
                    &&& first == (if k is Some && old(d).parked > 0 {
                        Some(FrameMove::Park { mask: u32::MAX, k: k->0 })
                    } else {
                        None
                    })
                    &&& match key {
                        Some(key) if sticky => match pinned(
                            old(d).sticky@.shards[shard_of(key)],
                            key,
                        ) {
                            Some(v) if v < gauged(workers) => h.pin == Some((key, v as usize))
                                && final(d).sticky@ == hit(old(d).sticky@),
                            _ => h.pin == Some(
                                (
                                    key,
                                    fewest(
                                        old(d).sticky@.counts,
                                        old(d).gauges.in_flight@,
                                        gauged(workers),
                                    ) as usize,
                                ),
                            ) && final(d).sticky@ == assigned(
                                old(d).sticky@,
                                old(d).gauges.in_flight@,
                                key,
                                workers,
                            ),
                        },
                        _ => {
                            &&& h.pin is None
                            &&& final(d).sticky@ == (if sticky {
                                crate::dispatch::Pins {
                                    fallbacks: old(d).sticky@.fallbacks.wrapping_add(1),
                                    ..old(d).sticky@
                                }
                            } else {
                                old(d).sticky@
                            })
                        },
                    }
                }
            }),
    {
        if workers == 0 {
            return Err(503);
        }
        let k: Option<usize> = cap(d, env_cap);
        let m: DispatchMode = mode(d, env_mode);
        let mut pin: Option<(u64, usize)> = None;
        if m == DispatchMode::Sticky {
            match key {
                Some(key) => {
                    let w: usize = sticky_lookup_or_assign(d, key, workers);
                    pin = Some((key, w));
                },
                None => sticky_note_fallback(d),
            }
        }
        let first: Option<FrameMove> = match k {
            Some(kv) => if d.parked > 0 {
                Some(FrameMove::Park { mask: u32::MAX, k: kv })
            } else {
                None
            },
            None => None,
        };
        let h = FrameHop {
            workers,
            cap: k,
            pin,
            woken: false,
            line: Vec::new(),
            pos: 0,
            at_capacity: 0,
            pin_unreachable: false,
        };
        Ok((h, first))
    }

    /// Lines the workers up for one round, which starts at the worker that the running
    /// number `ticket` falls on. After a wait the pin is looked up again.
    pub fn start_round(&mut self, d: &mut Dispatch, env_mode: Option<&str>, ticket: usize) -> (m:
        FrameMove)
        requires
            old(self).wf(),
            old(d).wf(),
        ensures
            (final(self).pin matches Some((_, w)) ==> (w < 16 && w < old(self).workers ==> m
                == (FrameMove::Try { worker: w }))),
            m is Try,
            final(self).line@.len() > 0,
            final(self).wf(),
            final(d).wf(),
            final(self).workers == old(self).workers,
            final(self).cap == old(self).cap,
            final(self).woken == old(self).woken,
            final(self).pos == 0,
            final(self).at_capacity == 0,
            !final(self).pin_unreachable,
            m == final(self).due(),
            final(d).gauges == old(d).gauges,
            final(d).parked == old(d).parked,
            final(d).park_total == old(d).park_total,
            final(d).cap == old(d).cap,
            final(d).capped == old(d).capped,
            final(d).mode == (if old(self).pin is Some {
                old(d).mode
            } else {
                Some(mode_in_force(*old(d), env_mode))
            }),
            ({
                let start = ticket % old(self).workers;
                match old(self).pin {
                    Some((key, prior)) => {
                        let now = if old(self).woken {
                            match pinned(old(d).sticky@.shards[shard_of(key)], key) {
                                Some(v) => v as usize,
                                None => prior,
                            }
                        } else {
                            prior
                        };
                        let p = pin_in(now, gauged(old(self).workers));
                        &&& final(self).pin == Some((key, now))
                        &&& final(self).line@ == seq![p] + others(
                            rotation(
                                start as int,
                                gauged(old(self).workers),
                                gauged(old(self).workers),
                            ),
                            p,
                        )
                        &&& final(d).sticky@ == (if old(self).woken {
                            reread(old(d).sticky@, key, prior)
                        } else {
                            old(d).sticky@
                        })
                    },
                    None => {
                        &&& final(self).pin is None
                        &&& final(self).line@ == order(
                            start,
                            old(self).workers,
                            mode_in_force(*old(d), env_mode),
                            old(d).gauges.in_flight@,
                        )
                        &&& final(d).sticky@ == old(d).sticky@
                    },
                }
            }),
    {
        let n: usize = self.workers;
        let start: usize = ticket % n;
        self.at_capacity = 0;
        self.pin_unreachable = false;
        self.pos = 0;
        match self.pin {
            Some((key, prior)) => {
                let now: usize = if self.woken {
                    sticky_reread(d, key, prior)
                } else {
                    prior
                };
                self.pin = Some((key, now));
                let o = sticky_order(now, start, n);
                self.line = o.iter();
                proof {
                    let len = gauged(n);
                    let p = pin_in(now, len);
                    assert forall|i: int| 0 <= i < self.line@.len() implies #[trigger] self.line@[i]
                        < n by {
                        if i > 0 {
                            let tail = others(rotation(start as int, len, len), p);
                            assert(self.line@[i] == tail[i - 1]);
                            lemma_others_in_fleet(rotation(start as int, len, len), p, len, i - 1);
                        }
                    }
                }
            },
            None => {
                let ghost depth = d.gauges.in_flight@;
                let ghost m = mode_in_force(*d, env_mode);
                let o = candidate_order(d, env_mode, start, n);
                self.line = o.iter();
                proof {
                    lemma_order_in_fleet(start, n, m, depth);
                }
            },
        }
        self.next()
    }

    fn next(&self) -> (m: FrameMove)
        requires
            self.wf(),
        ensures
            m == self.due(),
    {
        if self.pos < self.line.len() {
            return FrameMove::Try { worker: self.line[self.pos] };
        }
        if self.at_capacity == 0 {
            return FrameMove::Done { result: Err(503) };
        }
        FrameMove::Park {
            mask: self.at_capacity,
            k: match self.cap {
                Some(k) => k,
                None => usize::MAX,
            },
        }
    }

    /// Takes in what the worker at the head of the line gave. A pin moves only when its
    /// own worker could not be reached and another one answered.
    pub fn advance(&mut self, d: &mut Dispatch, outcome: Result<u16, FrameSendError>) -> (m:
        FrameMove)
        requires
            old(self).wf(),
            old(d).wf(),
            old(self).pos < old(self).line@.len(),
        ensures
            outcome is Ok ==> m == (FrameMove::Done { result: Ok::<u16, u16>(outcome->Ok_0) }),
            m is Try ==> final(self).pos == old(self).pos + 1 && (outcome matches Err(e) && !(
            e is AfterWrite)),
            !(outcome is Ok) ==> final(d).sticky@ == old(d).sticky@,
            !old(self).pin_unreachable ==> final(d).sticky@ == old(d).sticky@,
            m is Park ==> old(self).at_capacity != 0 || outcome == Err::<u16, FrameSendError>(
                FrameSendError::AtCapacity,
            ),
            final(self).wf(),
            final(d).wf(),
            final(self).workers == old(self).workers,
            final(self).cap == old(self).cap,
            final(self).pin == old(self).pin,
            final(self).woken == old(self).woken,
            final(self).line@ == old(self).line@,
            same_but_pins(*old(d), *final(d)),
            ({
                let w = old(self).line@[old(self).pos as int];
                match outcome {
                    Ok(status) => {
                        &&& m == (FrameMove::Done { result: Ok::<u16, u16>(status) })
                        &&& *final(self) == *old(self)
                        &&& final(d).sticky@ == (match old(self).pin {
                            Some((key, p)) => if w != p && old(self).pin_unreachable {
                                repinned(old(d).sticky@, key, p, w)
                            } else {
                                old(d).sticky@
                            },
                            None => old(d).sticky@,
                        })
                    },
                    Err(FrameSendError::AfterWrite { status }) => {
                        &&& m == (FrameMove::Done { result: Err::<u16, u16>(status) })
                        &&& *final(self) == *old(self)
                        &&& final(d).sticky@ == old(d).sticky@
                    },
                    Err(FrameSendError::Connect) => {
                        &&& m == final(self).due()
                        &&& final(d).sticky@ == old(d).sticky@
                        &&& final(self).pos == old(self).pos + 1
                        &&& final(self).at_capacity == old(self).at_capacity
                        &&& final(self).pin_unreachable == (old(self).pin_unreachable || (
                        old(self).pin matches Some((_, p)) && p == w))
                    },
                    Err(FrameSendError::AtCapacity) => {
                        &&& m == final(self).due()
                        &&& final(d).sticky@ == old(d).sticky@
                        &&& final(self).pos == old(self).pos + 1
                        &&& final(self).pin_unreachable == old(self).pin_unreachable
                        &&& forall|i: int|
                            0 <= i < MAX_WORKERS ==> (#[trigger] in_mask(
                                final(self).at_capacity,
                                i,
                            ) <==> in_mask(old(self).at_capacity, i) || i == slot(w))
                        &&& final(self).at_capacity != 0
                    },
                }
            }),
    {
        let n: usize = self.line.len();
        let w: usize = self.line[self.pos];
        match outcome {
            Ok(status) => {
                if let Some((key, p)) = self.pin {
                    if w != p && self.pin_unreachable {
                        sticky_repin(d, key, p, w);
                    }
                }
                FrameMove::Done { result: Ok(status) }
            },
            Err(FrameSendError::AfterWrite { status }) => FrameMove::Done { result: Err(status) },
            Err(FrameSendError::Connect) => {
                if let Some((_, p)) = self.pin {
                    if p == w {
                        self.pin_unreachable = true;
                    }
                }
                self.pos = self.pos + 1;
                self.next()
            },
            Err(FrameSendError::AtCapacity) => {
                let g: u32 = if w < MAX_WORKERS {
                    w as u32
                } else {
                    (MAX_WORKERS - 1) as u32
                };
                let before: u32 = self.at_capacity;
                self.at_capacity = before | (1u32 << g);
                proof {
                    lemma_mask(before, g);
                }
                self.pos = self.pos + 1;
                self.next()
            },
        }
    }

    /// The wait is over: with a status when the edge is draining, else with a slot to
    /// try for.
    pub fn parked(&mut self, result: Result<(), u16>) -> (m: Option<FrameMove>)
        ensures
            final(self).woken == (old(self).woken || result is Ok),
            final(self).workers == old(self).workers,
            final(self).cap == old(self).cap,
            final(self).pin == old(self).pin,
            final(self).line == old(self).line,
            final(self).pos == old(self).pos,
            final(self).at_capacity == old(self).at_capacity,
            final(self).pin_unreachable == old(self).pin_unreachable,
            m == (match result {
                Ok(_) => None,
                Err(status) => Some(FrameMove::Done { result: Err::<u16, u16>(status) }),
            }),
    {
        match result {
            Ok(()) => {
                self.woken = true;
                None
            },
            Err(status) => Some(FrameMove::Done { result: Err(status) }),
        }
    }
}

proof fn lemma_mask(before: u32, g: u32)
    requires
        g < MAX_WORKERS,
    ensures
        forall|i: int|
            0 <= i < MAX_WORKERS ==> (#[trigger] in_mask(before | (1u32 << g), i) <==> in_mask(
                before,
                i,
            ) || i == g),
        before | (1u32 << g) != 0,
{
    assert forall|i: int| 0 <= i < MAX_WORKERS implies (#[trigger] in_mask(
        before | (1u32 << g),
        i,
    ) <==> in_mask(before, i) || i == g) by {
        let j = i as u32;
        assert((before | (1u32 << g)) & (1u32 << j) != 0 <==> before & (1u32 << j) != 0 || j == g)
            by (bit_vector)
            requires
                j < 16,
                g < 16,
        ;
    }
    assert(before | (1u32 << g) != 0) by (bit_vector)
        requires
            g < 16,
    ;
}

proof fn lemma_others_in_fleet(s: Seq<usize>, x: usize, n: int, i: int)
    requires
        forall|j: int| 0 <= j < s.len() ==> #[trigger] s[j] < n,
        0 <= i < others(s, x).len(),
    ensures
        others(s, x)[i] < n,
    decreases s.len(),
{
    if s.len() > 0 {
        let t = s.drop_last();
        if i < others(t, x).len() {
            lemma_others_in_fleet(t, x, n, i);
        }
    }
}

proof fn lemma_order_in_fleet(start: usize, n: usize, m: DispatchMode, depth: Seq<usize>)
    requires
        n >= 1,
    ensures
        forall|i: int|
            0 <= i < order(start, n, m, depth).len() ==> #[trigger] order(start, n, m, depth)[i] < n,
{
    let base = rotation(start as int, n as int, gauged(n));
    assert forall|i: int| 0 <= i < order(start, n, m, depth).len() implies #[trigger] order(
        start,
        n,
        m,
        depth,
    )[i] < n by {
        broadcast use vstd::seq_lib::group_to_multiset_ensures;

        let o = order(start, n, m, depth);
        if m != DispatchMode::Rr {
            if m == DispatchMode::FreeFirst {
                crate::candidates::idle_first_promotes_one(base, depth);
            } else {
                crate::candidates::by_depth_is_a_stable_sort(base, depth);
            }
            assert(o.contains(o[i]));
            assert(o.to_multiset().count(o[i]) > 0);
            assert(base.to_multiset().count(o[i]) > 0);
            assert(base.contains(o[i]));
        }
    }
}

/// What a waiting request finds when it looks.
#[derive(Clone, Copy, Debug, PartialEq, Eq, Structural)]
pub enum ParkLook {
    /// The edge is draining: 503.
    Drained,
    /// A slot may be free; `pass_on` says whether another waiting request should look too.
    Go { pass_on: bool },
    Wait,
}

/// A waiting request looks round: a drain comes first, then a free slot.
pub fn park_look(d: &Dispatch, draining: bool, mask: u32, k: usize) -> (l: ParkLook)
    ensures
        draining <==> l is Drained,
        l is Go ==> exists|i: int|
            0 <= i < 16 && #[trigger] d.gauges.in_flight@[i] < k,
        l matches ParkLook::Go { pass_on } ==> (pass_on <==> d.parked >= 2),
        l == (if draining {
            ParkLook::Drained
        } else if room(d.gauges.in_flight@, mask, k) {
            ParkLook::Go { pass_on: d.parked > 1 }
        } else {
            ParkLook::Wait
        }),
{
    if draining {
        ParkLook::Drained
    } else if any_admittable(d, mask, k) {
        ParkLook::Go { pass_on: d.parked > 1 }
    } else {
        ParkLook::Wait
    }
}

/// Whether a worker is tried at all: not while the edge is draining, and not at its cap.
pub fn send_gate(d: &Dispatch, draining: bool, worker_idx: usize, cap: Option<usize>) -> (r: Result<
    (),
    FrameSendError,
>)
    ensures
        draining ==> r is Err,
        !draining && cap is None ==> r is Ok,
        r is Ok && worker_idx < 16 ==> (cap matches Some(k) ==> d.gauges.in_flight@[worker_idx as int]
            < k),
        (!draining && worker_idx < 16 && (cap matches Some(k) && d.gauges.in_flight@[worker_idx as int]
            < k)) ==> r is Ok,
        r matches Err(FrameSendError::AtCapacity) ==> !draining && cap is Some,
        r == (if draining {
            Err::<(), FrameSendError>(FrameSendError::AfterWrite { status: 503 })
        } else if (cap matches Some(k) && d.gauges.in_flight@[slot(worker_idx)] >= k) {
            Err::<(), FrameSendError>(FrameSendError::AtCapacity)
        } else {
            Ok::<(), FrameSendError>(())
        }),
{
    if draining {
        return Err(FrameSendError::AfterWrite { status: 503 });
    }
    if let Some(k) = cap {
        let i: usize = if worker_idx < MAX_WORKERS {
            worker_idx
        } else {
            MAX_WORKERS - 1
        };
        if d.gauges.in_flight[i] >= k {
            return Err(FrameSendError::AtCapacity);
        }
    }
    Ok(())
}

/// Why an exchange with a worker failed.
#[derive(Clone, Copy, Debug, PartialEq, Eq, Structural)]
pub enum ExchangeError {
    /// The connection was stale: it ended without a byte of an answer.
    StaleBeforeDispatch { request_delivered: bool },
    Status { status: u16 },
}

impl ExchangeError {
    pub open spec fn code(self) -> u16 {
        match self {
            ExchangeError::StaleBeforeDispatch { request_delivered } => 502,
            ExchangeError::Status { status } => status,
        }
    }

    /// The status that the failure is answered with.
    pub fn status(&self) -> (r: u16)
        ensures
            r == self.code(),
    {
        match self {
            ExchangeError::StaleBeforeDispatch { request_delivered: _ } => 502,
            ExchangeError::Status { status } => *status,
        }
    }
}

/// What the start of an exchange gave.
pub enum ExchangeEvent {
    WriteFailed,
    /// The worker closed the connection before it sent anything.
    NoAnswer,
    ReadFailed { status: u16 },
    Answer { kind: FrameKind },
}

/// The kinds of frames a worker sends.
#[derive(Clone, Copy, Debug, PartialEq, Eq, Structural)]
pub enum FrameKind {
    Full,
    Head,
    Chunk { len: usize },
    End,
}

/// How an exchange goes on.
#[derive(Clone, Copy, Debug, PartialEq, Eq, Structural)]
pub enum ExchangeMove {
    /// Answer with the one frame at hand.
    Whole,
    /// Answer with a stream of frames.
    Stream,
    Fail { error: ExchangeError },
}

/// The first answer decides how an exchange goes on; an answer that starts in the middle
/// of a stream is answered with 502.
pub fn exchange_first(event: ExchangeEvent) -> (m: ExchangeMove)
    ensures
        m is Whole <==> event matches ExchangeEvent::Answer { kind: FrameKind::Full },
        m is Stream <==> event matches ExchangeEvent::Answer { kind: FrameKind::Head },
        event is NoAnswer <==> (m matches ExchangeMove::Fail {
            error: ExchangeError::StaleBeforeDispatch { request_delivered },
        } && request_delivered),
        event is WriteFailed <==> (m matches ExchangeMove::Fail {
            error: ExchangeError::StaleBeforeDispatch { request_delivered },
        } && !request_delivered),
        m == (match event {
            ExchangeEvent::WriteFailed => ExchangeMove::Fail {
                error: ExchangeError::StaleBeforeDispatch { request_delivered: false },
            },
            ExchangeEvent::NoAnswer => ExchangeMove::Fail {
                error: ExchangeError::StaleBeforeDispatch { request_delivered: true },
            },
            ExchangeEvent::ReadFailed { status } => ExchangeMove::Fail {
                error: ExchangeError::Status { status },
            },
            ExchangeEvent::Answer { kind } => match kind {
                FrameKind::Full => ExchangeMove::Whole,
                FrameKind::Head => ExchangeMove::Stream,
                _ => ExchangeMove::Fail { error: ExchangeError::Status { status: 502 } },
            },
        }),
{
    match event {
        ExchangeEvent::WriteFailed => ExchangeMove::Fail {
            error: ExchangeError::StaleBeforeDispatch { request_delivered: false },
        },
        ExchangeEvent::NoAnswer => ExchangeMove::Fail {
            error: ExchangeError::StaleBeforeDispatch { request_delivered: true },
        },
        ExchangeEvent::ReadFailed { status } => ExchangeMove::Fail {
            error: ExchangeError::Status { status },
        },
        ExchangeEvent::Answer { kind } => match kind {
            FrameKind::Full => ExchangeMove::Whole,
            FrameKind::Head => ExchangeMove::Stream,
            _ => ExchangeMove::Fail { error: ExchangeError::Status { status: 502 } },
        },
    }
}

/// What follows an exchange.
#[derive(Clone, Copy, Debug, PartialEq, Eq, Structural)]
pub enum SendMove {
    /// The client has its answer; `keep` says whether the connection goes back to the
    /// pool.
    Answered { status: u16, keep: bool },
    /// Once more, over a new connection.
    RetryFresh,
    Failed { error: FrameSendError },
}

/// Whether a request may be sent again: only after a pooled connection turned out to be
/// stale, and a request that was delivered only where a worker that answers nothing
/// cannot have run it.
pub open spec fn may_retry(error: ExchangeError, reused: bool, is_async: bool) -> bool {
    error matches ExchangeError::StaleBeforeDispatch { request_delivered } && reused && (
    !request_delivered || !is_async)
}

/// Decides what follows an exchange; `reused` says whether its connection came from the
/// pool.
pub fn after_exchange(
    result: Result<(u16, bool), ExchangeError>,
    reused: bool,
    is_async: bool,
    draining: bool,
) -> (m: SendMove)
    ensures
        m is Answered <==> result is Ok,
        m is RetryFresh ==> reused && (result matches Err(ExchangeError::StaleBeforeDispatch { .. })),
        (m matches SendMove::Answered { status, keep } ==> status == result->Ok_0.0 && (keep ==> !draining
            && result->Ok_0.1)),
        (result matches Ok((_, reusable)) && reusable && !draining) ==> (m matches SendMove::Answered {
            keep,
            ..
        } && keep),
        m == (match result {
            Ok((status, reusable)) => SendMove::Answered { status, keep: reusable && !draining },
            Err(error) => if may_retry(error, reused, is_async) {
                SendMove::RetryFresh
            } else {
                SendMove::Failed { error: FrameSendError::AfterWrite { status: error.code() } }
            },
        }),
{
    match result {
        Ok((status, reusable)) => SendMove::Answered { status, keep: reusable && !draining },
        Err(error) => {
            if let ExchangeError::StaleBeforeDispatch { request_delivered } = error {
                if reused && (!request_delivered || !is_async) {
                    return SendMove::RetryFresh;
                }
            }
            SendMove::Failed { error: FrameSendError::AfterWrite { status: error.status() } }
        },
    }
}

/// A request that reached an async worker is never sent a second time, and a fresh
/// connection is never retried.
pub proof fn delivered_requests_are_not_replayed(error: ExchangeError, reused: bool)
    ensures
        error matches ExchangeError::StaleBeforeDispatch { request_delivered } ==> (
        request_delivered ==> !may_retry(error, reused, true)),
        forall|is_async: bool| !#[trigger] may_retry(error, false, is_async),
        error is Status ==> forall|is_async: bool| !#[trigger] may_retry(error, reused, is_async),
{
}

/// A streamed answer while it goes to the client.
pub struct StreamRun {
    streamed: u64,
    head_sent: bool,
}

/// What the next look at the worker gave.
pub enum StreamEvent {
    /// The edge is draining.
    Draining,
    Frame { kind: FrameKind },
}

/// What to send to the client.
#[derive(Clone, Copy, Debug, PartialEq, Eq, Structural)]
pub enum StreamMove {
    /// Nothing: an empty chunk would end the answer.
    Skip,
    SendChunk { with_head: bool },
    Finish { with_head: bool, reusable: bool },
    FinishDrained { with_head: bool },
    Fail { status: u16 },
}

impl StreamRun {
    /// The bytes sent so far, stopped at the largest number.
    pub closed spec fn streamed(&self) -> u64 {
        self.streamed
    }

    pub closed spec fn head_sent(&self) -> bool {
        self.head_sent
    }

    pub fn begin() -> (s: StreamRun)
        ensures
            s.streamed() == 0,
            !s.head_sent(),
    {
        StreamRun { streamed: 0, head_sent: false }
    }

    /// Decides what to send; `surplus` says whether bytes are left over on the
    /// connection. The head goes out once, before the first thing that is sent.
    pub fn step(
        &mut self,
        event: StreamEvent,
        surplus: bool,
        admission: &mut LongLivedAdmission,
        registry: &mut LongLivedRegistry,
    ) -> (m: StreamMove)
        ensures
            m is SendChunk ==> final(self).streamed() <= 67108864 && final(self).streamed()
                > old(self).streamed(),
            (m matches StreamMove::SendChunk { with_head } ==> with_head != old(self).head_sent()),
            (m matches StreamMove::Finish { with_head, reusable } ==> with_head != old(
                self,
            ).head_sent() && reusable != surplus),
            (m matches StreamMove::FinishDrained { with_head } ==> with_head != old(
                self,
            ).head_sent()),
            m is SendChunk || m is Finish || m is FinishDrained <==> final(self).head_sent() && !(
            m is Skip || m is Fail),
            final(admission).is_complete() == old(admission).is_complete(),
            final(admission).is_drained() == old(admission).is_drained(),
            match event {
                StreamEvent::Draining => {
                    &&& m == (StreamMove::FinishDrained { with_head: !old(self).head_sent() })
                    &&& final(self).head_sent()
                    &&& final(self).streamed() == old(self).streamed()
                    &&& *final(admission) == *old(admission)
                    &&& *final(registry) == *old(registry)
                },
                StreamEvent::Frame { kind } => match kind {
                    FrameKind::Chunk { len } => if len == 0 {
                        &&& m is Skip
                        &&& *final(self) == *old(self)
                        &&& *final(admission) == *old(admission)
                        &&& *final(registry) == *old(registry)
                    } else {
                        let sum = saturated(old(self).streamed(), len as u64);
                        &&& final(self).streamed() == sum
                        &&& if sum > MAX_RESPONSE_BYTES {
                            &&& m == (StreamMove::Fail { status: 502 })
                            &&& *final(admission) == *old(admission)
                            &&& *final(registry) == *old(registry)
                        } else {
                            &&& final(admission).bytes() == saturated(
                                old(admission).bytes(),
                                len as u64,
                            )
                            &&& final(registry)@ == old(registry)@.streamed(len as u64)
                            &&& if final(admission).bytes() <= old(registry)@.max_buffered_bytes {
                                &&& m == (StreamMove::SendChunk { with_head: !old(self).head_sent() })
                                &&& final(self).head_sent()
                            } else {
                                m == (StreamMove::Fail { status: 502 })
                            }
                        }
                    },
                    FrameKind::End => {
                        &&& m == (StreamMove::Finish {
                            with_head: !old(self).head_sent(),
                            reusable: !surplus,
                        })
                        &&& final(self).head_sent()
                        &&& final(self).streamed() == old(self).streamed()
                        &&& *final(admission) == *old(admission)
                        &&& *final(registry) == *old(registry)
                    },
                    _ => {
                        &&& m == (StreamMove::Fail { status: 502 })
                        &&& *final(self) == *old(self)
                        &&& *final(admission) == *old(admission)
                        &&& *final(registry) == *old(registry)
                    },
                },
            },
    {
        let with_head: bool = !self.head_sent;
        match event {
            StreamEvent::Draining => {
                self.head_sent = true;
                StreamMove::FinishDrained { with_head }
            },
            StreamEvent::Frame { kind } => match kind {
                FrameKind::Chunk { len } => {
                    if len == 0 {
                        return StreamMove::Skip;
                    }
                    self.streamed = self.streamed.saturating_add(len as u64);
                    if self.streamed > MAX_RESPONSE_BYTES as u64 {
                        return StreamMove::Fail { status: 502 };
                    }
                    if !admission.record_bytes(registry, len as u64) {
                        return StreamMove::Fail { status: 502 };
                    }
                    self.head_sent = true;
                    StreamMove::SendChunk { with_head }
                },
                FrameKind::End => {
                    self.head_sent = true;
                    StreamMove::Finish { with_head, reusable: !surplus }
                },
                _ => StreamMove::Fail { status: 502 },
            },
        }
    }
}

/// A pooled connection that turned out to be stale is made up for: a request that was not
/// delivered goes out again whatever the worker, and one that was delivered goes out again
/// to a worker that runs nothing in the background. A failure with a status of its own is
/// passed on with that status, a stale connection that cannot be made up for with 502.
pub proof fn stale_connections_are_made_up_for(error: ExchangeError, is_async: bool)
    ensures
        error matches ExchangeError::StaleBeforeDispatch { request_delivered } ==> (may_retry(
            error,
            true,
            is_async,
        ) <==> !(request_delivered && is_async)) && error.code() == 502,
        error matches ExchangeError::Status { status } ==> error.code() == status,
{
}

/// The line is walked to its end before anything else happens: as long as a worker is left
/// it is the next one, whatever became of those before; then those at their cap are waited
/// for, all of them and no others; and only when there are none is the request given up.
pub proof fn lines_are_walked_to_their_end(h: FrameHop)
    ensures
        h.due() is Try <==> h.pos < h.line@.len(),
        h.due() matches FrameMove::Try { worker } ==> worker == h.line@[h.pos as int],
        h.due() is Park <==> h.pos >= h.line@.len() && h.at_capacity != 0,
        h.due() matches FrameMove::Park { mask, k } ==> mask == h.at_capacity && (h.cap is Some ==> k
            == h.cap->0),
        h.due() matches FrameMove::Done { result } ==> result == Err::<u16, u16>(503)
            && h.at_capacity == 0,
{
}

} // verus!
