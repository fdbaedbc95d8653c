//! The walk over the workers and the exchange with one of them.
use oxo_pingora_edge::dispatch::{Dispatch, InFlightGuard, ParkGuard};
use oxo_pingora_edge::fairness::{LongLivedLimits, LongLivedRegistry};
use oxo_pingora_edge::hop::{
    after_exchange, exchange_first, park_look, send_gate, ExchangeError, ExchangeEvent,
    ExchangeMove, FrameHop, FrameKind, FrameMove, FrameSendError, ParkLook, SendMove, StreamEvent,
    StreamMove, StreamRun,
};
use oxo_pingora_edge::limits::MAX_RESPONSE_BYTES;

#[test]
fn an_unreachable_worker_is_passed_over() {
    let mut d = Dispatch::new();
    let (mut h, first) = FrameHop::begin(&mut d, Some("rr"), None, 3, None).unwrap();
    assert_eq!(first, None);
    assert_eq!(h.start_round(&mut d, Some("rr"), 1), FrameMove::Try { worker: 1 });
    let m = h.advance(&mut d, Err(FrameSendError::Connect));
    assert_eq!(m, FrameMove::Try { worker: 2 });
    let m = h.advance(&mut d, Ok(200));
    assert_eq!(m, FrameMove::Done { result: Ok(200) });
    assert_eq!(FrameHop::begin(&mut d, None, None, 0, None).err(), Some(503));
    let (mut h, _) = FrameHop::begin(&mut d, None, None, 1, None).unwrap();
    h.start_round(&mut d, None, 0);
    assert_eq!(
        h.advance(&mut d, Err(FrameSendError::Connect)),
        FrameMove::Done { result: Err(503) }
    );
}

#[test]
fn full_workers_make_a_request_wait() {
    let mut d = Dispatch::new();
    let (mut h, _) = FrameHop::begin(&mut d, Some("rr"), Some("1"), 2, None).unwrap();
    h.start_round(&mut d, Some("rr"), 0);
    h.advance(&mut d, Err(FrameSendError::AtCapacity));
    let m = h.advance(&mut d, Err(FrameSendError::AtCapacity));
    assert_eq!(m, FrameMove::Park { mask: 3, k: 1 });
    let waiting = ParkGuard::enter(&mut d);
    let (_, first) = FrameHop::begin(&mut d, Some("rr"), Some("1"), 2, None).unwrap();
    assert_eq!(
        first,
        Some(FrameMove::Park {
            mask: u32::MAX,
            k: 1
        }),
        "newcomers wait behind those who wait"
    );
    let a = InFlightGuard::acquire(&mut d, 0, 2);
    let b = InFlightGuard::acquire(&mut d, 1, 2);
    assert_eq!(park_look(&d, false, 3, 1), ParkLook::Wait);
    assert_eq!(park_look(&d, true, 3, 1), ParkLook::Drained);
    b.release(&mut d);
    assert_eq!(park_look(&d, false, 3, 1), ParkLook::Go { pass_on: false });
    waiting.leave(&mut d);
    a.release(&mut d);
    assert_eq!(h.parked(Err(503)), Some(FrameMove::Done { result: Err(503) }));
    assert_eq!(h.parked(Ok(())), None);
    assert!(h.woken);
}

#[test]
fn pins_survive_full_workers_and_move_from_dead_ones() {
    let mut d = Dispatch::new();
    let (mut h, _) = FrameHop::begin(&mut d, Some("sticky"), Some("1"), 3, Some(77)).unwrap();
    let (_, home) = h.pin.unwrap();
    assert_eq!(h.start_round(&mut d, Some("sticky"), 0), FrameMove::Try { worker: home });
    h.advance(&mut d, Err(FrameSendError::AtCapacity));
    h.advance(&mut d, Ok(200));
    let (h, _) = FrameHop::begin(&mut d, Some("sticky"), Some("1"), 3, Some(77)).unwrap();
    assert_eq!(h.pin, Some((77, home)), "a full worker keeps its pin");
    let mut h = h;
    h.start_round(&mut d, Some("sticky"), 0);
    let next = match h.advance(&mut d, Err(FrameSendError::Connect)) {
        FrameMove::Try { worker } => worker,
        other => panic!("unexpected: {other:?}"),
    };
    assert_ne!(next, home);
    h.advance(&mut d, Ok(200));
    let (h, _) = FrameHop::begin(&mut d, Some("sticky"), Some("1"), 3, Some(77)).unwrap();
    assert_eq!(h.pin, Some((77, next)), "a dead worker loses its pin");
}

#[test]
fn gates_before_a_send() {
    let mut d = Dispatch::new();
    let g = InFlightGuard::acquire(&mut d, 0, 1);
    assert_eq!(send_gate(&d, false, 0, Some(2)), Ok(()));
    assert_eq!(send_gate(&d, false, 0, Some(1)), Err(FrameSendError::AtCapacity));
    assert_eq!(send_gate(&d, false, 0, None), Ok(()));
    assert_eq!(
        send_gate(&d, true, 0, None),
        Err(FrameSendError::AfterWrite { status: 503 })
    );
    g.release(&mut d);
}

#[test]
fn only_stale_connections_are_tried_again() {
    let unsent = ExchangeError::StaleBeforeDispatch {
        request_delivered: false,
    };
    let sent = ExchangeError::StaleBeforeDispatch {
        request_delivered: true,
    };
    assert_eq!(after_exchange(Err(unsent), true, true, false), SendMove::RetryFresh);
    assert_eq!(after_exchange(Err(sent), true, false, false), SendMove::RetryFresh);
    let failed = SendMove::Failed {
        error: FrameSendError::AfterWrite { status: 502 },
    };
    assert_eq!(after_exchange(Err(sent), true, true, false), failed);
    assert_eq!(after_exchange(Err(unsent), false, false, false), failed);
    let status = ExchangeError::Status { status: 504 };
    assert_eq!(
        after_exchange(Err(status), true, false, false),
        SendMove::Failed {
            error: FrameSendError::AfterWrite { status: 504 }
        }
    );
    assert_eq!(
        after_exchange(Ok((200, true)), true, false, false),
        SendMove::Answered {
            status: 200,
            keep: true
        }
    );
    assert_eq!(
        after_exchange(Ok((200, true)), true, false, true),
        SendMove::Answered {
            status: 200,
            keep: false
        }
    );
}

#[test]
fn the_first_frame_decides() {
    assert_eq!(
        exchange_first(ExchangeEvent::Answer {
            kind: FrameKind::Full
        }),
        ExchangeMove::Whole
    );
    assert_eq!(
        exchange_first(ExchangeEvent::Answer {
            kind: FrameKind::Head
        }),
        ExchangeMove::Stream
    );
    assert_eq!(
        exchange_first(ExchangeEvent::Answer {
            kind: FrameKind::End
        }),
        ExchangeMove::Fail {
            error: ExchangeError::Status { status: 502 }
        }
    );
    assert_eq!(
        exchange_first(ExchangeEvent::NoAnswer),
        ExchangeMove::Fail {
            error: ExchangeError::StaleBeforeDispatch {
                request_delivered: true
            }
        }
    );
    assert_eq!(
        exchange_first(ExchangeEvent::ReadFailed { status: 504 }),
        ExchangeMove::Fail {
            error: ExchangeError::Status { status: 504 }
        }
    );
}

#[test]
fn streams_send_their_head_once() {
    let mut registry = LongLivedRegistry::new(LongLivedLimits {
        max_connections: 2,
        max_buffered_bytes: u64::MAX,
        downstream_write_timeout_ms: 1,
    });
    let mut a = registry.try_admit().unwrap();
    let frame = |kind| StreamEvent::Frame { kind };
    let mut s = StreamRun::begin();
    assert_eq!(
        s.step(frame(FrameKind::Chunk { len: 0 }), false, &mut a, &mut registry),
        StreamMove::Skip
    );
    assert_eq!(
        s.step(frame(FrameKind::Chunk { len: 3 }), false, &mut a, &mut registry),
        StreamMove::SendChunk { with_head: true }
    );
    assert_eq!(
        s.step(frame(FrameKind::Chunk { len: 3 }), false, &mut a, &mut registry),
        StreamMove::SendChunk { with_head: false }
    );
    assert_eq!(
        s.step(frame(FrameKind::End), false, &mut a, &mut registry),
        StreamMove::Finish {
            with_head: false,
            reusable: true
        }
    );
    let mut s = StreamRun::begin();
    assert_eq!(
        s.step(frame(FrameKind::End), true, &mut a, &mut registry),
        StreamMove::Finish {
            with_head: true,
            reusable: false
        }
    );
    let mut s = StreamRun::begin();
    assert_eq!(
        s.step(StreamEvent::Draining, false, &mut a, &mut registry),
        StreamMove::FinishDrained { with_head: true }
    );
    let mut s = StreamRun::begin();
    let len = MAX_RESPONSE_BYTES + 1;
    assert_eq!(
        s.step(frame(FrameKind::Chunk { len }), false, &mut a, &mut registry),
        StreamMove::Fail { status: 502 }
    );
    let mut s = StreamRun::begin();
    assert_eq!(
        s.step(frame(FrameKind::Head), false, &mut a, &mut registry),
        StreamMove::Fail { status: 502 }
    );
    assert_eq!(registry.snapshot().bytes_streamed_total, 6);
}

#[test]
fn dead_worker_never_unparks_a_waiter() {
    let mut d = Dispatch::new();
    let full = InFlightGuard::acquire(&mut d, 0, 2);
    let waiting = ParkGuard::enter(&mut d);
    assert_eq!(
        park_look(&d, false, 1, 1),
        ParkLook::Wait,
        "an idle worker outside the set is no reason to go on"
    );
    full.release(&mut d);
    assert_eq!(park_look(&d, false, 1, 1), ParkLook::Go { pass_on: false });
    waiting.leave(&mut d);
}

#[test]
fn drain_wakes_every_parked_waiter_to_503() {
    let mut d = Dispatch::new();
    let full = InFlightGuard::acquire(&mut d, 0, 1);
    let a = ParkGuard::enter(&mut d);
    let b = ParkGuard::enter(&mut d);
    assert_eq!(park_look(&d, true, 1, 1), ParkLook::Drained);
    let (mut h, _) = FrameHop::begin(&mut d, None, None, 1, None).unwrap();
    assert_eq!(h.parked(Err(503)), Some(FrameMove::Done { result: Err(503) }));
    a.leave(&mut d);
    b.leave(&mut d);
    full.release(&mut d);
    assert_eq!(d.parked, 0);
}
