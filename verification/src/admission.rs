//! The slots that a request takes before it is worked on, and gives back afterwards.
use vstd::prelude::*;

use crate::fairness::{
    held, identity_slot_round_trip, slot_returned, slot_taken, GlobalInFlightAdmission,
    GlobalInFlightLimiter, GlobalInFlightSnapshot, IdentityAdmission, IdentityFairnessLimiter,
    LongLivedAdmission, LongLivedRegistry, LongLivedSnapshot,
};
use crate::telemetry::{log_line, EdgeTelemetry};
use crate::text::{opt_view, owned};

verus! {

/// What limits the requests in flight.
pub struct Gates {
    pub global: GlobalInFlightLimiter,
    pub fairness: IdentityFairnessLimiter,
    pub long_lived: LongLivedRegistry,
}

/// The slots that one request holds.
pub struct Admission {
    pub remote_addr: String,
    pub global: Option<GlobalInFlightAdmission>,
    pub identity: Option<IdentityAdmission>,
    pub long_lived: Option<LongLivedAdmission>,
}

/// What came of asking for slots.
pub enum Admit {
    Admitted { admission: Admission },
    /// Turned away with `status`; `log` is the line for the log, where one is due.
    Refused { status: u16, log: Option<String> },
}

/// A limiter after it let a request in.
pub open spec fn let_in(g: GlobalInFlightSnapshot) -> GlobalInFlightSnapshot {
    if g.max_requests is Some { g.admitted() } else { g }
}

/// A limiter after it let a request in and out again.
pub open spec fn let_out(g: GlobalInFlightSnapshot) -> GlobalInFlightSnapshot {
    if g.max_requests is Some { g.admitted().released() } else { g }
}

/// Whether a client has as many requests in flight as it may.
pub open spec fn saturated(l: IdentityFairnessLimiter, id: Seq<char>) -> bool {
    l.max() matches Some(max) && held(l@, id) >= max
}

/// The number of slots handed out to clients, with one more; nothing counts without a cap.
pub open spec fn served(l: IdentityFairnessLimiter) -> u64 {
    if l.max() is Some { l.admitted().wrapping_add(1) } else { l.admitted() }
}

/// The address of a client that names no proxy it came through.
pub enum ClientAddr {
    Inet { ip: String },
    Other { text: String },
}

/// Who a client is when nothing but its connection is trusted.
pub open spec fn direct_identity(addr: Option<ClientAddr>) -> Seq<char> {
    match addr {
        None => "127.0.0.1"@,
        Some(ClientAddr::Inet { ip }) => ip@,
        Some(ClientAddr::Other { text }) => text@,
    }
}

pub fn direct_public_remote_addr(addr: Option<ClientAddr>) -> (r: String)
    ensures
        r@ == direct_identity(addr),
{
    match addr {
        None => owned("127.0.0.1"),
        Some(ClientAddr::Inet { ip }) => ip,
        Some(ClientAddr::Other { text }) => text,
    }
}

/// Asks for the slots of one request: of the edge, of its client, and, for a connection
/// that stays open, of those. `remote` is who the client is, or the status that it is
/// turned away with. A request that is turned away holds nothing.
pub fn admit_request(
    gates: &mut Gates,
    t: &mut EdgeTelemetry,
    remote: Result<String, u16>,
    request_id: &str,
    want_long_lived: bool,
) -> (r: Admit)
    requires
        old(gates).fairness.wf(),
    ensures
        r is Admitted ==> final(t).counts == old(t).counts,
        r is Refused ==> final(t).counts.rejections_total
            == old(t).counts.rejections_total.wrapping_add(1) && final(t).counts.responses_total
            == old(t).counts.responses_total,
        (r matches Admit::Refused { status, .. } ==> final(t).counts.last_rejection_status == status),
        (old(gates).global@.max_requests matches Some(max) && old(gates).global@.active >= max)
            ==> r is Refused,
        remote is Err ==> r is Refused,
        want_long_lived && old(gates).long_lived@.active >= old(gates).long_lived@.max_connections
            ==> r is Refused,
        (remote is Ok && old(gates).global@.max_requests is None && old(gates).fairness.max() is None
            && !want_long_lived) ==> r is Admitted,
        final(gates).fairness.wf(),
        final(gates).fairness.max() == old(gates).fairness.max(),
        r is Refused ==> {
            &&& final(gates).global@.active == old(gates).global@.active
            &&& final(gates).fairness@ == old(gates).fairness@
            &&& final(gates).long_lived@.active == old(gates).long_lived@.active
        },
        if old(gates).global@.full() {
            &&& r matches Admit::Refused { status, log } && status == 503 && opt_view(log)
                == log_line(
                !(old(t).request_log is Off),
                request_id@,
                "overloaded"@,
                503,
                old(t).public_mode,
            )
            &&& *final(t) == (EdgeTelemetry { counts: old(t).counts.rejected(503), ..*old(t) })
            &&& final(gates).global@ == old(gates).global@.overloaded()
            &&& final(gates).fairness == old(gates).fairness
            &&& final(gates).long_lived == old(gates).long_lived
        } else {
            match remote {
                Err(code) => {
                    &&& r matches Admit::Refused { status, log } && status == code && opt_view(log)
                        == log_line(
                        !(old(t).request_log is Off),
                        request_id@,
                        "rejection"@,
                        code,
                        old(t).public_mode,
                    )
                    &&& *final(t) == (EdgeTelemetry {
                        counts: old(t).counts.rejected(code),
                        ..*old(t)
                    })
                    &&& final(gates).global@ == let_out(old(gates).global@)
                    &&& final(gates).fairness == old(gates).fairness
                    &&& final(gates).long_lived == old(gates).long_lived
                },
                Ok(id) => if saturated(old(gates).fairness, id@) {
                    &&& r matches Admit::Refused { status, log } && status == 503 && opt_view(log)
                        == log_line(
                        !(old(t).request_log is Off),
                        request_id@,
                        "rate_limited"@,
                        503,
                        old(t).public_mode,
                    )
                    &&& *final(t) == (EdgeTelemetry {
                        counts: old(t).counts.rate_limited(),
                        ..*old(t)
                    })
                    &&& final(gates).global@ == let_out(old(gates).global@)
                    &&& final(gates).fairness.saturated()
                        == old(gates).fairness.saturated().wrapping_add(1)
                    &&& final(gates).fairness.admitted() == old(gates).fairness.admitted()
                    &&& final(gates).long_lived == old(gates).long_lived
                } else if want_long_lived && old(gates).long_lived@.full() {
                    &&& r matches Admit::Refused { status, log } && status == 503 && opt_view(log)
                        == log_line(
                        !(old(t).request_log is Off),
                        request_id@,
                        "rejection"@,
                        503,
                        old(t).public_mode,
                    )
                    &&& *final(t) == (EdgeTelemetry {
                        counts: old(t).counts.rejected(503),
                        ..*old(t)
                    })
                    &&& final(gates).global@ == let_out(old(gates).global@)
                    &&& final(gates).fairness.saturated() == old(gates).fairness.saturated()
                    &&& final(gates).fairness.admitted() == served(old(gates).fairness)
                    &&& final(gates).long_lived@ == old(gates).long_lived@.rejected()
                } else {
                    &&& r matches Admit::Admitted { admission } && {
                        &&& admission.remote_addr@ == id@
                        &&& admission.global is Some <==> old(gates).global@.max_requests is Some
                        &&& admission.identity is Some <==> old(gates).fairness.max() is Some
                        &&& (admission.identity matches Some(a) ==> a@ == id@)
                        &&& admission.long_lived is Some <==> want_long_lived
                        &&& (admission.long_lived matches Some(a) ==> a.bytes() == 0
                            && !a.is_complete() && !a.is_drained())
                    }
                    &&& *final(t) == *old(t)
                    &&& final(gates).global@ == let_in(old(gates).global@)
                    &&& final(gates).fairness@ == (if old(gates).fairness.max() is Some {
                        slot_taken(old(gates).fairness@, id@)
                    } else {
                        old(gates).fairness@
                    })
                    &&& final(gates).fairness.saturated() == old(gates).fairness.saturated()
                    &&& final(gates).fairness.admitted() == served(old(gates).fairness)
                    &&& final(gates).long_lived@ == (if want_long_lived {
                        old(gates).long_lived@.admitted()
                    } else {
                        old(gates).long_lived@
                    })
                },
            }
        },
{
    let global: Option<GlobalInFlightAdmission> = match gates.global.acquire() {
        Ok(a) => a,
        Err(()) => {
            let log = t.record_overloaded(request_id);
            return Admit::Refused { status: 503, log };
        },
    };
    let remote_addr: String = match remote {
        Ok(addr) => addr,
        Err(status) => {
            give_back_global(&mut gates.global, global);
            let log = t.record_rejection(request_id, status);
            return Admit::Refused { status, log };
        },
    };
    let ghost before = gates.fairness@;
    let ghost id = remote_addr@;
    proof {
        if before.contains_key(id) {
            gates.fairness.identities_hold_slots(id);
        }
    }
    let identity: Option<IdentityAdmission> = match gates.fairness.acquire(remote_addr.as_str()) {
        Ok(a) => a,
        Err(()) => {
            give_back_global(&mut gates.global, global);
            let log = t.record_rate_limited(request_id);
            return Admit::Refused { status: 503, log };
        },
    };
    let mut long_lived: Option<LongLivedAdmission> = None;
    if want_long_lived {
        match gates.long_lived.try_admit() {
            Some(a) => {
                long_lived = Some(a);
            },
            None => {
                if let Some(a) = identity {
                    proof {
                        assert(a@ == id);
                        identity_slot_round_trip(before, id);
                        assert(slot_taken(before, id).contains_key(id));
                    }
                    gates.fairness.release(a);
                }
                give_back_global(&mut gates.global, global);
                let log = t.record_rejection(request_id, 503);
                return Admit::Refused { status: 503, log };
            },
        }
    }
    Admit::Admitted { admission: Admission { remote_addr, global, identity, long_lived } }
}

fn give_back_global(l: &mut GlobalInFlightLimiter, a: Option<GlobalInFlightAdmission>)
    ensures
        final(l)@ == (if a is Some { old(l)@.released() } else { old(l)@ }),
{
    if let Some(a) = a {
        l.release(a);
    }
}

/// Gives back what a request holds once it is over.
pub fn leave(gates: &mut Gates, admission: Admission)
    requires
        old(gates).fairness.wf(),
    ensures
        final(gates).fairness.wf(),
        final(gates).fairness.max() == old(gates).fairness.max(),
        final(gates).fairness.admitted() == old(gates).fairness.admitted(),
        final(gates).fairness.saturated() == old(gates).fairness.saturated(),
        final(gates).global@ == (if admission.global is Some {
            old(gates).global@.released()
        } else {
            old(gates).global@
        }),
        final(gates).fairness@ == (match admission.identity {
            Some(a) if old(gates).fairness@.contains_key(a@) => slot_returned(
                old(gates).fairness@,
                a@,
            ),
            _ => old(gates).fairness@,
        }),
        final(gates).long_lived@ == (match admission.long_lived {
            Some(a) => old(gates).long_lived@.ended(a.is_complete()),
            None => old(gates).long_lived@,
        }),
{
    let Admission { remote_addr: _, global, identity, long_lived } = admission;
    if let Some(a) = long_lived {
        gates.long_lived.release(a);
    }
    if let Some(a) = identity {
        gates.fairness.release(a);
    }
    give_back_global(&mut gates.global, global);
}

/// A request that comes and goes leaves as many slots free as it found: of the edge, of
/// its client and of the connections that stay open.
pub proof fn leaving_undoes_admission(
    g: GlobalInFlightSnapshot,
    clients: Map<Seq<char>, u64>,
    id: Seq<char>,
    open: LongLivedSnapshot,
    completed: bool,
)
    requires
        !g.full(),
        clients.contains_key(id) ==> 1 <= clients[id] < u64::MAX,
        !open.full(),
    ensures
        let_out(g).active == g.active,
        let_out(g) == (if g.max_requests is Some { let_in(g).released() } else { let_in(g) }),
        slot_returned(slot_taken(clients, id), id) == clients,
        open.admitted().ended(completed).active == open.active,
{
    identity_slot_round_trip(clients, id);
}

/// A client is held off exactly when it has as many requests in flight as it may; one that
/// has none is let in by any cap that lets anything in.
pub proof fn clients_are_held_off_at_their_cap(l: IdentityFairnessLimiter, id: Seq<char>, max: u64)
    ensures
        l.max() is None ==> !saturated(l, id),
        l.max() == Some(max) && l@.contains_key(id) ==> (saturated(l, id) <==> l@[id] >= max),
        l.max() == Some(max) && !l@.contains_key(id) ==> (saturated(l, id) <==> max == 0),
{
}

/// A client is told by the address that its connection comes from, as it is written.
pub proof fn clients_are_told_by_their_address(addr: ClientAddr)
    ensures
        direct_identity(Some(addr)) == (match addr {
            ClientAddr::Inet { ip } => ip@,
            ClientAddr::Other { text } => text@,
        }),
        direct_identity(None).len() == 9,
        direct_identity(None).take(4) == seq!['1', '2', '7', '.'],
{
    reveal_strlit("127.0.0.1");
    assert("127.0.0.1"@.take(4) =~= seq!['1', '2', '7', '.']);
}

} // verus!
