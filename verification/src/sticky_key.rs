//! The key by which a connection is told from others when its requests stay with one
//! worker.
use std::collections::hash_map::DefaultHasher;
use std::hash::Hasher;
use vstd::prelude::*;
use vstd::std_specs::hash::DefaultHasherAdditionalSpecFns;

verus! {

/// The address that a connection came from, with its port.
#[derive(Clone, Copy, Debug, PartialEq, Eq, Structural)]
pub enum Peer {
    V4 { ip: u32, port: u16 },
    V6 { ip6: u128, port: u16, flow: u32, scope: u32 },
}

/// The bytes by which a connection is known: its peer, and when it was established.
pub open spec fn connection_bytes(peer: Peer, nanos: u64) -> Seq<u8> {
    match peer {
        Peer::V4 { ip, port } => seq![4u8] + vstd::bytes::spec_u32_to_le_bytes(ip)
            + vstd::bytes::spec_u16_to_le_bytes(port) + vstd::bytes::spec_u64_to_le_bytes(nanos),
        Peer::V6 { ip6, port, flow, scope } => seq![6u8] + vstd::bytes::spec_u128_to_le_bytes(ip6)
            + vstd::bytes::spec_u16_to_le_bytes(port) + vstd::bytes::spec_u32_to_le_bytes(flow)
            + vstd::bytes::spec_u32_to_le_bytes(scope) + vstd::bytes::spec_u64_to_le_bytes(nanos),
    }
}

/// The key, where there is one: what the default hasher makes of the bytes. There is none
/// for HTTP/2, whose connections carry many requests at once, nor without an address or a
/// time, nor with the time zero.
pub open spec fn connection_key(is_h2: bool, peer: Option<Peer>, nanos: Option<u64>) -> Option<u64> {
    match (peer, nanos) {
        (Some(p), Some(n)) if !is_h2 && n != 0 => Some(
            DefaultHasher::spec_finish(seq![connection_bytes(p, n)]),
        ),
        _ => None,
    }
}

/// Connections that differ in anything, if only in the port, are known by different
/// bytes.
pub proof fn connections_are_told_apart(a: Peer, m: u64, b: Peer, n: u64)
    requires
        connection_bytes(a, m) == connection_bytes(b, n),
    ensures
        a == b,
        m == n,
{
    vstd::bytes::lemma_auto_spec_u16_to_from_le_bytes();
    vstd::bytes::lemma_auto_spec_u32_to_from_le_bytes();
    vstd::bytes::lemma_auto_spec_u64_to_from_le_bytes();
    vstd::bytes::lemma_auto_spec_u128_to_from_le_bytes();
    let x = connection_bytes(a, m);
    let y = connection_bytes(b, n);
    assert(x[0] == y[0]);
    match a {
        Peer::V4 { ip, port } => {
            assert(x.subrange(1, 5) =~= vstd::bytes::spec_u32_to_le_bytes(ip));
            assert(x.subrange(5, 7) =~= vstd::bytes::spec_u16_to_le_bytes(port));
            assert(x.subrange(7, 15) =~= vstd::bytes::spec_u64_to_le_bytes(m));
        },
        Peer::V6 { ip6, port, flow, scope } => {
            assert(x.subrange(1, 17) =~= vstd::bytes::spec_u128_to_le_bytes(ip6));
            assert(x.subrange(17, 19) =~= vstd::bytes::spec_u16_to_le_bytes(port));
            assert(x.subrange(19, 23) =~= vstd::bytes::spec_u32_to_le_bytes(flow));
            assert(x.subrange(23, 27) =~= vstd::bytes::spec_u32_to_le_bytes(scope));
            assert(x.subrange(27, 35) =~= vstd::bytes::spec_u64_to_le_bytes(m));
        },
    }
    match b {
        Peer::V4 { ip, port } => {
            assert(y.subrange(1, 5) =~= vstd::bytes::spec_u32_to_le_bytes(ip));
            assert(y.subrange(5, 7) =~= vstd::bytes::spec_u16_to_le_bytes(port));
            assert(y.subrange(7, 15) =~= vstd::bytes::spec_u64_to_le_bytes(n));
        },
        Peer::V6 { ip6, port, flow, scope } => {
            assert(y.subrange(1, 17) =~= vstd::bytes::spec_u128_to_le_bytes(ip6));
            assert(y.subrange(17, 19) =~= vstd::bytes::spec_u16_to_le_bytes(port));
            assert(y.subrange(19, 23) =~= vstd::bytes::spec_u32_to_le_bytes(flow));
            assert(y.subrange(23, 27) =~= vstd::bytes::spec_u32_to_le_bytes(scope));
            assert(y.subrange(27, 35) =~= vstd::bytes::spec_u64_to_le_bytes(n));
        },
    }
}

fn bytes_of(peer: Peer, nanos: u64) -> (r: Vec<u8>)
    ensures
        r@ == connection_bytes(peer, nanos),
{
    let mut out: Vec<u8> = Vec::new();
    match peer {
        Peer::V4 { ip, port } => {
            out.push(4);
            out.append(&mut vstd::bytes::u32_to_le_bytes(ip));
            out.append(&mut vstd::bytes::u16_to_le_bytes(port));
        },
        Peer::V6 { ip6, port, flow, scope } => {
            out.push(6);
            out.append(&mut vstd::bytes::u128_to_le_bytes(ip6));
            out.append(&mut vstd::bytes::u16_to_le_bytes(port));
            out.append(&mut vstd::bytes::u32_to_le_bytes(flow));
            out.append(&mut vstd::bytes::u32_to_le_bytes(scope));
        },
    }
    out.append(&mut vstd::bytes::u64_to_le_bytes(nanos));
    assert(out@ =~= connection_bytes(peer, nanos));
    out
}

/// The key of a connection.
pub fn sticky_key_from_parts(is_h2: bool, peer: Option<Peer>, established_nanos: Option<u64>) -> (r:
    Option<u64>)
    ensures
        r == connection_key(is_h2, peer, established_nanos),
{
    if is_h2 {
        return None;
    }
    match (peer, established_nanos) {
        (Some(p), Some(n)) => if n == 0 {
            None
        } else {
            let mut hasher = DefaultHasher::new();
            hasher.write(bytes_of(p, n).as_slice());
            assert(hasher@ =~= seq![connection_bytes(p, n)]);
            Some(hasher.finish())
        },
        _ => None,
    }
}

/// A connection has a key exactly if it is not HTTP/2, has an address, and was established
/// at a time that is known and not zero; and then the key depends on nothing else.
pub proof fn keys_are_for_plain_connections(
    is_h2: bool,
    peer: Option<Peer>,
    nanos: Option<u64>,
)
    ensures
        connection_key(is_h2, peer, nanos) is Some <==> !is_h2 && peer is Some && nanos is Some
            && nanos != Some(0u64),
        connection_key(is_h2, peer, nanos) is Some ==> connection_key(is_h2, peer, nanos) == Some(
            DefaultHasher::spec_finish(seq![connection_bytes(peer->0, nanos->0)]),
        ),
{
}

} // verus!
