//! Producer lock manager, compute side: choosing the network identity
//! recorded in the lock row, and building the readiness payload of
//! per-shard minimum offsets.
//!
//! Acquiring the external lock and writing the rows are I/O; the
//! surrounding task enumerates the host's interfaces into plain
//! values and hands them in.

use vstd::prelude::*;

use crate::types::{ShardId, ShardOffset, Slot};

verus! {

/// A host address as the lock manager reads it: the four octets of an
/// IPv4 address, or some IPv6 address, which the lock row rejects.
#[derive(Clone, Copy, Debug, PartialEq, Eq, Structural)]
pub enum IfAddr {
    V4(u8, u8, u8, u8),
    V6,
}

/// One local network interface: its name as raw bytes, and one of its
/// addresses.
#[derive(Debug)]
pub struct NetworkInterface {
    pub name: Vec<u8>,
    pub addr: IfAddr,
}

/// Why no network identity could be chosen.
#[derive(Clone, Copy, Debug, PartialEq, Eq, Structural)]
pub enum InterfaceError {
    /// No interface of the configured name carries an IPv4 address.
    InterfaceNotFound,
    /// The host's default local address is not IPv4.
    Ipv6NotSupported,
    /// No interface carries the host's default local address.
    NoMatchingInterface,
}

/// The interface is the named one and carries an IPv4 address.
pub open spec fn is_named_v4(nif: NetworkInterface, name: Seq<u8>) -> bool {
    nif.name@ == name && nif.addr is V4
}

fn bytes_eq(a: &Vec<u8>, b: &Vec<u8>) -> (r: bool)
    ensures
        r == (a@ == b@),
{
    if a.len() != b.len() {
        return false;
    }
    let n = a.len();
    let mut i: usize = 0;
    while i < n
        invariant
            0 <= i <= n,
            n == a@.len(),
            a@.len() == b@.len(),
            forall|j: int| 0 <= j < i ==> a@[j] == b@[j],
        decreases n - i,
    {
        if a[i] != b[i] {
            return false;
        }
        i = i + 1;
    }
    proof {
        assert(a@ =~= b@);
    }
    true
}

pub(crate) fn copy_bytes(v: &Vec<u8>) -> (r: Vec<u8>)
    ensures
        r@ == v@,
{
    let mut out: Vec<u8> = Vec::new();
    let n = v.len();
    let mut i: usize = 0;
    while i < n
        invariant
            0 <= i <= n,
            n == v@.len(),
            out@.len() == i,
            forall|j: int| 0 <= j < i ==> out@[j] == v@[j],
        decreases n - i,
    {
        out.push(v[i]);
        i = i + 1;
    }
    proof {
        assert(out@ =~= v@);
    }
    out
}

/// With an interface name configured: the address of the first
/// interface of that name that carries IPv4; failing that, the
/// configured name resolves to nothing usable.
pub fn select_interface_by_name(interfaces: &Vec<NetworkInterface>, ifname: &Vec<u8>) -> (r:
    Result<IfAddr, InterfaceError>)
    ensures
        r is Err ==> r == Result::<IfAddr, InterfaceError>::Err(InterfaceError::InterfaceNotFound),
        r matches Ok(a) ==> exists|i: int|
            {
                &&& 0 <= i < interfaces@.len()
                &&& is_named_v4(#[trigger] interfaces@[i], ifname@)
                &&& a == interfaces@[i].addr
                &&& forall|j: int| 0 <= j < i ==> !is_named_v4(#[trigger] interfaces@[j], ifname@)
            },
        (r is Err) <==> forall|i: int|
            0 <= i < interfaces@.len() ==> !is_named_v4(#[trigger] interfaces@[i], ifname@),
{
    let n = interfaces.len();
    let mut i: usize = 0;
    while i < n
        invariant
            0 <= i <= n,
            n == interfaces@.len(),
            forall|j: int| 0 <= j < i ==> !is_named_v4(#[trigger] interfaces@[j], ifname@),
        decreases n - i,
    {
        let named = bytes_eq(&interfaces[i].name, ifname);
        let v4 = match interfaces[i].addr {
            IfAddr::V4(_, _, _, _) => true,
            IfAddr::V6 => false,
        };
        if named && v4 {
            return Ok(interfaces[i].addr);
        }
        i = i + 1;
    }
    Err(InterfaceError::InterfaceNotFound)
}

/// Without a configured name: the host's default local address must
/// be IPv4, and the identity is the first interface carrying exactly
/// that address, with its name.
pub fn select_interface_by_local_ip(interfaces: &Vec<NetworkInterface>, local: IfAddr) -> (r:
    Result<(Vec<u8>, IfAddr), InterfaceError>)
    ensures
        r is Err ==> r == Result::<(Vec<u8>, IfAddr), InterfaceError>::Err(
            InterfaceError::Ipv6NotSupported,
        ) || r == Result::<(Vec<u8>, IfAddr), InterfaceError>::Err(
            InterfaceError::NoMatchingInterface,
        ),
        local is V6 <==> r == Result::<(Vec<u8>, IfAddr), InterfaceError>::Err(
            InterfaceError::Ipv6NotSupported,
        ),
        r matches Ok(p) ==> p.1 == local && exists|i: int|
            {
                &&& 0 <= i < interfaces@.len()
                &&& (#[trigger] interfaces@[i]).addr == local
                &&& p.0@ == interfaces@[i].name@
                &&& forall|j: int| 0 <= j < i ==> (#[trigger] interfaces@[j]).addr != local
            },
        (r matches Err(e) && e == InterfaceError::NoMatchingInterface) <==> (local is V4
            && forall|i: int|
            0 <= i < interfaces@.len() ==> (#[trigger] interfaces@[i]).addr != local),
{
    match local {
        IfAddr::V6 => Err(InterfaceError::Ipv6NotSupported),
        IfAddr::V4(_, _, _, _) => {
            let n = interfaces.len();
            let mut i: usize = 0;
            while i < n
                invariant
                    0 <= i <= n,
                    n == interfaces@.len(),
                    local is V4,
                    forall|j: int| 0 <= j < i ==> (#[trigger] interfaces@[j]).addr != local,
                decreases n - i,
            {
                if interfaces[i].addr == local {
                    let name = copy_bytes(&interfaces[i].name);
                    return Ok((name, local));
                }
                i = i + 1;
            }
            Err(InterfaceError::NoMatchingInterface)
        },
    }
}

/// The readiness payload published on the lock row: each shard in
/// order, its recovered minimum offset, and the initial slot — one
/// entry per configured shard, exactly.
pub fn minimum_shard_offsets_payload(offsets: &Vec<ShardOffset>, initial_slot: Slot) -> (r: Vec<
    (ShardId, (ShardOffset, Slot)),
>)
    requires
        offsets@.len() <= i16::MAX as usize,
    ensures
        r@.len() == offsets@.len(),
        forall|i: int|
            0 <= i < offsets@.len() ==> (#[trigger] r@[i]) == ((i as ShardId), (
                offsets@[i],
                initial_slot,
            )),
{
    let mut out: Vec<(ShardId, (ShardOffset, Slot))> = Vec::new();
    let n = offsets.len();
    let mut i: usize = 0;
    while i < n
        invariant
            0 <= i <= n,
            n == offsets@.len(),
            n <= i16::MAX as usize,
            out@.len() == i,
            forall|k: int|
                0 <= k < i ==> (#[trigger] out@[k]) == ((k as ShardId), (
                    offsets@[k],
                    initial_slot,
                )),
        decreases n - i,
    {
        out.push((i as ShardId, (offsets[i], initial_slot)));
        i = i + 1;
    }
    out
}

} // verus!
