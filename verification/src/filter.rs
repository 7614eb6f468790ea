//! The ingress admission filter: the per-packet hook run before any
//! other ingress processing.
//!
//! The source address is looked up in the blacklist first; a blacklisted
//! peer's packet is dropped outright and leaves no trace in any table.
//! An admitted packet may then be counted coarsely, per packet rather
//! than per completed call, into a single pair of address and port
//! tables that are not split by direction.

use vstd::prelude::*;

use crate::aggregate::credit_ip;
use crate::aggregate::credit_port;
use crate::aggregate::ip_credit_step;
use crate::aggregate::port_credit_step;
use crate::aggs::IPAggs;
use crate::aggs::PortAggs;
use crate::table::BoundedMap;

verus! {

/// What the ingress hook tells the kernel to do with the packet.
#[derive(Clone, Copy, Debug, PartialEq, Eq, Structural)]
pub enum IngressAction {
    Dropped,
    Passed,
}

/// What the hook reads from one ingress packet: the network-layer
/// addresses, the transport-layer ports, and the length and offset of
/// the payload data, both in bytes.
#[derive(Clone, Copy, Debug, PartialEq, Eq, Structural)]
pub struct PacketMeta {
    pub saddr: u32,
    pub daddr: u32,
    pub sport: u16,
    pub dport: u16,
    pub data_len: u32,
    pub data_offset: u32,
}

impl PacketMeta {
    /// The volume a packet contributes to the address aggregates, in
    /// bits: eight times its observed byte length (payload length plus
    /// offset), wrapping as the fixed-width counters do.
    pub open spec fn spec_usage(&self) -> u32 {
        vstd::wrapping::u32_specs::wrapping_mul(
            vstd::wrapping::u32_specs::wrapping_add(self.data_len, self.data_offset),
            8,
        )
    }
}

/// The per-packet ingress hook.  A packet whose source address is
/// blacklisted is dropped before any counting; an admitted packet
/// credits both of its addresses and both of its ports, source first.
pub fn probe(
    blacklist: &BoundedMap<u32>,
    ip_map: &mut BoundedMap<IPAggs>,
    port_map: &mut BoundedMap<PortAggs>,
    pkt: PacketMeta,
) -> (r: IngressAction)
    requires
        blacklist.wf(),
        old(ip_map).wf(),
        old(port_map).wf(),
    ensures
        final(ip_map).wf(),
        final(port_map).wf(),
        final(ip_map).spec_capacity() == old(ip_map).spec_capacity(),
        final(port_map).spec_capacity() == old(port_map).spec_capacity(),
        blacklist@.contains_key(pkt.saddr as u64) ==> r == IngressAction::Dropped
            && *final(ip_map) == *old(ip_map) && *final(port_map) == *old(port_map),
        !blacklist@.contains_key(pkt.saddr as u64) ==> {
            &&& r == IngressAction::Passed
            &&& (final(ip_map)@, final(ip_map).spec_len()) == ip_credit_step(
                ip_credit_step(
                    (old(ip_map)@, old(ip_map).spec_len()),
                    old(ip_map).spec_capacity(),
                    pkt.saddr as u64,
                    pkt.spec_usage(),
                ),
                old(ip_map).spec_capacity(),
                pkt.daddr as u64,
                pkt.spec_usage(),
            )
            &&& (final(port_map)@, final(port_map).spec_len()) == port_credit_step(
                port_credit_step(
                    (old(port_map)@, old(port_map).spec_len()),
                    old(port_map).spec_capacity(),
                    pkt.sport as u64,
                ),
                old(port_map).spec_capacity(),
                pkt.dport as u64,
            )
        },
{
    if blacklist.get(pkt.saddr as u64).is_some() {
        return IngressAction::Dropped;
    }
    let usage = pkt.data_len.wrapping_add(pkt.data_offset).wrapping_mul(8);
    credit_port(port_map, pkt.sport);
    credit_port(port_map, pkt.dport);
    credit_ip(ip_map, pkt.saddr, usage);
    credit_ip(ip_map, pkt.daddr, usage);
    IngressAction::Passed
}

} // verus!
