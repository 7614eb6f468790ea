//! The four directional aggregation tables and the per-event update.
//!
//! Each completed send or receive call credits both endpoints of its
//! connection: the two addresses in the address table and the two ports
//! in the port table of the event's direction.  An entry is created
//! lazily, zero-valued, on the first event for a key; counters are
//! unsigned and wrap on overflow, as fixed-width kernel-side counters do.

use vstd::prelude::*;

use crate::aggs::IPAggs;
use crate::aggs::Message;
use crate::aggs::PortAggs;
use crate::table::BoundedMap;

verus! {

/// An address aggregate after one more event of `bits` bits.
pub open spec fn ip_credited(g: IPAggs, bits: u32) -> IPAggs {
    IPAggs {
        count: vstd::wrapping::u32_specs::wrapping_add(g.count, 1),
        usage: vstd::wrapping::u32_specs::wrapping_add(g.usage, bits),
    }
}

/// A port aggregate after one more event.
pub open spec fn port_credited(g: PortAggs) -> PortAggs {
    PortAggs { count: vstd::wrapping::u32_specs::wrapping_add(g.count, 1) }
}

/// One get-or-insert-zero-then-increment step on an address table, over
/// its (contents, occupancy) pair: a present key is incremented in
/// place, an absent key is inserted zero-valued and incremented if the
/// table has room, and the event is silently dropped otherwise.
pub open spec fn ip_credit_step(
    s: (Map<u64, IPAggs>, nat),
    cap: nat,
    k: u64,
    bits: u32,
) -> (Map<u64, IPAggs>, nat) {
    if s.0.contains_key(k) {
        (s.0.insert(k, ip_credited(s.0[k], bits)), s.1)
    } else if s.1 < cap {
        (s.0.insert(k, ip_credited(IPAggs { count: 0, usage: 0 }, bits)), s.1 + 1)
    } else {
        s
    }
}

/// The port-table counterpart of [`ip_credit_step`].
pub open spec fn port_credit_step(
    s: (Map<u64, PortAggs>, nat),
    cap: nat,
    k: u64,
) -> (Map<u64, PortAggs>, nat) {
    if s.0.contains_key(k) {
        (s.0.insert(k, port_credited(s.0[k])), s.1)
    } else if s.1 < cap {
        (s.0.insert(k, port_credited(PortAggs { count: 0 })), s.1 + 1)
    } else {
        s
    }
}

/// Credit one event of `bits` bits to `key` in an address table.
pub fn credit_ip(t: &mut BoundedMap<IPAggs>, key: u32, bits: u32)
    requires
        old(t).wf(),
    ensures
        final(t).wf(),
        final(t).spec_capacity() == old(t).spec_capacity(),
        (final(t)@, final(t).spec_len()) == ip_credit_step(
            (old(t)@, old(t).spec_len()),
            old(t).spec_capacity(),
            key as u64,
            bits,
        ),
{
    let k = key as u64;
    let cur = match t.get(k) {
        Some(g) => g,
        None => IPAggs { count: 0, usage: 0 },
    };
    let bumped = IPAggs {
        count: cur.count.wrapping_add(1),
        usage: cur.usage.wrapping_add(bits),
    };
    let _ = t.set(k, bumped);
}

/// Credit one event to `key` in a port table.
pub fn credit_port(t: &mut BoundedMap<PortAggs>, key: u16)
    requires
        old(t).wf(),
    ensures
        final(t).wf(),
        final(t).spec_capacity() == old(t).spec_capacity(),
        (final(t)@, final(t).spec_len()) == port_credit_step(
            (old(t)@, old(t).spec_len()),
            old(t).spec_capacity(),
            key as u64,
        ),
{
    let k = key as u64;
    let cur = match t.get(k) {
        Some(g) => g,
        None => PortAggs { count: 0 },
    };
    let bumped = PortAggs { count: cur.count.wrapping_add(1) };
    let _ = t.set(k, bumped);
}

/// Repeated credits to one key of an address table, one per length in
/// `lens`, applied left to right.
pub open spec fn ip_credit_many(
    s: (Map<u64, IPAggs>, nat),
    cap: nat,
    k: u64,
    lens: Seq<u32>,
) -> (Map<u64, IPAggs>, nat)
    decreases lens.len(),
{
    if lens.len() == 0 {
        s
    } else {
        ip_credit_step(ip_credit_many(s, cap, k, lens.drop_last()), cap, k, lens.last())
    }
}

/// The sum of a sequence of event lengths.
pub open spec fn sum_bits(lens: Seq<u32>) -> int
    decreases lens.len(),
{
    if lens.len() == 0 {
        0
    } else {
        sum_bits(lens.drop_last()) + lens.last()
    }
}

/// Wrapping addition is addition modulo 2^32.
pub proof fn lemma_wrapping_add_is_mod(x: u32, y: u32)
    ensures
        vstd::wrapping::u32_specs::wrapping_add(x, y) == (x + y) % 0x1_0000_0000,
{
    if x + y > u32::MAX {
        assert((x + y) % 0x1_0000_0000 == (-0x1_0000_0000 + (x + y)) % 0x1_0000_0000) by {
            vstd::arithmetic::div_mod::lemma_mod_sub_multiples_vanish(x + y, 0x1_0000_0000);
        }
        vstd::arithmetic::div_mod::lemma_small_mod((x + y - 0x1_0000_0000) as nat, 0x1_0000_0000);
    } else {
        vstd::arithmetic::div_mod::lemma_small_mod((x + y) as nat, 0x1_0000_0000);
    }
}

/// A run of events for one fresh address key `k`, credited to an address
/// table with room for it, leaves exactly one entry for `k`, holding the
/// number of events and the sum of their lengths, each modulo 2^32; every
/// other key's entry is untouched, and the occupancy grows by one.
pub proof fn lemma_repeated_credits_one_key(
    s: (Map<u64, IPAggs>, nat),
    cap: nat,
    k: u64,
    lens: Seq<u32>,
)
    requires
        !s.0.contains_key(k),
        s.1 < cap,
        lens.len() > 0,
    ensures
        ({
            let r = ip_credit_many(s, cap, k, lens);
            &&& r.0.contains_key(k)
            &&& r.0[k].count == lens.len() as int % 0x1_0000_0000
            &&& r.0[k].usage == sum_bits(lens) % 0x1_0000_0000
            &&& r.1 == s.1 + 1
            &&& forall|k2: u64| k2 != k ==> (r.0.contains_key(k2) <==> s.0.contains_key(k2))
            &&& forall|k2: u64| k2 != k && s.0.contains_key(k2) ==> r.0[k2] == s.0[k2]
        }),
    decreases lens.len(),
{
    let m: int = 0x1_0000_0000;
    let b = lens.last();
    if lens.len() == 1 {
        assert(lens.drop_last().len() == 0);
        assert(ip_credit_many(s, cap, k, lens.drop_last()) == s);
        assert(sum_bits(lens.drop_last()) == 0);
        assert(ip_credit_many(s, cap, k, lens) == ip_credit_step(s, cap, k, b));
        assert(sum_bits(lens) == b);
        lemma_wrapping_add_is_mod(0, 1);
        lemma_wrapping_add_is_mod(0, b);
        vstd::arithmetic::div_mod::lemma_small_mod(1, m as nat);
        vstd::arithmetic::div_mod::lemma_small_mod(b as nat, m as nat);
    } else {
        lemma_repeated_credits_one_key(s, cap, k, lens.drop_last());
        let r0 = ip_credit_many(s, cap, k, lens.drop_last());
        let n0 = lens.len() - 1;
        let s0 = sum_bits(lens.drop_last());
        lemma_wrapping_add_is_mod(r0.0[k].count, 1);
        assert(r0.0[k].count + 1 == (n0 % m) + 1);
        assert(((n0 % m) + (1int % m)) % m == (n0 + 1) % m) by {
            vstd::arithmetic::div_mod::lemma_add_mod_noop(n0, 1, m);
        }
        vstd::arithmetic::div_mod::lemma_small_mod(1, m as nat);
        lemma_wrapping_add_is_mod(r0.0[k].usage, b);
        assert(((s0 % m) + (b as int % m)) % m == (s0 + b) % m) by {
            vstd::arithmetic::div_mod::lemma_add_mod_noop(s0, b as int, m);
        }
        vstd::arithmetic::div_mod::lemma_small_mod(b as nat, m as nat);
        vstd::arithmetic::div_mod::lemma_mod_bound(s0 % m + b, m);
        vstd::arithmetic::div_mod::lemma_mod_bound(n0 % m + 1, m);
    }
}

/// A run of events for one fresh address `k`, followed by a drain,
/// hands out exactly one entry for `k`, carrying the number of events
/// and the sum of their lengths modulo 2^32; distinctness of the drained
/// keys rules out a second entry, and the drained table keeps nothing.
pub proof fn lemma_credits_then_drain_one_record(
    s: (Map<u64, IPAggs>, nat),
    cap: nat,
    k: u64,
    lens: Seq<u32>,
    es: Seq<(u64, IPAggs)>,
)
    requires
        !s.0.contains_key(k),
        s.1 < cap,
        lens.len() > 0,
        crate::table::distinct_keys(es),
        crate::table::kv_map_of(es) == ip_credit_many(s, cap, k, lens).0,
    ensures
        exists|i: int|
            0 <= i < es.len() && es[i] == (
                k,
                IPAggs {
                    count: (lens.len() as int % 0x1_0000_0000) as u32,
                    usage: (sum_bits(lens) % 0x1_0000_0000) as u32,
                },
            ),
        forall|i: int, j: int| 0 <= i < j < es.len() ==> (#[trigger] es[i]).0 != (#[trigger] es[j]).0,
{
    lemma_repeated_credits_one_key(s, cap, k, lens);
    crate::table::lemma_kv_map_contains(es, k);
    let i = choose|i: int| 0 <= i < es.len() && (#[trigger] es[i]).0 == k;
    crate::table::lemma_kv_map_index(es, i);
    assert(es[i] == (k, crate::table::kv_map_of(es)[k]));
}

/// The aggregation tables, split by traffic direction and key dimension.
pub struct AggTables {
    pub upload_ip: BoundedMap<IPAggs>,
    pub download_ip: BoundedMap<IPAggs>,
    pub upload_port: BoundedMap<PortAggs>,
    pub download_port: BoundedMap<PortAggs>,
}

impl AggTables {
    /// All four tables are well-formed.
    pub open spec fn wf(&self) -> bool {
        self.upload_ip.wf() && self.download_ip.wf() && self.upload_port.wf()
            && self.download_port.wf()
    }

    /// Four empty tables, each with the given fixed capacity.
    pub fn new(capacity: usize) -> (r: Self)
        ensures
            r.wf(),
            r.upload_ip@ == Map::<u64, IPAggs>::empty(),
            r.download_ip@ == Map::<u64, IPAggs>::empty(),
            r.upload_port@ == Map::<u64, PortAggs>::empty(),
            r.download_port@ == Map::<u64, PortAggs>::empty(),
            r.upload_ip.spec_len() == 0,
            r.download_ip.spec_len() == 0,
            r.upload_port.spec_len() == 0,
            r.download_port.spec_len() == 0,
            r.upload_ip.spec_capacity() == capacity,
            r.download_ip.spec_capacity() == capacity,
            r.upload_port.spec_capacity() == capacity,
            r.download_port.spec_capacity() == capacity,
    {
        AggTables {
            upload_ip: BoundedMap::new(capacity),
            download_ip: BoundedMap::new(capacity),
            upload_port: BoundedMap::new(capacity),
            download_port: BoundedMap::new(capacity),
        }
    }

    /// Credit one completed call to the tables of its direction: both
    /// addresses in the address table, first the source and then the
    /// destination, and both ports in the port table, in the same order.
    /// The other direction's tables are left untouched.
    pub fn record_message(&mut self, m: Message)
        requires
            old(self).wf(),
        ensures
            final(self).wf(),
            final(self).upload_ip.spec_capacity() == old(self).upload_ip.spec_capacity(),
            final(self).download_ip.spec_capacity() == old(self).download_ip.spec_capacity(),
            final(self).upload_port.spec_capacity() == old(self).upload_port.spec_capacity(),
            final(self).download_port.spec_capacity() == old(self).download_port.spec_capacity(),
            m matches Message::Send(c, bits) ==> {
                &&& (final(self).upload_ip@, final(self).upload_ip.spec_len()) == ip_credit_step(
                    ip_credit_step(
                        (old(self).upload_ip@, old(self).upload_ip.spec_len()),
                        old(self).upload_ip.spec_capacity(),
                        c.saddr as u64,
                        bits as u32,
                    ),
                    old(self).upload_ip.spec_capacity(),
                    c.daddr as u64,
                    bits as u32,
                )
                &&& (final(self).upload_port@, final(self).upload_port.spec_len())
                    == port_credit_step(
                    port_credit_step(
                        (old(self).upload_port@, old(self).upload_port.spec_len()),
                        old(self).upload_port.spec_capacity(),
                        c.sport as u64,
                    ),
                    old(self).upload_port.spec_capacity(),
                    c.dport as u64,
                )
                &&& final(self).download_ip == old(self).download_ip
                &&& final(self).download_port == old(self).download_port
            },
            m matches Message::Receive(c, bits) ==> {
                &&& (final(self).download_ip@, final(self).download_ip.spec_len())
                    == ip_credit_step(
                    ip_credit_step(
                        (old(self).download_ip@, old(self).download_ip.spec_len()),
                        old(self).download_ip.spec_capacity(),
                        c.saddr as u64,
                        bits as u32,
                    ),
                    old(self).download_ip.spec_capacity(),
                    c.daddr as u64,
                    bits as u32,
                )
                &&& (final(self).download_port@, final(self).download_port.spec_len())
                    == port_credit_step(
                    port_credit_step(
                        (old(self).download_port@, old(self).download_port.spec_len()),
                        old(self).download_port.spec_capacity(),
                        c.sport as u64,
                    ),
                    old(self).download_port.spec_capacity(),
                    c.dport as u64,
                )
                &&& final(self).upload_ip == old(self).upload_ip
                &&& final(self).upload_port == old(self).upload_port
            },
    {
        match m {
            Message::Send(c, bits) => {
                credit_ip(&mut self.upload_ip, c.saddr, bits as u32);
                credit_ip(&mut self.upload_ip, c.daddr, bits as u32);
                credit_port(&mut self.upload_port, c.sport);
                credit_port(&mut self.upload_port, c.dport);
            },
            Message::Receive(c, bits) => {
                credit_ip(&mut self.download_ip, c.saddr, bits as u32);
                credit_ip(&mut self.download_ip, c.daddr, bits as u32);
                credit_port(&mut self.download_port, c.sport);
                credit_port(&mut self.download_port, c.dport);
            },
        }
    }
}

} // verus!
