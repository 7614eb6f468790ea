//! The drain cycle: atomically empty the aggregation tables into output
//! records and frame them for the telemetry sink.
//!
//! Deletion is unconditional and happens before any send attempt:
//! telemetry is at-most-once, and a drained-but-undelivered batch is
//! lost rather than blocking aggregation.  The frame is one
//! newline-terminated serialized record carrying every address record,
//! every port record, and the sum of the drained address counts.

use vstd::prelude::*;
use vstd::string::StrSliceExecFns;
use vstd::string::StringExecFns;

use crate::aggs::IPAggs;
use crate::aggs::PortAggs;
use crate::network_utils::dec_str;
use crate::network_utils::ipv4_str_of;
use crate::network_utils::u32_to_dec;
use crate::network_utils::u32_to_ipv4;
use crate::table::distinct_keys;
use crate::table::kv_map_of;
use crate::table::BoundedMap;

verus! {

/// One drained address entry, ready for the sink: the address as
/// dotted-decimal text, its event count, and its volume in bits.
#[derive(Debug)]
pub struct EsReadyIpAggs {
    pub ip: String,
    pub count: u32,
    pub usage: u32,
}

/// One drained port entry, ready for the sink.
#[derive(Clone, Copy, Debug, PartialEq, Eq, Structural)]
pub struct EsReadyPortAggs {
    pub port: u16,
    pub count: u32,
}

/// Everything one drain cycle ships: all address records, all port
/// records, and the sum of the drained address counts.
#[derive(Debug)]
pub struct BPFDataIteration {
    pub ips: Vec<EsReadyIpAggs>,
    pub ports: Vec<EsReadyPortAggs>,
    pub packet_count: u32,
}

/// The dotted-decimal text of an address table key.
pub open spec fn ip_key_str(k: u64) -> Seq<char> {
    let v = k as u32;
    ipv4_str_of(
        (v % 0x100) as u8,
        ((v / 0x100) % 0x100) as u8,
        ((v / 0x1_0000) % 0x100) as u8,
        (v / 0x100_0000) as u8,
    )
}

/// An address record renders exactly one drained table entry.
pub open spec fn ip_rec_matches(rec: EsReadyIpAggs, e: (u64, IPAggs)) -> bool {
    &&& rec.ip@ == ip_key_str(e.0)
    &&& rec.count == e.1.count
    &&& rec.usage == e.1.usage
}

/// A port record renders exactly one drained table entry.
pub open spec fn port_rec_matches(rec: EsReadyPortAggs, e: (u64, PortAggs)) -> bool {
    rec.port == e.0 as u16 && rec.count == e.1.count
}

/// The sum of the counts of a drained entry list.
pub open spec fn sum_counts(es: Seq<(u64, IPAggs)>) -> int
    decreases es.len(),
{
    if es.len() == 0 {
        0
    } else {
        sum_counts(es.drop_last()) + es.last().1.count
    }
}

/// The records and total of one address-table drain: some ordering `es`
/// of exactly the table's entries, rendered one record per entry, with
/// `total` the sum of the drained counts modulo 2^32.
pub open spec fn ip_drain_matches(
    es: Seq<(u64, IPAggs)>,
    m: Map<u64, IPAggs>,
    recs: Seq<EsReadyIpAggs>,
    total: u32,
) -> bool {
    &&& distinct_keys(es)
    &&& kv_map_of(es) == m
    &&& recs.len() == es.len()
    &&& (forall|i: int| 0 <= i < es.len() ==> ip_rec_matches(#[trigger] recs[i], es[i]))
    &&& total == sum_counts(es) % 0x1_0000_0000
}

/// The records of one port-table drain.
pub open spec fn port_drain_matches(
    es: Seq<(u64, PortAggs)>,
    m: Map<u64, PortAggs>,
    recs: Seq<EsReadyPortAggs>,
) -> bool {
    &&& distinct_keys(es)
    &&& kv_map_of(es) == m
    &&& recs.len() == es.len()
    &&& (forall|i: int| 0 <= i < es.len() ==> port_rec_matches(#[trigger] recs[i], es[i]))
}

/// Empty an address table into records, one per entry, each key exactly
/// once, and sum the drained counts.
pub fn drain_ip_table(t: &mut BoundedMap<IPAggs>) -> (r: (Vec<EsReadyIpAggs>, u32))
    requires
        old(t).wf(),
    ensures
        final(t).wf(),
        final(t).spec_capacity() == old(t).spec_capacity(),
        final(t)@ == Map::<u64, IPAggs>::empty(),
        final(t).spec_len() == 0,
        r.0@.len() == old(t).spec_len(),
        exists|es: Seq<(u64, IPAggs)>| ip_drain_matches(es, old(t)@, r.0@, r.1),
{
    let es = t.drain_entries();
    let mut recs: Vec<EsReadyIpAggs> = Vec::new();
    let mut total: u32 = 0;
    let mut i: usize = 0;
    proof {
        assert(es@.take(0) =~= Seq::<(u64, IPAggs)>::empty());
    }
    while i < es.len()
        invariant
            i <= es@.len(),
            distinct_keys(es@),
            kv_map_of(es@) == old(t)@,
            recs@.len() == i,
            forall|j: int| 0 <= j < i ==> ip_rec_matches(#[trigger] recs@[j], es@[j]),
            total == sum_counts(es@.take(i as int)) % 0x1_0000_0000,
        decreases es@.len() - i,
    {
        let (k, v) = es[i];
        proof {
            crate::table::lemma_kv_map_index(es@, i as int);
        }
        let text = u32_to_ipv4(#[verifier::truncate] (k as u32)).to_string();
        recs.push(EsReadyIpAggs { ip: text, count: v.count, usage: v.usage });
        proof {
            let pre = es@.take(i as int);
            let post = es@.take(i as int + 1);
            assert(post.drop_last() =~= pre);
            assert(post.last() == es@[i as int]);
            crate::aggregate::lemma_wrapping_add_is_mod(total, v.count);
            assert(((sum_counts(pre) % 0x1_0000_0000) + (v.count as int % 0x1_0000_0000))
                % 0x1_0000_0000 == (sum_counts(pre) + v.count) % 0x1_0000_0000) by {
                vstd::arithmetic::div_mod::lemma_add_mod_noop(
                    sum_counts(pre),
                    v.count as int,
                    0x1_0000_0000,
                );
            }
            vstd::arithmetic::div_mod::lemma_small_mod(v.count as nat, 0x1_0000_0000);
        }
        total = total.wrapping_add(v.count);
        i += 1;
    }
    let rr = (recs, total);
    proof {
        assert(es@.take(es@.len() as int) =~= es@);
        assert(ip_drain_matches(es@, old(t)@, rr.0@, rr.1));
        assert(exists|w: Seq<(u64, IPAggs)>| ip_drain_matches(w, old(t)@, rr.0@, rr.1));
    }
    rr
}

/// Empty a port table into records, one per entry, each key exactly once.
pub fn drain_port_table(t: &mut BoundedMap<PortAggs>) -> (r: Vec<EsReadyPortAggs>)
    requires
        old(t).wf(),
    ensures
        final(t).wf(),
        final(t).spec_capacity() == old(t).spec_capacity(),
        final(t)@ == Map::<u64, PortAggs>::empty(),
        final(t).spec_len() == 0,
        r@.len() == old(t).spec_len(),
        exists|es: Seq<(u64, PortAggs)>| port_drain_matches(es, old(t)@, r@),
{
    let es = t.drain_entries();
    let mut recs: Vec<EsReadyPortAggs> = Vec::new();
    let mut i: usize = 0;
    while i < es.len()
        invariant
            i <= es@.len(),
            distinct_keys(es@),
            kv_map_of(es@) == old(t)@,
            recs@.len() == i,
            forall|j: int| 0 <= j < i ==> port_rec_matches(#[trigger] recs@[j], es@[j]),
        decreases es@.len() - i,
    {
        let (k, v) = es[i];
        proof {
            crate::table::lemma_kv_map_index(es@, i as int);
        }
        recs.push(EsReadyPortAggs { port: #[verifier::truncate] (k as u16), count: v.count });
        i += 1;
    }
    proof {
        assert(port_drain_matches(es@, old(t)@, recs@));
    }
    recs
}

/// One full drain cycle over an address table and a port table: both are
/// left empty, and the result carries one record per drained entry plus
/// the sum of the drained address counts.
pub fn drain_iteration(ips: &mut BoundedMap<IPAggs>, ports: &mut BoundedMap<PortAggs>) -> (r:
    BPFDataIteration)
    requires
        old(ips).wf(),
        old(ports).wf(),
    ensures
        final(ips).wf(),
        final(ports).wf(),
        final(ips).spec_capacity() == old(ips).spec_capacity(),
        final(ports).spec_capacity() == old(ports).spec_capacity(),
        final(ips)@ == Map::<u64, IPAggs>::empty(),
        final(ports)@ == Map::<u64, PortAggs>::empty(),
        final(ips).spec_len() == 0,
        final(ports).spec_len() == 0,
        r.ips@.len() == old(ips).spec_len(),
        r.ports@.len() == old(ports).spec_len(),
        exists|es: Seq<(u64, IPAggs)>| ip_drain_matches(es, old(ips)@, r.ips@, r.packet_count),
        exists|es: Seq<(u64, PortAggs)>| port_drain_matches(es, old(ports)@, r.ports@),
{
    let (ip_recs, packet_count) = drain_ip_table(ips);
    let port_recs = drain_port_table(ports);
    let r = BPFDataIteration { ips: ip_recs, ports: port_recs, packet_count };
    proof {
        let es1 = choose|es: Seq<(u64, IPAggs)>|
            ip_drain_matches(es, old(ips)@, ip_recs@, packet_count);
        assert(ip_drain_matches(es1, old(ips)@, r.ips@, r.packet_count));
        assert(exists|w: Seq<(u64, IPAggs)>|
            ip_drain_matches(w, old(ips)@, r.ips@, r.packet_count));
        let es2 = choose|es: Seq<(u64, PortAggs)>| port_drain_matches(es, old(ports)@, port_recs@);
        assert(port_drain_matches(es2, old(ports)@, r.ports@));
        assert(exists|w: Seq<(u64, PortAggs)>| port_drain_matches(w, old(ports)@, r.ports@));
    }
    r
}

/// The serialized form of one address record.
pub open spec fn json_of_ip_rec(rec: EsReadyIpAggs) -> Seq<char> {
    "{\"ip\":\""@ + rec.ip@ + "\",\"count\":"@ + dec_str(rec.count as int) + ",\"usage\":"@
        + dec_str(rec.usage as int) + "}"@
}

/// The serialized form of one port record.
pub open spec fn json_of_port_rec(rec: EsReadyPortAggs) -> Seq<char> {
    "{\"port\":"@ + dec_str(rec.port as int) + ",\"count\":"@ + dec_str(rec.count as int) + "}"@
}

/// The serialized forms of a run of address records, comma-separated.
pub open spec fn json_of_ip_recs(recs: Seq<EsReadyIpAggs>) -> Seq<char>
    decreases recs.len(),
{
    if recs.len() == 0 {
        Seq::empty()
    } else if recs.len() == 1 {
        json_of_ip_rec(recs[0])
    } else {
        json_of_ip_recs(recs.drop_last()) + ","@ + json_of_ip_rec(recs.last())
    }
}

/// The serialized forms of a run of port records, comma-separated.
pub open spec fn json_of_port_recs(recs: Seq<EsReadyPortAggs>) -> Seq<char>
    decreases recs.len(),
{
    if recs.len() == 0 {
        Seq::empty()
    } else if recs.len() == 1 {
        json_of_port_rec(recs[0])
    } else {
        json_of_port_recs(recs.drop_last()) + ","@ + json_of_port_rec(recs.last())
    }
}

/// The serialized form of one whole drain cycle.
pub open spec fn json_of_iteration(it: BPFDataIteration) -> Seq<char> {
    "{\"ips\":["@ + json_of_ip_recs(it.ips@) + "],\"ports\":["@ + json_of_port_recs(it.ports@)
        + "],\"packet_count\":"@ + dec_str(it.packet_count as int) + "}"@
}

/// Serialize one address record.
fn ip_rec_to_json(rec: &EsReadyIpAggs) -> (r: String)
    ensures
        r@ == json_of_ip_rec(*rec),
{
    let mut s = String::from_str("{\"ip\":\"");
    s.append(rec.ip.as_str());
    s.append("\",\"count\":");
    let c = u32_to_dec(rec.count);
    s.append(c.as_str());
    s.append(",\"usage\":");
    let u = u32_to_dec(rec.usage);
    s.append(u.as_str());
    s.append("}");
    s
}

/// Serialize one port record.
fn port_rec_to_json(rec: &EsReadyPortAggs) -> (r: String)
    ensures
        r@ == json_of_port_rec(*rec),
{
    let mut s = String::from_str("{\"port\":");
    let p = u32_to_dec(rec.port as u32);
    s.append(p.as_str());
    s.append(",\"count\":");
    let c = u32_to_dec(rec.count);
    s.append(c.as_str());
    s.append("}");
    s
}

impl BPFDataIteration {
    /// Serialize the whole cycle as one record.
    pub fn to_json(&self) -> (r: String)
        ensures
            r@ == json_of_iteration(*self),
    {
        let mut s = String::from_str("{\"ips\":[");
        let mut i: usize = 0;
        proof {
            assert(self.ips@.take(0) =~= Seq::<EsReadyIpAggs>::empty());
        }
        while i < self.ips.len()
            invariant
                i <= self.ips@.len(),
                s@ == "{\"ips\":["@ + json_of_ip_recs(self.ips@.take(i as int)),
            decreases self.ips@.len() - i,
        {
            if i > 0 {
                s.append(",");
            }
            let rec = ip_rec_to_json(&self.ips[i]);
            s.append(rec.as_str());
            proof {
                let pre = self.ips@.take(i as int);
                let post = self.ips@.take(i as int + 1);
                assert(post.drop_last() =~= pre);
                assert(post.last() == self.ips@[i as int]);
            }
            i += 1;
        }
        proof {
            assert(self.ips@.take(self.ips@.len() as int) =~= self.ips@);
        }
        s.append("],\"ports\":[");
        let mut j: usize = 0;
        let ghost head: Seq<char> = s@;
        proof {
            assert(self.ports@.take(0) =~= Seq::<EsReadyPortAggs>::empty());
        }
        while j < self.ports.len()
            invariant
                j <= self.ports@.len(),
                s@ == head + json_of_port_recs(self.ports@.take(j as int)),
            decreases self.ports@.len() - j,
        {
            if j > 0 {
                s.append(",");
            }
            let rec = port_rec_to_json(&self.ports[j]);
            s.append(rec.as_str());
            proof {
                let pre = self.ports@.take(j as int);
                let post = self.ports@.take(j as int + 1);
                assert(post.drop_last() =~= pre);
                assert(post.last() == self.ports@[j as int]);
            }
            j += 1;
        }
        proof {
            assert(self.ports@.take(self.ports@.len() as int) =~= self.ports@);
        }
        s.append("],\"packet_count\":");
        let pc = u32_to_dec(self.packet_count);
        s.append(pc.as_str());
        s.append("}");
        proof {
            assert(s@ =~= json_of_iteration(*self));
        }
        s
    }

    /// The newline-terminated frame written to the sink for this cycle.
    pub fn to_frame(&self) -> (r: String)
        ensures
            r@ == json_of_iteration(*self) + "\n"@,
    {
        let mut s = self.to_json();
        s.append("\n");
        s
    }
}

} // verus!
