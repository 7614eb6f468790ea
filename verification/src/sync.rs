//! The blacklist sync cycle: replace the blacklist table's contents with
//! a freshly fetched address list.
//!
//! The fetch itself is the surrounding binary's work.  Only a successful
//! fetch touches the table: it is cleared and repopulated, one entry per
//! fetched address, keyed and valued by the address itself.  A failed
//! fetch changes nothing — a fetch failure must never wipe the table.
//! The clear-then-repopulate is not atomic with respect to the ingress
//! filter, which may observe a transient empty or partial blacklist.

use vstd::prelude::*;

use crate::network_utils::ipv4_text;
use crate::network_utils::parse_ipv4;
use crate::network_utils::parses_to;
use crate::table::BoundedMap;

verus! {

/// Parse a fetched list of dotted-decimal address strings.  Every entry
/// must be a well-formed address; otherwise the whole list is rejected
/// and the cycle is skipped.
pub fn parse_blacklist(names: &Vec<String>) -> (r: Option<Vec<u32>>)
    ensures
        match r {
            Some(v) => v@.len() == names@.len() && (forall|i: int|
                0 <= i < names@.len() ==> parses_to(names@[i]@, #[trigger] v@[i])),
            None => exists|i: int| 0 <= i < names@.len() && !ipv4_text(#[trigger] names@[i]@),
        },
{
    let mut out: Vec<u32> = Vec::new();
    let mut i: usize = 0;
    while i < names.len()
        invariant
            i <= names@.len(),
            out@.len() == i,
            forall|j: int| 0 <= j < i ==> parses_to(names@[j]@, #[trigger] out@[j]),
        decreases names@.len() - i,
    {
        match parse_ipv4(names[i].as_str()) {
            Some(v) => out.push(v),
            None => {
                return None;
            },
        }
        i += 1;
    }
    Some(out)
}

/// One insert of an address into the blacklist, over the table's
/// (contents, occupancy) pair; an address beyond capacity is dropped.
pub open spec fn blacklist_insert_step(s: (Map<u64, u32>, nat), cap: nat, a: u32) -> (
    Map<u64, u32>,
    nat,
) {
    if s.0.contains_key(a as u64) {
        (s.0.insert(a as u64, a), s.1)
    } else if s.1 < cap {
        (s.0.insert(a as u64, a), s.1 + 1)
    } else {
        s
    }
}

/// The blacklist after a successful fetch of `addrs`: cleared, then each
/// address inserted in order while there is room.
pub open spec fn blacklist_after(addrs: Seq<u32>, cap: nat) -> (Map<u64, u32>, nat)
    decreases addrs.len(),
{
    if addrs.len() == 0 {
        (Map::empty(), 0 as nat)
    } else {
        blacklist_insert_step(blacklist_after(addrs.drop_last(), cap), cap, addrs.last())
    }
}

/// The refreshed blacklist holds no address the fetch did not list: an
/// address left off the new list is no longer enforced after the cycle.
pub proof fn lemma_refresh_holds_only_fetched(addrs: Seq<u32>, cap: nat, k: u64)
    ensures
        blacklist_after(addrs, cap).0.contains_key(k) ==> exists|i: int|
            0 <= i < addrs.len() && addrs[i] as u64 == k,
    decreases addrs.len(),
{
    if addrs.len() > 0 {
        lemma_refresh_holds_only_fetched(addrs.drop_last(), cap, k);
    }
}

/// Replace the blacklist with a freshly fetched address list: every old
/// entry is deleted first, then each address becomes an entry keyed and
/// valued by itself, inserts beyond capacity silently dropped.
pub fn refresh_blacklist(table: &mut BoundedMap<u32>, addrs: &Vec<u32>)
    requires
        old(table).wf(),
    ensures
        final(table).wf(),
        final(table).spec_capacity() == old(table).spec_capacity(),
        (final(table)@, final(table).spec_len()) == blacklist_after(
            addrs@,
            old(table).spec_capacity(),
        ),
{
    table.clear();
    let mut i: usize = 0;
    proof {
        assert(addrs@.take(0) =~= Seq::<u32>::empty());
    }
    while i < addrs.len()
        invariant
            i <= addrs@.len(),
            table.wf(),
            table.spec_capacity() == old(table).spec_capacity(),
            (table@, table.spec_len()) == blacklist_after(
                addrs@.take(i as int),
                old(table).spec_capacity(),
            ),
        decreases addrs@.len() - i,
    {
        let a = addrs[i];
        proof {
            let pre = addrs@.take(i as int);
            let post = addrs@.take(i as int + 1);
            assert(post.drop_last() =~= pre);
            assert(post.last() == addrs@[i as int]);
        }
        let _ = table.set(a as u64, a);
        i += 1;
    }
    proof {
        assert(addrs@.take(addrs@.len() as int) =~= addrs@);
    }
}

/// Apply one sync cycle's outcome.  A successful fetch replaces the
/// table's contents; a failed fetch leaves every entry exactly as it
/// was, so stale enforcement outlives a flaky source.
pub fn apply_sync_cycle(table: &mut BoundedMap<u32>, fetched: Option<Vec<u32>>)
    requires
        old(table).wf(),
    ensures
        final(table).wf(),
        final(table).spec_capacity() == old(table).spec_capacity(),
        fetched matches Some(addrs) ==> (final(table)@, final(table).spec_len())
            == blacklist_after(addrs@, old(table).spec_capacity()),
        fetched is None ==> *final(table) == *old(table),
{
    match fetched {
        Some(addrs) => refresh_blacklist(table, &addrs),
        None => {},
    }
}

} // verus!
