//! Correlation of a function-entry probe with its matching exit probe.
//!
//! An entry probe records the socket handle a thread is working on; the
//! exit probe takes it back out.  At most one handle is in flight per
//! thread: a second entry probe for the same thread overwrites the first
//! (last entry wins), and the exit probe's take removes the entry so a
//! stale handle can never be reused by an unrelated later call.

use vstd::prelude::*;

use crate::table::BoundedMap;

verus! {

/// What a take returns: the handle recorded for the thread, if any.
pub open spec fn take_result(m: Map<u64, u64>, thread_id: u64) -> Option<u64> {
    if m.contains_key(thread_id) {
        Some(m[thread_id])
    } else {
        None
    }
}

/// The bounded mapping from execution-thread identifier to the in-flight
/// socket handle.
pub struct CorrelationTable {
    table: BoundedMap<u64>,
}

impl CorrelationTable {
    /// The thread-to-handle map held right now.
    pub closed spec fn view(&self) -> Map<u64, u64> {
        self.table@
    }

    /// How many entries are held right now.
    pub closed spec fn spec_len(&self) -> nat {
        self.table.spec_len()
    }

    /// The fixed capacity the table was created with.
    pub closed spec fn spec_capacity(&self) -> nat {
        self.table.spec_capacity()
    }

    /// The underlying table is well-formed.
    pub closed spec fn wf(&self) -> bool {
        self.table.wf()
    }

    /// An empty correlation table with the given fixed capacity.
    pub fn new(capacity: usize) -> (r: Self)
        ensures
            r.wf(),
            r@ == Map::<u64, u64>::empty(),
            r.spec_len() == 0,
            r.spec_capacity() == capacity,
    {
        CorrelationTable { table: BoundedMap::new(capacity) }
    }

    /// Record the handle a thread holds, overwriting any prior entry for
    /// that thread.  When the thread is new and the table is full the
    /// event is silently dropped.
    pub fn put(&mut self, thread_id: u64, handle: u64)
        requires
            old(self).wf(),
        ensures
            final(self).wf(),
            final(self).spec_capacity() == old(self).spec_capacity(),
            old(self)@.contains_key(thread_id) || old(self).spec_len() < old(
                self,
            ).spec_capacity() ==> final(self)@ == old(self)@.insert(thread_id, handle),
            !old(self)@.contains_key(thread_id) && old(self).spec_len() >= old(
                self,
            ).spec_capacity() ==> *final(self) == *old(self),
    {
        let _ = self.table.set(thread_id, handle);
    }

    /// Read and remove the handle recorded for a thread, if any.
    pub fn take(&mut self, thread_id: u64) -> (r: Option<u64>)
        requires
            old(self).wf(),
        ensures
            final(self).wf(),
            final(self).spec_capacity() == old(self).spec_capacity(),
            r == take_result(old(self)@, thread_id),
            final(self)@ == old(self)@.remove(thread_id),
    {
        self.table.take(thread_id)
    }
}

/// After an entry probe records handle `h` for thread `t`, the first
/// take returns exactly `h` and removes the entry, and a second take in
/// the same window returns nothing.
pub proof fn lemma_take_exactly_once(m: Map<u64, u64>, t: u64, h: u64)
    ensures
        take_result(m.insert(t, h), t) == Some(h),
        take_result(m.insert(t, h).remove(t), t) == None::<u64>,
{
}

} // verus!
