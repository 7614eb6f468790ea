//! A bounded, arena-backed map from 64-bit keys to copyable values.
//!
//! This is the table shape the kernel side can afford: a fixed capacity
//! chosen at construction, no reallocation after that point, and total
//! operations that never fail loudly — an insert into a full table is
//! silently refused and reported through the return value.

use vstd::prelude::*;

verus! {

/// No key occurs twice in an entry list.
pub open spec fn distinct_keys<V>(s: Seq<(u64, V)>) -> bool {
    forall|i: int, j: int| 0 <= i < j < s.len() ==> (#[trigger] s[i]).0 != (#[trigger] s[j]).0
}

/// The mathematical map that an entry list denotes; a later entry for a
/// key shadows an earlier one (entry lists kept here never repeat a key).
pub open spec fn kv_map_of<V>(s: Seq<(u64, V)>) -> Map<u64, V>
    decreases s.len(),
{
    if s.len() == 0 {
        Map::empty()
    } else {
        kv_map_of(s.drop_last()).insert(s.last().0, s.last().1)
    }
}

/// A key is in the denoted map exactly when some entry carries it.
pub proof fn lemma_kv_map_contains<V>(s: Seq<(u64, V)>, k: u64)
    ensures
        kv_map_of(s).contains_key(k) <==> exists|i: int|
            0 <= i < s.len() && (#[trigger] s[i]).0 == k,
    decreases s.len(),
{
    if s.len() > 0 {
        lemma_kv_map_contains(s.drop_last(), k);
        if s.last().0 == k {
            assert(s[s.len() - 1].0 == k);
        } else {
            assert(forall|i: int| 0 <= i < s.len() - 1 ==> s[i] == s.drop_last()[i]);
        }
    }
}

/// With distinct keys, the denoted map sends each entry's key to its value.
pub proof fn lemma_kv_map_index<V>(s: Seq<(u64, V)>, i: int)
    requires
        distinct_keys(s),
        0 <= i < s.len(),
    ensures
        kv_map_of(s).contains_key(s[i].0),
        kv_map_of(s)[s[i].0] == s[i].1,
    decreases s.len(),
{
    if i < s.len() - 1 {
        assert(forall|x: int| 0 <= x < s.len() - 1 ==> s[x] == s.drop_last()[x]);
        lemma_kv_map_index(s.drop_last(), i);
        assert(s.last().0 != s[i].0);
    }
}

/// Overwriting the value of the entry at `i` updates exactly that key.
pub proof fn lemma_kv_map_update<V>(s: Seq<(u64, V)>, i: int, v: V)
    requires
        distinct_keys(s),
        0 <= i < s.len(),
    ensures
        kv_map_of(s.update(i, (s[i].0, v))) == kv_map_of(s).insert(s[i].0, v),
        distinct_keys(s.update(i, (s[i].0, v))),
    decreases s.len(),
{
    let t = s.update(i, (s[i].0, v));
    assert(forall|x: int, y: int| 0 <= x < y < t.len() ==> (#[trigger] t[x]).0 != (#[trigger] t[y]).0) by {
        assert(forall|x: int| 0 <= x < s.len() ==> (#[trigger] t[x]).0 == s[x].0);
    }
    if i == s.len() - 1 {
        assert(t.drop_last() =~= s.drop_last());
        assert(kv_map_of(s.drop_last()).insert(s[i].0, s[i].1).insert(s[i].0, v) =~= kv_map_of(
            s.drop_last(),
        ).insert(s[i].0, v));
    } else {
        assert(forall|x: int| 0 <= x < s.len() - 1 ==> s[x] == s.drop_last()[x]);
        lemma_kv_map_update(s.drop_last(), i, v);
        assert(t.drop_last() =~= s.drop_last().update(i, (s[i].0, v)));
        assert(t.last() == s.last());
        assert(s.last().0 != s[i].0);
        assert(kv_map_of(s.drop_last()).insert(s[i].0, v).insert(s.last().0, s.last().1)
            =~= kv_map_of(s.drop_last()).insert(s.last().0, s.last().1).insert(s[i].0, v));
    }
}

/// Appending an entry with a fresh key inserts exactly that key.
pub proof fn lemma_kv_map_push<V>(s: Seq<(u64, V)>, k: u64, v: V)
    requires
        distinct_keys(s),
        forall|i: int| 0 <= i < s.len() ==> (#[trigger] s[i]).0 != k,
    ensures
        kv_map_of(s.push((k, v))) == kv_map_of(s).insert(k, v),
        distinct_keys(s.push((k, v))),
{
    assert(s.push((k, v)).drop_last() =~= s);
    assert(s.push((k, v)).last() == (k, v));
}

/// Removing the entry at `i` removes exactly its key from the denoted map.
pub proof fn lemma_kv_map_remove<V>(s: Seq<(u64, V)>, i: int)
    requires
        distinct_keys(s),
        0 <= i < s.len(),
    ensures
        kv_map_of(s.remove(i)) == kv_map_of(s).remove(s[i].0),
        distinct_keys(s.remove(i)),
    decreases s.len(),
{
    let k = s[i].0;
    let t = s.remove(i);
    assert(forall|x: int, y: int| 0 <= x < y < t.len() ==> (#[trigger] t[x]).0 != (#[trigger] t[y]).0) by {
        assert(forall|x: int| 0 <= x < t.len() ==> t[x] == (if x < i {
            s[x]
        } else {
            s[x + 1]
        }));
    }
    if i == s.len() - 1 {
        assert(t =~= s.drop_last());
        lemma_kv_map_contains(s.drop_last(), k);
        assert(forall|x: int| 0 <= x < s.len() - 1 ==> s[x] == s.drop_last()[x]);
        assert(!kv_map_of(s.drop_last()).contains_key(k));
        assert(kv_map_of(s.drop_last()).insert(k, s[i].1).remove(k) =~= kv_map_of(s.drop_last()));
    } else {
        assert(forall|x: int| 0 <= x < s.len() - 1 ==> s[x] == s.drop_last()[x]);
        lemma_kv_map_remove(s.drop_last(), i);
        assert(t.drop_last() =~= s.drop_last().remove(i));
        assert(t.last() == s.last());
        assert(s.last().0 != k);
        assert(kv_map_of(s.drop_last()).remove(k).insert(s.last().0, s.last().1) =~= kv_map_of(
            s.drop_last(),
        ).insert(s.last().0, s.last().1).remove(k));
    }
}

/// With distinct keys, the denoted map has exactly one key per entry.
pub proof fn lemma_kv_map_len<V>(s: Seq<(u64, V)>)
    requires
        distinct_keys(s),
    ensures
        kv_map_of(s).dom().finite(),
        kv_map_of(s).dom().len() == s.len(),
    decreases s.len(),
{
    broadcast use vstd::set::axiom_set_insert_len;

    if s.len() > 0 {
        assert(forall|x: int| 0 <= x < s.len() - 1 ==> s[x] == s.drop_last()[x]);
        lemma_kv_map_len(s.drop_last());
        lemma_kv_map_contains(s.drop_last(), s.last().0);
    }
}

/// What one drain leaves behind: the handed-out entries carry exactly
/// the map the table held, one entry per key, and the table is empty.
pub open spec fn drain_post<V: Copy>(pre: BoundedMap<V>, post: BoundedMap<V>, r: Seq<(u64, V)>) -> bool {
    &&& post@ == Map::<u64, V>::empty()
    &&& post.spec_len() == 0
    &&& distinct_keys(r)
    &&& kv_map_of(r) == pre@
    &&& r.len() == pre.spec_len()
}

/// Drain is idempotent: the first drain yields one record per entry the
/// table held, and a second drain with no intervening events yields
/// none.
pub proof fn lemma_drain_idempotent<V: Copy>(
    t0: BoundedMap<V>,
    t1: BoundedMap<V>,
    t2: BoundedMap<V>,
    r1: Seq<(u64, V)>,
    r2: Seq<(u64, V)>,
)
    requires
        drain_post(t0, t1, r1),
        drain_post(t1, t2, r2),
    ensures
        r1.len() == t0.spec_len(),
        r2.len() == 0,
{
}

/// A fixed-capacity map from `u64` keys to copyable values, backed by a
/// flat entry list with no repeated keys.
pub struct BoundedMap<V> {
    entries: Vec<(u64, V)>,
    capacity: usize,
}

impl<V: Copy> BoundedMap<V> {
    /// The map held right now.
    pub closed spec fn view(&self) -> Map<u64, V> {
        kv_map_of(self.entries@)
    }

    /// How many entries are held right now.
    pub closed spec fn spec_len(&self) -> nat {
        self.entries@.len()
    }

    /// The fixed capacity the table was created with.
    pub closed spec fn spec_capacity(&self) -> nat {
        self.capacity as nat
    }

    /// Well-formed: no repeated key, and occupancy within capacity.
    pub closed spec fn wf(&self) -> bool {
        distinct_keys(self.entries@) && self.entries@.len() <= self.capacity
    }

    /// The occupancy equals the size of the map's domain.
    pub proof fn lemma_len_is_dom_len(&self)
        requires
            self.wf(),
        ensures
            self@.dom().finite(),
            self@.dom().len() == self.spec_len(),
    {
        lemma_kv_map_len(self.entries@);
    }

    /// An empty table with the given fixed capacity.
    pub fn new(capacity: usize) -> (r: Self)
        ensures
            r.wf(),
            r@ == Map::<u64, V>::empty(),
            r.spec_len() == 0,
            r.spec_capacity() == capacity,
    {
        BoundedMap { entries: Vec::new(), capacity }
    }

    /// How many entries are held right now.
    pub fn len(&self) -> (r: usize)
        ensures
            r == self.spec_len(),
    {
        self.entries.len()
    }

    /// The position of the entry holding `k`, if one does.
    fn find(&self, k: u64) -> (r: Option<usize>)
        ensures
            match r {
                Some(i) => i < self.entries@.len() && self.entries@[i as int].0 == k,
                None => forall|i: int|
                    0 <= i < self.entries@.len() ==> (#[trigger] self.entries@[i]).0 != k,
            },
    {
        let mut i: usize = 0;
        while i < self.entries.len()
            invariant
                i <= self.entries@.len(),
                forall|j: int| 0 <= j < i ==> (#[trigger] self.entries@[j]).0 != k,
            decreases self.entries@.len() - i,
        {
            if self.entries[i].0 == k {
                return Some(i);
            }
            i += 1;
        }
        None
    }

    /// The value held for `k`, if any.
    pub fn get(&self, k: u64) -> (r: Option<V>)
        requires
            self.wf(),
        ensures
            self@.contains_key(k) ==> r == Some(self@[k]),
            !self@.contains_key(k) ==> r is None,
    {
        proof {
            lemma_kv_map_contains(self.entries@, k);
        }
        match self.find(k) {
            Some(i) => {
                proof {
                    lemma_kv_map_index(self.entries@, i as int);
                }
                Some(self.entries[i].1)
            },
            None => None,
        }
    }

    /// Store `v` under `k`: overwrite if the key is present, insert if
    /// there is room, and silently refuse (returning `false`) if the key
    /// is absent and the table is full.
    pub fn set(&mut self, k: u64, v: V) -> (ok: bool)
        requires
            old(self).wf(),
        ensures
            final(self).wf(),
            final(self).spec_capacity() == old(self).spec_capacity(),
            old(self)@.contains_key(k) ==> ok && final(self)@ == old(self)@.insert(k, v)
                && final(self).spec_len() == old(self).spec_len(),
            !old(self)@.contains_key(k) && old(self).spec_len() < old(self).spec_capacity() ==> ok
                && final(self)@ == old(self)@.insert(k, v) && final(self).spec_len() == old(
                self,
            ).spec_len() + 1,
            !old(self)@.contains_key(k) && old(self).spec_len() >= old(self).spec_capacity()
                ==> !ok && *final(self) == *old(self),
    {
        proof {
            lemma_kv_map_contains(self.entries@, k);
        }
        match self.find(k) {
            Some(i) => {
                proof {
                    lemma_kv_map_index(self.entries@, i as int);
                    lemma_kv_map_update(self.entries@, i as int, v);
                }
                self.entries.set(i, (k, v));
                true
            },
            None => {
                if self.entries.len() < self.capacity {
                    proof {
                        lemma_kv_map_push(self.entries@, k, v);
                    }
                    self.entries.push((k, v));
                    true
                } else {
                    false
                }
            },
        }
    }

    /// Remove the entry for `k`, if one is held; absent keys are left alone.
    pub fn delete(&mut self, k: u64)
        requires
            old(self).wf(),
        ensures
            final(self).wf(),
            final(self).spec_capacity() == old(self).spec_capacity(),
            final(self)@ == old(self)@.remove(k),
            old(self)@.contains_key(k) ==> final(self).spec_len() == old(self).spec_len() - 1,
            !old(self)@.contains_key(k) ==> *final(self) == *old(self),
    {
        proof {
            lemma_kv_map_contains(self.entries@, k);
        }
        match self.find(k) {
            Some(i) => {
                proof {
                    lemma_kv_map_remove(self.entries@, i as int);
                }
                self.entries.remove(i);
            },
            None => {
                proof {
                    assert(self@.remove(k) =~= self@);
                }
            },
        }
    }

    /// Read and remove the entry for `k` in one step.
    pub fn take(&mut self, k: u64) -> (r: Option<V>)
        requires
            old(self).wf(),
        ensures
            final(self).wf(),
            final(self).spec_capacity() == old(self).spec_capacity(),
            final(self)@ == old(self)@.remove(k),
            old(self)@.contains_key(k) ==> r == Some(old(self)@[k]),
            !old(self)@.contains_key(k) ==> r is None,
    {
        let r = self.get(k);
        self.delete(k);
        r
    }

    /// Remove every entry; the capacity is kept.
    pub fn clear(&mut self)
        requires
            old(self).wf(),
        ensures
            final(self).wf(),
            final(self).spec_capacity() == old(self).spec_capacity(),
            final(self)@ == Map::<u64, V>::empty(),
            final(self).spec_len() == 0,
    {
        self.entries.clear();
    }

    /// Atomically hand out every entry and leave the table empty.  The
    /// entries come out in no promised order, each key exactly once.
    pub fn drain_entries(&mut self) -> (r: Vec<(u64, V)>)
        requires
            old(self).wf(),
        ensures
            final(self).wf(),
            final(self).spec_capacity() == old(self).spec_capacity(),
            drain_post(*old(self), *final(self), r@),
    {
        let mut out: Vec<(u64, V)> = Vec::new();
        core::mem::swap(&mut out, &mut self.entries);
        out
    }
}

} // verus!
