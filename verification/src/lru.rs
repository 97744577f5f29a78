//! Bounded tables in the manner of the kernel's LRU hash maps: at most a
//! fixed number of entries, and inserting a new key into a full table
//! evicts one of the entries already there.

use vstd::prelude::*;
use std::collections::HashMap;
use std::hash::Hash;
use vstd::std_specs::hash::obeys_key_model;

verus! {

broadcast use vstd::std_specs::hash::group_hash_axioms;

/// How a table settles after a step that would leave it as `ideal`: within
/// capacity it is `ideal`; past capacity one entry that was already in `old`
/// leaves.
pub open spec fn settles<K, V>(old: Map<K, V>, ideal: Map<K, V>, fin: Map<K, V>, cap: nat) -> bool {
    if ideal.len() <= cap {
        fin == ideal
    } else {
        exists|j: K| old.contains_key(j) && fin == ideal.remove(j)
    }
}

/// A table of at most `capacity` entries.  Entries leave, when the table is
/// full and a new key comes, in the order they came in.
pub struct LruTable<K, V> {
    map: HashMap<K, V>,
    order: Vec<K>,
    cap: usize,
}

impl<K, V> View for LruTable<K, V> {
    type V = Map<K, V>;

    closed spec fn view(&self) -> Map<K, V> {
        self.map@
    }
}

impl<K, V> LruTable<K, V> {
    pub closed spec fn capacity(self) -> nat {
        self.cap as nat
    }

    /// The table's internal bookkeeping is consistent.
    pub closed spec fn wf(self) -> bool {
        &&& self.cap >= 1
        &&& self.order@.len() <= self.cap
        &&& self.order@.no_duplicates()
        &&& self.map@.dom() == self.order@.to_set()
    }

    /// A consistent table holds at most `capacity` entries.
    pub proof fn lemma_within_capacity(self)
        requires
            self.wf(),
        ensures
            self@.len() <= self.capacity(),
            self@.dom().finite(),
            self.capacity() >= 1,
    {
        self.order@.unique_seq_to_set();
    }

    pub fn new(cap: usize) -> (r: Self)
        requires
            cap >= 1,
        ensures
            r.wf(),
            r@ == Map::<K, V>::empty(),
            r.capacity() == cap,
    {
        let r = LruTable { map: HashMap::new(), order: Vec::new(), cap };
        assert(r.order@.to_set() =~= Set::<K>::empty());
        assert(r.map@ =~= Map::<K, V>::empty());
        r
    }

    pub fn capacity_exec(&self) -> (r: usize)
        ensures
            r == self.capacity(),
    {
        self.cap
    }
}

impl<K: Hash + Eq + Copy, V> LruTable<K, V> {
    pub fn len(&self) -> (r: usize)
        requires
            self.wf(),
            obeys_key_model::<K>(),
        ensures
            r == self@.len(),
    {
        proof {
            self.lemma_within_capacity();
        }
        self.map.len()
    }

    pub fn is_empty(&self) -> (r: bool)
        requires
            self.wf(),
            obeys_key_model::<K>(),
        ensures
            r == (self@.len() == 0),
    {
        self.len() == 0
    }

    pub fn contains_key(&self, k: &K) -> (r: bool)
        requires
            obeys_key_model::<K>(),
        ensures
            r == self@.contains_key(*k),
    {
        self.map.contains_key(k)
    }

    pub fn get(&self, k: &K) -> (r: Option<&V>)
        requires
            obeys_key_model::<K>(),
        ensures
            match r {
                Some(v) => self@.contains_key(*k) && *v == self@[*k],
                None => !self@.contains_key(*k),
            },
    {
        self.map.get(k)
    }

    /// Stores `v` under `k`; a new key in a full table first evicts the
    /// oldest entry.
    pub fn insert(&mut self, k: K, v: V)
        requires
            old(self).wf(),
            obeys_key_model::<K>(),
        ensures
            final(self).wf(),
            final(self).capacity() == old(self).capacity(),
            settles(old(self)@, old(self)@.insert(k, v), final(self)@, old(self).capacity()),
    {
        proof {
            self.lemma_within_capacity();
            self.order@.unique_seq_to_set();
        }
        let ghost old_map = self.map@;
        let ghost old_order = self.order@;
        assert(old_map.len() == old_order.len());
        if self.map.contains_key(&k) {
            self.map.insert(k, v);
            proof {
                assert(old_map.insert(k, v).dom() =~= old_map.dom());
                assert(self.map@.dom() =~= self.order@.to_set());
            }
        } else if self.order.len() < self.cap {
            self.order.push(k);
            self.map.insert(k, v);
            proof {
                assert(!old_order.contains(k)) by {
                    assert(!old_order.to_set().contains(k));
                }
                assert(self.order@ == old_order.push(k));
                assert forall|a: int, b: int| 0 <= a < b < self.order@.len() implies self.order@[a] != self.order@[b] by {
                    if b == old_order.len() {
                        assert(old_order.contains(old_order[a]));
                    }
                }
                assert(self.map@.dom() =~= self.order@.to_set()) by {
                    assert forall|x: K| self.order@.to_set().contains(x) <==> self.map@.dom().contains(x) by {
                        if x != k {
                            if self.order@.contains(x) {
                                let i = choose|i: int| 0 <= i < self.order@.len() && self.order@[i] == x;
                                assert(old_order[i] == x);
                            }
                            if old_order.contains(x) {
                                let i = choose|i: int| 0 <= i < old_order.len() && old_order[i] == x;
                                assert(self.order@[i] == x);
                            }
                        } else {
                            assert(self.order@[old_order.len() as int] == k);
                        }
                    }
                }
                assert(old_map.insert(k, v).len() == old_map.len() + 1);
            }
        } else {
            let j = self.order.remove(0);
            self.map.remove(&j);
            self.order.push(k);
            self.map.insert(k, v);
            proof {
                assert(old_order.contains(j)) by {
                    assert(old_order[0] == j);
                }
                assert(old_map.contains_key(j));
                assert(!old_order.contains(k)) by {
                    assert(!old_order.to_set().contains(k));
                }
                let mid = old_order.remove(0);
                assert(self.order@ == mid.push(k));
                assert forall|x: K| mid.contains(x) <==> (old_order.contains(x) && x != j) by {
                    if mid.contains(x) {
                        let i = choose|i: int| 0 <= i < mid.len() && mid[i] == x;
                        assert(old_order[i + 1] == x);
                        assert(x != j) by {
                            assert(old_order[0] != old_order[i + 1]);
                        }
                    }
                    if old_order.contains(x) && x != j {
                        let i = choose|i: int| 0 <= i < old_order.len() && old_order[i] == x;
                        assert(i != 0);
                        assert(mid[i - 1] == x);
                    }
                }
                assert forall|a: int, b: int| 0 <= a < b < self.order@.len() implies self.order@[a] != self.order@[b] by {
                    if b == mid.len() {
                        assert(mid.contains(mid[a]));
                    } else {
                        assert(mid[a] == old_order[a + 1]);
                        assert(mid[b] == old_order[b + 1]);
                    }
                }
                assert(self.map@.dom() =~= self.order@.to_set()) by {
                    assert forall|x: K| self.order@.to_set().contains(x) <==> self.map@.dom().contains(x) by {
                        if x != k {
                            if self.order@.contains(x) {
                                let i = choose|i: int| 0 <= i < self.order@.len() && self.order@[i] == x;
                                assert(mid[i] == x);
                            }
                            if mid.contains(x) {
                                let i = choose|i: int| 0 <= i < mid.len() && mid[i] == x;
                                assert(self.order@[i] == x);
                            }
                        } else {
                            assert(self.order@[mid.len() as int] == k);
                        }
                    }
                }
                assert(old_map.insert(k, v).len() == old_map.len() + 1);
                assert(self.map@ =~= old_map.insert(k, v).remove(j));
                assert(old_map.insert(k, v).len() > self.cap);
                assert(old_map.contains_key(j) && self.map@ == old_map.insert(k, v).remove(j));
            }
        }
    }
}

/// Settling keeps the entry just written and never leaves more than
/// `cap` entries; only entries that were there before can leave.
pub proof fn lemma_settle_written<K, V>(old: Map<K, V>, k: K, v: V, fin: Map<K, V>, cap: nat)
    requires
        settles(old, old.insert(k, v), fin, cap),
        old.len() <= cap,
        old.dom().finite(),
    ensures
        fin.contains_key(k),
        fin[k] == v,
        fin.len() <= cap,
        fin.dom().finite(),
        forall|x: K| #[trigger] fin.contains_key(x) ==> old.insert(k, v).contains_key(x),
        forall|x: K| x != k && #[trigger] fin.contains_key(x) ==> old.contains_key(x) && fin[x] == old[x],
{
    let ideal = old.insert(k, v);
    if old.contains_key(k) {
        assert(ideal.dom() =~= old.dom());
    } else {
        assert(ideal.len() == old.len() + 1);
    }
    if ideal.len() > cap {
        let j = choose|j: K| old.contains_key(j) && fin == ideal.remove(j);
        assert(j != k);
        assert(fin.len() == ideal.len() - 1);
    }
}

/// A table that the step leaves alone stays as it was.
pub proof fn lemma_settle_same<K, V>(old: Map<K, V>, fin: Map<K, V>, cap: nat)
    requires
        settles(old, old, fin, cap),
        old.len() <= cap,
    ensures
        fin == old,
{
}

} // verus!
