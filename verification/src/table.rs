//! A map kept in the order of its keys.

use vstd::prelude::*;

verus! {

/// A key: a value with a place on the number line that no other key shares.
pub trait Key: Copy + Sized {
    /// The key's place.
    spec fn rank(self) -> int;

    /// No two keys share a place.
    proof fn rank_is_injective(a: Self, b: Self)
        requires
            a.rank() == b.rank(),
        ensures
            a == b,
    ;

    /// Whether this key comes before another.
    fn precedes(&self, other: &Self) -> (r: bool)
        ensures
            r == (self.rank() < other.rank()),
    ;
}

/// Keys that ascend strictly, so that none occurs twice.
pub open spec fn ascending<K: Key>(keys: Seq<K>) -> bool {
    forall|i: int, j: int|
        #![trigger keys[i], keys[j]]
        0 <= i < j < keys.len() ==> keys[i].rank() < keys[j].rank()
}

/// The keys of `map` in ascending order: the one sequence that ascends and
/// holds exactly those keys.
pub open spec fn keys_of<K: Key, V>(keys: Seq<K>, map: Map<K, V>) -> bool {
    &&& ascending(keys)
    &&& forall|k: K| #[trigger] map.contains_key(k) <==> keys.contains(k)
}

/// A map from keys to values, walked in the order of its keys.
#[derive(Debug)]
pub struct Table<K, V> {
    keys: Vec<K>,
    values: Vec<V>,
}

impl<K: Key, V: View> Table<K, V> {
    /// Every key has its value, and the keys ascend.
    pub closed spec fn wf(&self) -> bool {
        &&& self.keys@.len() == self.values@.len()
        &&& ascending(self.keys@)
    }

    /// The keys, in order.
    pub closed spec fn keys(&self) -> Seq<K> {
        self.keys@
    }

    /// The map from each key to the view of its value.
    pub closed spec fn map(&self) -> Map<K, V::V> {
        Map::new(
            |k: K| self.keys@.contains(k),
            |k: K| self.values@[self.keys@.index_of(k)]@,
        )
    }

    /// Where a key stands.
    proof fn lemma_at(&self, i: int)
        requires
            self.wf(),
            0 <= i < self.keys@.len(),
        ensures
            self.keys@.index_of(self.keys@[i]) == i,
            self.map().contains_key(self.keys@[i]),
            self.map()[self.keys@[i]] == self.values@[i]@,
    {
        let k = self.keys@[i];
        let j = self.keys@.index_of(k);
        assert(self.keys@.contains(k));
        assert(0 <= j < self.keys@.len() && self.keys@[j] == k);
    }

    /// Whether every key has its value and the keys ascend.
    pub fn is_sound(&self) -> (r: bool)
        ensures
            r == self.wf(),
    {
        if self.keys.len() != self.values.len() {
            return false;
        }
        let mut i: usize = 1;
        while i < self.keys.len()
            invariant
                1 <= i,
                self.keys@.len() == self.values@.len(),
                forall|a: int, b: int|
                    #![trigger self.keys@[a], self.keys@[b]]
                    0 <= a < b < i && b < self.keys@.len() ==> self.keys@[a].rank()
                        < self.keys@[b].rank(),
            decreases self.keys.len() - i,
        {
            if !self.keys[i - 1].precedes(&self.keys[i]) {
                assert(self.keys@[i - 1].rank() >= self.keys@[i as int].rank());
                return false;
            }
            i += 1;
        }
        true
    }

    /// The keys in order are exactly the keys of the map.
    pub proof fn keys_are_the_domain(&self)
        requires
            self.wf(),
        ensures
            keys_of(self.keys(), self.map()),
    {
    }

    /// There are as many keys in order as there are keys.
    pub proof fn keys_are_counted(&self)
        requires
            self.wf(),
        ensures
            self.map().dom().finite(),
            self.map().dom().len() == self.keys().len(),
    {
        let keys = self.keys@;
        assert(keys.no_duplicates()) by {
            assert forall|i: int, j: int|
                0 <= i < keys.len() && 0 <= j < keys.len() && i != j implies keys[i]
                != keys[j] by {
                if i < j {
                    assert(keys[i].rank() < keys[j].rank());
                } else {
                    assert(keys[j].rank() < keys[i].rank());
                }
            }
        }
        keys.unique_seq_to_set();
        assert(self.map().dom() =~= keys.to_set());
    }

    /// A table with nothing in it.
    pub fn new() -> (out: Self)
        ensures
            out.wf(),
            out.map() == Map::<K, V::V>::empty(),
            out.keys() == Seq::<K>::empty(),
    {
        let out = Table { keys: Vec::new(), values: Vec::new() };
        assert(out.map() =~= Map::<K, V::V>::empty());
        out
    }

    /// How many keys there are.
    pub fn len(&self) -> (n: usize)
        requires
            self.wf(),
        ensures
            n == self.keys().len(),
    {
        self.keys.len()
    }

    /// The key at a place in the order.
    pub fn key_at(&self, i: usize) -> (k: K)
        requires
            self.wf(),
            i < self.keys().len(),
        ensures
            k == self.keys()[i as int],
            self.map().contains_key(k),
    {
        proof {
            self.lemma_at(i as int);
        }
        self.keys[i]
    }

    /// The value at a place in the order.
    pub fn value_at(&self, i: usize) -> (v: &V)
        requires
            self.wf(),
            i < self.keys().len(),
        ensures
            self.map().contains_key(self.keys()[i as int]),
            v@ == self.map()[self.keys()[i as int]],
    {
        proof {
            self.lemma_at(i as int);
        }
        &self.values[i]
    }

    /// The first place whose key does not precede `k`.
    fn position(&self, k: &K) -> (at: usize)
        requires
            self.wf(),
        ensures
            at <= self.keys@.len(),
            forall|i: int| 0 <= i < at ==> self.keys@[i].rank() < k.rank(),
            forall|i: int| at <= i < self.keys@.len() ==> k.rank() <= self.keys@[i].rank(),
    {
        let mut low: usize = 0;
        let mut high: usize = self.keys.len();
        while low < high
            invariant
                self.wf(),
                low <= high <= self.keys@.len(),
                forall|i: int| 0 <= i < low ==> self.keys@[i].rank() < k.rank(),
                forall|i: int| high <= i < self.keys@.len() ==> k.rank() <= self.keys@[i].rank(),
            decreases high - low,
        {
            let middle: usize = low + (high - low) / 2;
            if self.keys[middle].precedes(k) {
                assert forall|i: int| 0 <= i < middle + 1 implies self.keys@[i].rank()
                    < k.rank() by {
                    if i < middle {
                        assert(self.keys@[i].rank() < self.keys@[middle as int].rank());
                    }
                }
                low = middle + 1;
            } else {
                assert forall|i: int| middle <= i < self.keys@.len() implies k.rank()
                    <= self.keys@[i].rank() by {
                    if middle < i {
                        assert(self.keys@[middle as int].rank() < self.keys@[i].rank());
                    }
                }
                high = middle;
            }
        }
        low
    }

    /// The place of a key, if it is there.
    fn find(&self, k: &K) -> (at: Option<usize>)
        requires
            self.wf(),
        ensures
            match at {
                Some(i) => i < self.keys@.len() && self.keys@[i as int] == *k
                    && self.map().contains_key(*k) && self.map()[*k] == self.values@[i as int]@,
                None => !self.map().contains_key(*k),
            },
    {
        let at: usize = self.position(k);
        if at < self.keys.len() && !k.precedes(&self.keys[at]) {
            proof {
                K::rank_is_injective(*k, self.keys@[at as int]);
                self.lemma_at(at as int);
            }
            Some(at)
        } else {
            assert(!self.keys@.contains(*k));
            None
        }
    }

    /// Whether a key is there.
    pub fn contains(&self, k: &K) -> (r: bool)
        requires
            self.wf(),
        ensures
            r == self.map().contains_key(*k),
    {
        self.find(k).is_some()
    }

    /// The value of a key, if it is there.
    pub fn get(&self, k: &K) -> (v: Option<&V>)
        requires
            self.wf(),
        ensures
            match v {
                Some(value) => self.map().contains_key(*k) && value@ == self.map()[*k],
                None => !self.map().contains_key(*k),
            },
    {
        match self.find(k) {
            Some(i) => Some(&self.values[i]),
            None => None,
        }
    }

    /// Give a key a value, in place of the one it had, if it had one.
    pub fn insert(&mut self, k: K, v: V)
        requires
            old(self).wf(),
        ensures
            final(self).wf(),
            final(self).map() == old(self).map().insert(k, v@),
    {
        let at: usize = self.position(&k);
        let ghost before = *self;
        if at < self.keys.len() && !k.precedes(&self.keys[at]) {
            proof {
                K::rank_is_injective(k, self.keys@[at as int]);
            }
            self.values.set(at, v);
            proof {
                assert forall|x: K| #[trigger]
                    before.map().insert(k, v@).contains_key(x) implies self.map()[x]
                    == before.map().insert(k, v@)[x] by {
                    let j = self.keys@.index_of(x);
                    if x == k {
                        self.lemma_at(at as int);
                    } else {
                        assert(before.keys@.contains(x));
                        assert(self.keys@[j] == x);
                        assert(j != at);
                    }
                }
                self.lemma_at(at as int);
                assert(self.map() =~= before.map().insert(k, v@));
            }
        } else {
            self.keys.insert(at, k);
            self.values.insert(at, v);
            proof {
                assert forall|i: int, j: int|
                    #![trigger self.keys@[i], self.keys@[j]]
                    0 <= i < j < self.keys@.len() implies self.keys@[i].rank()
                    < self.keys@[j].rank() by {
                    let i0 = if i < at {
                        i
                    } else {
                        i - 1
                    };
                    let j0 = if j < at {
                        j
                    } else {
                        j - 1
                    };
                    if i != at {
                        assert(self.keys@[i] == before.keys@[i0]);
                    }
                    if j != at {
                        assert(self.keys@[j] == before.keys@[j0]);
                    }
                }
                assert(self.wf());
                assert forall|x: K| self.map().contains_key(x) == before.map().insert(
                    k,
                    v@,
                ).contains_key(x) by {
                    if before.keys@.contains(x) {
                        let i = before.keys@.index_of(x);
                        assert(self.keys@[if i < at {
                            i
                        } else {
                            i + 1
                        }] == x);
                    }
                    if self.keys@.contains(x) && x != k {
                        let i = self.keys@.index_of(x);
                        assert(before.keys@[if i < at {
                            i
                        } else {
                            i - 1
                        }] == x);
                    }
                    assert(self.keys@[at as int] == k);
                }
                assert forall|x: K| #[trigger] self.map().contains_key(x) implies self.map()[x]
                    == before.map().insert(k, v@)[x] by {
                    let i = self.keys@.index_of(x);
                    self.lemma_at(i);
                    if x != k {
                        let i0 = if i < at {
                            i
                        } else {
                            i - 1
                        };
                        assert(i != at);
                        assert(before.keys@[i0] == x);
                        before.lemma_at(i0);
                    } else {
                        self.lemma_at(at as int);
                    }
                }
                assert(self.map() =~= before.map().insert(k, v@));
            }
        }
    }

    /// Take a key out, with its value, if it was there.
    pub fn remove(&mut self, k: &K) -> (v: Option<V>)
        requires
            old(self).wf(),
        ensures
            final(self).wf(),
            final(self).map() == old(self).map().remove(*k),
            match v {
                Some(value) => old(self).map().contains_key(*k) && value@ == old(self).map()[*k],
                None => !old(self).map().contains_key(*k),
            },
    {
        let ghost before = *self;
        match self.find(k) {
            None => {
                assert(self.map() =~= before.map().remove(*k));
                None
            },
            Some(at) => {
                self.keys.remove(at);
                let v = self.values.remove(at);
                proof {
                    assert forall|i: int, j: int|
                        #![trigger self.keys@[i], self.keys@[j]]
                        0 <= i < j < self.keys@.len() implies self.keys@[i].rank()
                        < self.keys@[j].rank() by {
                        assert(self.keys@[i] == before.keys@[if i < at {
                            i
                        } else {
                            i + 1
                        }]);
                        assert(self.keys@[j] == before.keys@[if j < at {
                            j
                        } else {
                            j + 1
                        }]);
                    }
                    assert(self.wf());
                    assert forall|x: K| self.map().contains_key(x) == before.map().remove(
                        *k,
                    ).contains_key(x) by {
                        if before.keys@.contains(x) && x != *k {
                            let i = before.keys@.index_of(x);
                            assert(self.keys@[if i < at {
                                i
                            } else {
                                i - 1
                            }] == x);
                        }
                        if self.keys@.contains(x) {
                            let i = self.keys@.index_of(x);
                            let i0 = if i < at {
                                i
                            } else {
                                i + 1
                            };
                            assert(before.keys@[i0] == x);
                            assert(i0 != at);
                            if i0 < at {
                                assert(before.keys@[i0].rank() < before.keys@[at as int].rank());
                            } else {
                                assert(before.keys@[at as int].rank() < before.keys@[i0].rank());
                            }
                        }
                    }
                    assert forall|x: K| #[trigger] self.map().contains_key(x) implies self.map()[x]
                        == before.map().remove(*k)[x] by {
                        let i = self.keys@.index_of(x);
                        self.lemma_at(i);
                        let i0 = if i < at {
                            i
                        } else {
                            i + 1
                        };
                        assert(before.keys@[i0] == x);
                        before.lemma_at(i0);
                    }
                    assert(self.map() =~= before.map().remove(*k));
                }
                Some(v)
            },
        }
    }
}

/// The ascending sequence of the keys of a map is unique.
pub proof fn keys_are_unique<K: Key, V>(a: Seq<K>, b: Seq<K>, map: Map<K, V>)
    requires
        keys_of(a, map),
        keys_of(b, map),
    ensures
        a == b,
    decreases a.len(),
{
    lemma_same_prefix(a, b, map, a.len() as int);
    if a.len() < b.len() {
        let k = b[a.len() as int];
        assert(b.contains(k));
        assert(map.contains_key(k));
        assert(a.contains(k));
        let i = a.index_of(k);
        assert(b[i].rank() < k.rank());
    }
    assert(a =~= b);
}

/// The keys of a map, in ascending order.
pub open spec fn sorted_keys<K: Key, V>(map: Map<K, V>) -> Seq<K> {
    choose|keys: Seq<K>| keys_of(keys, map)
}

/// The keys of a finite map can be put in order.
pub proof fn sorted_keys_exist<K: Key, V>(map: Map<K, V>)
    requires
        map.dom().finite(),
    ensures
        keys_of(sorted_keys(map), map),
{
    let keys = lemma_order(map);
    assert(keys_of(keys, map));
}

proof fn lemma_order<K: Key, V>(map: Map<K, V>) -> (keys: Seq<K>)
    requires
        map.dom().finite(),
    ensures
        keys_of(keys, map),
    decreases map.dom().len(),
{
    if map.dom().len() == 0 {
        let keys = Seq::<K>::empty();
        assert forall|k: K| #[trigger] map.contains_key(k) <==> keys.contains(k) by {
            assert(map.dom() =~= Set::empty());
            assert(!map.dom().contains(k));
        }
        keys
    } else {
        let last = lemma_last_key(map.dom());
        let rest = map.remove(last);
        let before = lemma_order(rest);
        let keys = before.push(last);
        assert forall|i: int, j: int|
            #![trigger keys[i], keys[j]]
            0 <= i < j < keys.len() implies keys[i].rank() < keys[j].rank() by {
            if j < before.len() {
                assert(keys[i] == before[i] && keys[j] == before[j]);
            } else {
                assert(before.contains(before[i]));
                assert(rest.contains_key(before[i]));
                assert(map.dom().contains(before[i]));
                if before[i].rank() == last.rank() {
                    K::rank_is_injective(before[i], last);
                }
            }
        }
        assert forall|k: K| #[trigger] map.contains_key(k) <==> keys.contains(k) by {
            if map.contains_key(k) && k != last {
                assert(rest.contains_key(k));
                let i = before.index_of(k);
                assert(keys[i] == k);
            }
            if k == last {
                assert(keys[before.len() as int] == k);
            }
            if keys.contains(k) && k != last {
                let i = keys.index_of(k);
                assert(before[i] == k);
                assert(before.contains(k));
                assert(rest.contains_key(k));
            }
        }
        keys
    }
}

proof fn lemma_last_key<K: Key>(s: Set<K>) -> (last: K)
    requires
        s.finite(),
        s.len() > 0,
    ensures
        s.contains(last),
        forall|k: K| #[trigger] s.contains(k) ==> k.rank() <= last.rank(),
    decreases s.len(),
{
    let a = s.choose();
    let rest = s.remove(a);
    if rest.len() == 0 {
        assert forall|k: K| #[trigger] s.contains(k) implies k.rank() <= a.rank() by {
            if k != a {
                assert(rest.contains(k));
                assert(rest =~= Set::empty());
            }
        }
        a
    } else {
        let b = lemma_last_key(rest);
        assert forall|k: K| #[trigger] s.contains(k) && k != a implies k.rank() <= b.rank() by {
            assert(rest.contains(k));
        }
        if a.rank() <= b.rank() {
            b
        } else {
            a
        }
    }
}

/// A table's keys are its map's keys in order.
pub proof fn table_keys_are_sorted<K: Key, V: View>(table: Table<K, V>)
    requires
        table.wf(),
    ensures
        sorted_keys(table.map()) == table.keys(),
        keys_of(table.keys(), table.map()),
{
    table.keys_are_the_domain();
    keys_are_unique(table.keys(), sorted_keys(table.map()), table.map());
}

proof fn lemma_same_prefix<K: Key, V>(a: Seq<K>, b: Seq<K>, map: Map<K, V>, n: int)
    requires
        keys_of(a, map),
        keys_of(b, map),
        0 <= n <= a.len(),
    ensures
        n <= b.len(),
        forall|i: int| 0 <= i < n ==> a[i] == b[i],
    decreases n,
{
    if n > 0 {
        lemma_same_prefix(a, b, map, n - 1);
        let k = a[n - 1];
        assert(a.contains(k));
        assert(map.contains_key(k));
        assert(b.contains(k));
        let j = b.index_of(k);
        if j < n - 1 {
            assert(a[j] == b[j]);
            assert(a[j].rank() < a[n - 1].rank());
        }
        let m = b[n - 1];
        assert(b.contains(m));
        assert(map.contains_key(m));
        assert(a.contains(m));
        let i = a.index_of(m);
        if i < n - 1 {
            assert(b[i] == a[i]);
            assert(b[i].rank() < b[n - 1].rank());
        }
        if j > n - 1 {
            assert(b[n - 1].rank() < b[j].rank());
            if i > n - 1 {
                assert(a[n - 1].rank() < a[i].rank());
            }
        }
        K::rank_is_injective(a[n - 1], b[n - 1]);
    }
}

} // verus!
