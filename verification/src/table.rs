//! A small keyed table over a `Vec` of entries, viewed as a `Map` from key
//! views to value views. Entries keep their insertion order, which is the
//! order in which a scan visits them.
use vstd::prelude::*;
use crate::seqs::{first_index, lemma_first_index, lemma_first_index_is, lemma_first_index_push, lemma_first_index_update};

verus! {

/// Values that can be copied with their view kept.
pub trait Duplicate: DeepView + Sized {
    fn duplicate(&self) -> (r: Self)
        ensures
            r.deep_view() == self.deep_view(),
    ;
}

impl Duplicate for String {
    fn duplicate(&self) -> (r: Self) {
        self.clone()
    }
}

impl Duplicate for (String, String) {
    fn duplicate(&self) -> (r: Self) {
        (self.0.clone(), self.1.clone())
    }
}

impl Duplicate for () {
    fn duplicate(&self) -> (r: Self) {
        ()
    }
}

/// Keys that can be compared for equality of their views.
pub trait TableKey: DeepView + Sized {
    fn key_eq(&self, other: &Self) -> (b: bool)
        ensures
            b == (self.deep_view() == other.deep_view()),
    ;
}

impl TableKey for String {
    fn key_eq(&self, other: &Self) -> (b: bool) {
        *self == *other
    }
}

impl TableKey for (String, String) {
    fn key_eq(&self, other: &Self) -> (b: bool) {
        self.0 == other.0 && self.1 == other.1
    }
}

/// The entry whose key view is `k`.
pub open spec fn has_key<K: DeepView, V>(k: K::V) -> spec_fn((K, V)) -> bool {
    |e: (K, V)| e.0.deep_view() == k
}

pub struct Table<K, V> {
    entries: Vec<(K, V)>,
}

impl<K: TableKey, V: DeepView> Table<K, V> {
    /// Number of entries.
    pub closed spec fn size(&self) -> nat {
        self.entries@.len()
    }

    /// The key view of entry `i`.
    pub closed spec fn key_at(&self, i: int) -> K::V {
        self.entries@[i].0.deep_view()
    }

    /// The value view of entry `i`.
    pub closed spec fn value_at(&self, i: int) -> V::V {
        self.entries@[i].1.deep_view()
    }

    /// No key occurs twice.
    pub closed spec fn wf(&self) -> bool {
        forall|i: int, j: int|
            0 <= i < self.entries@.len() && 0 <= j < self.entries@.len() && i != j
                ==> self.entries@[i].0.deep_view() != self.entries@[j].0.deep_view()
    }

    closed spec fn slot(&self, k: K::V) -> int {
        first_index(self.entries@, has_key::<K, V>(k))
    }

    /// The table as a map from key views to value views.
    pub closed spec fn map(&self) -> Map<K::V, V::V> {
        Map::new(
            |k: K::V| self.slot(k) < self.entries@.len(),
            |k: K::V| self.entries@[self.slot(k)].1.deep_view(),
        )
    }

    /// Entry `i` is the map's binding for its key, and every key of the map
    /// is held by some entry.
    pub proof fn lemma_entries(&self)
        requires
            self.wf(),
        ensures
            forall|i: int|
                0 <= i < self.size() ==> #[trigger] self.map().contains_key(self.key_at(i))
                    && self.map()[self.key_at(i)] == self.value_at(i),
            forall|k: K::V| #[trigger]
                self.map().contains_key(k) ==> exists|i: int|
                    0 <= i < self.size() && #[trigger] self.key_at(i) == k,
    {
        assert forall|i: int| 0 <= i < self.size() implies #[trigger] self.map().contains_key(
            self.key_at(i),
        ) && self.map()[self.key_at(i)] == self.value_at(i) by {
            let k = self.key_at(i);
            assert forall|j: int| 0 <= j < i implies !has_key::<K, V>(k)(
                #[trigger] self.entries@[j],
            ) by {}
            lemma_first_index_is(self.entries@, has_key::<K, V>(k), i);
        }
        assert forall|k: K::V| #[trigger] self.map().contains_key(k) implies exists|i: int|
            0 <= i < self.size() && #[trigger] self.key_at(i) == k by {
            lemma_first_index(self.entries@, has_key::<K, V>(k));
            assert(self.key_at(self.slot(k)) == k);
        }
    }

    pub fn new() -> (t: Self)
        ensures
            t.wf(),
            t.map() == Map::<K::V, V::V>::empty(),
            t.size() == 0,
    {
        let t = Table { entries: Vec::new() };
        assert(t.map() =~= Map::<K::V, V::V>::empty());
        t
    }

    pub fn len(&self) -> (n: usize)
        ensures
            n == self.size(),
    {
        self.entries.len()
    }

    pub fn key(&self, i: usize) -> (k: &K)
        requires
            i < self.size(),
        ensures
            k.deep_view() == self.key_at(i as int),
    {
        &self.entries[i].0
    }

    pub fn value(&self, i: usize) -> (v: &V)
        requires
            i < self.size(),
        ensures
            v.deep_view() == self.value_at(i as int),
    {
        &self.entries[i].1
    }

    /// The position of the entry for `k`.
    pub fn find(&self, k: &K) -> (r: Option<usize>)
        ensures
            r is Some <==> self.map().contains_key(k.deep_view()),
            r matches Some(i) ==> i < self.size() && self.key_at(i as int) == k.deep_view()
                && self.map()[k.deep_view()] == self.value_at(i as int),
    {
        let n = self.entries.len();
        let mut i: usize = 0;
        proof {
            lemma_first_index(self.entries@, has_key::<K, V>(k.deep_view()));
        }
        while i < n
            invariant
                n == self.entries@.len(),
                i <= n,
                forall|j: int|
                    0 <= j < i ==> !has_key::<K, V>(k.deep_view())(#[trigger] self.entries@[j]),
            decreases n - i,
        {
            if self.entries[i].0.key_eq(k) {
                proof {
                    lemma_first_index_is(self.entries@, has_key::<K, V>(k.deep_view()), i as int);
                }
                return Some(i);
            }
            i = i + 1;
        }
        proof {
            lemma_first_index_is(self.entries@, has_key::<K, V>(k.deep_view()), n as int);
        }
        None
    }

    pub fn contains_key(&self, k: &K) -> (b: bool)
        ensures
            b == self.map().contains_key(k.deep_view()),
    {
        self.find(k).is_some()
    }

    pub fn get(&self, k: &K) -> (r: Option<&V>)
        ensures
            r is Some <==> self.map().contains_key(k.deep_view()),
            r matches Some(v) ==> v.deep_view() == self.map()[k.deep_view()],
    {
        match self.find(k) {
            Some(i) => Some(&self.entries[i].1),
            None => None,
        }
    }

    /// Binds `k` to `v`, replacing an existing binding in place or appending
    /// a new entry.
    pub fn insert(&mut self, k: K, v: V)
        requires
            old(self).wf(),
        ensures
            final(self).wf(),
            final(self).map() == old(self).map().insert(k.deep_view(), v.deep_view()),
            old(self).map().contains_key(k.deep_view()) ==> final(self).size() == old(self).size(),
            !old(self).map().contains_key(k.deep_view()) ==> final(self).size() == old(
                self,
            ).size() + 1,
            forall|i: int|
                0 <= i < old(self).size() ==> #[trigger] final(self).key_at(i) == old(
                    self,
                ).key_at(i),
            !old(self).map().contains_key(k.deep_view()) ==> final(self).key_at(
                old(self).size() as int,
            ) == k.deep_view(),
    {
        let ghost kv = k.deep_view();
        let ghost vv = v.deep_view();
        let ghost old_entries = self.entries@;
        let ghost old_map = self.map();
        match self.find(&k) {
            Some(i) => {
                self.entries.set(i, (k, v));
                proof {
                    let es = self.entries@;
                    assert(es == old_entries.update(i as int, es[i as int]));
                    assert forall|kk: K::V| true implies first_index(es, has_key::<K, V>(kk))
                        == first_index(old_entries, has_key::<K, V>(kk)) by {
                        lemma_first_index_update(
                            old_entries,
                            has_key::<K, V>(kk),
                            i as int,
                            es[i as int],
                        );
                    }
                    lemma_first_index(old_entries, has_key::<K, V>(kv));
                    assert forall|kk: K::V| #[trigger] self.map().contains_key(kk) == old_map.insert(
                        kv,
                        vv,
                    ).contains_key(kk) && (self.map().contains_key(kk) ==> self.map()[kk]
                        == old_map.insert(kv, vv)[kk]) by {
                        lemma_first_index(old_entries, has_key::<K, V>(kk));
                        let f = first_index(old_entries, has_key::<K, V>(kk));
                        if kk != kv && f < old_entries.len() {
                            assert(f != i);
                        }
                    }
                    assert(self.map() =~= old_map.insert(kv, vv));
                }
            },
            None => {
                self.entries.push((k, v));
                proof {
                    let es = self.entries@;
                    assert(es == old_entries.push(es[old_entries.len() as int]));
                    assert forall|kk: K::V| true implies (first_index(old_entries, has_key::<K, V>(kk))
                        < old_entries.len() ==> first_index(es, has_key::<K, V>(kk)) == first_index(
                        old_entries,
                        has_key::<K, V>(kk),
                    )) && (first_index(old_entries, has_key::<K, V>(kk)) == old_entries.len()
                        ==> first_index(es, has_key::<K, V>(kk)) == old_entries.len() + (if kk
                        == kv {
                        0int
                    } else {
                        1int
                    })) by {
                        lemma_first_index(old_entries, has_key::<K, V>(kk));
                        lemma_first_index_push(
                            old_entries,
                            has_key::<K, V>(kk),
                            es[old_entries.len() as int],
                        );
                    }
                    assert forall|kk: K::V| #[trigger] self.map().contains_key(kk) == old_map.insert(
                        kv,
                        vv,
                    ).contains_key(kk) && (self.map().contains_key(kk) ==> self.map()[kk]
                        == old_map.insert(kv, vv)[kk]) by {
                        lemma_first_index(old_entries, has_key::<K, V>(kk));
                        lemma_first_index_push(
                            old_entries,
                            has_key::<K, V>(kk),
                            es[old_entries.len() as int],
                        );
                    }
                    assert(self.map() =~= old_map.insert(kv, vv));
                    assert forall|a: int, b: int|
                        0 <= a < es.len() && 0 <= b < es.len() && a != b implies es[a].0.deep_view()
                        != es[b].0.deep_view() by {
                        if a == old_entries.len() {
                            lemma_first_index(old_entries, has_key::<K, V>(kv));
                            assert(!has_key::<K, V>(kv)(old_entries[b]));
                        } else if b == old_entries.len() {
                            lemma_first_index(old_entries, has_key::<K, V>(kv));
                            assert(!has_key::<K, V>(kv)(old_entries[a]));
                        }
                    }
                }
            },
        }
    }
}

impl<K: TableKey + Duplicate, V: DeepView + Duplicate> Table<K, V> {
    /// Copies of the entries, in order.
    pub fn to_vec(&self) -> (v: Vec<(K, V)>)
        ensures
            v.len() == self.size(),
            forall|i: int|
                0 <= i < v.len() ==> #[trigger] v@[i].0.deep_view() == self.key_at(i) && v@[i].1.deep_view()
                    == self.value_at(i),
    {
        let mut v: Vec<(K, V)> = Vec::new();
        let n = self.entries.len();
        let mut i: usize = 0;
        while i < n
            invariant
                n == self.entries@.len(),
                i <= n,
                v.len() == i,
                forall|k: int|
                    0 <= k < i ==> #[trigger] v@[k].0.deep_view() == self.key_at(k) && v@[k].1.deep_view()
                        == self.value_at(k),
            decreases n - i,
        {
            let e = &self.entries[i];
            v.push((e.0.duplicate(), e.1.duplicate()));
            i = i + 1;
        }
        v
    }
}

} // verus!
