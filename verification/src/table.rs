use vstd::prelude::*;

use crate::text::str_eq;

verus! {

/// The map that a list of key/value pairs describes when it is read in order
/// and a later pair for a key replaces an earlier one (as collecting the pairs
/// into a map does).
pub open spec fn assoc_map<K, V>(s: Seq<(K, V)>) -> Map<K, V>
    decreases s.len(),
{
    if s.len() == 0 {
        Map::empty()
    } else {
        assoc_map(s.drop_last()).insert(s.last().0, s.last().1)
    }
}

/// Whether no key occurs twice among the pairs.
pub open spec fn keys_unique<K, V>(s: Seq<(K, V)>) -> bool {
    forall|i: int, j: int| 0 <= i < j < s.len() ==> (#[trigger] s[i]).0 != (#[trigger] s[j]).0
}

/// Whether `k` is the key of one of the pairs.
pub open spec fn has_key<K, V>(s: Seq<(K, V)>, k: K) -> bool {
    exists|i: int| 0 <= i < s.len() && (#[trigger] s[i]).0 == k
}

pub proof fn lemma_assoc_map_dom<K, V>(s: Seq<(K, V)>, k: K)
    ensures
        assoc_map(s).contains_key(k) <==> has_key(s, k),
    decreases s.len(),
{
    if s.len() > 0 {
        lemma_assoc_map_dom(s.drop_last(), k);
        if has_key(s.drop_last(), k) {
            let i = choose|i: int| 0 <= i < s.drop_last().len() && (#[trigger] s.drop_last()[i]).0 == k;
            assert(s[i].0 == k);
        }
        if has_key(s, k) && s.last().0 != k {
            let i = choose|i: int| 0 <= i < s.len() && (#[trigger] s[i]).0 == k;
            assert(s.drop_last()[i].0 == k);
        }
        if s.last().0 == k {
            assert(s[s.len() - 1].0 == k);
        }
    }
}

/// The value the map gives a key is that of the last pair with that key.
pub proof fn lemma_assoc_map_last<K, V>(s: Seq<(K, V)>, j: int)
    requires
        0 <= j < s.len(),
        forall|m: int| j < m < s.len() ==> (#[trigger] s[m]).0 != s[j].0,
    ensures
        assoc_map(s).contains_key(s[j].0),
        assoc_map(s)[s[j].0] == s[j].1,
    decreases s.len(),
{
    if j < s.len() - 1 {
        assert forall|m: int| j < m < s.drop_last().len() implies (
        #[trigger] s.drop_last()[m]).0 != s.drop_last()[j].0 by {
            assert(s[m].0 != s[j].0);
        }
        lemma_assoc_map_last(s.drop_last(), j);
        assert(s[s.len() - 1].0 != s[j].0);
    }
}

pub proof fn lemma_assoc_map_unique<K, V>(s: Seq<(K, V)>, j: int)
    requires
        keys_unique(s),
        0 <= j < s.len(),
    ensures
        assoc_map(s).contains_key(s[j].0),
        assoc_map(s)[s[j].0] == s[j].1,
{
    assert forall|m: int| j < m < s.len() implies (#[trigger] s[m]).0 != s[j].0 by {
        assert(s[j].0 != s[m].0);
    }
    lemma_assoc_map_last(s, j);
}

/// Replacing the value of a pair in a list with unique keys replaces that
/// key's value in the map.
pub proof fn lemma_assoc_map_update<K, V>(s: Seq<(K, V)>, j: int, v: V)
    requires
        keys_unique(s),
        0 <= j < s.len(),
    ensures
        keys_unique(s.update(j, (s[j].0, v))),
        assoc_map(s.update(j, (s[j].0, v))) =~= assoc_map(s).insert(s[j].0, v),
{
    let t = s.update(j, (s[j].0, v));
    assert forall|i: int, m: int| 0 <= i < m < t.len() implies (#[trigger] t[i]).0 != (
    #[trigger] t[m]).0 by {
        assert(s[i].0 != s[m].0);
    }
    let a = assoc_map(t);
    let b = assoc_map(s).insert(s[j].0, v);
    assert forall|k: K| a.contains_key(k) <==> b.contains_key(k) by {
        lemma_assoc_map_dom(t, k);
        lemma_assoc_map_dom(s, k);
        if has_key(t, k) {
            let i = choose|i: int| 0 <= i < t.len() && (#[trigger] t[i]).0 == k;
            assert(s[i].0 == k);
        }
        if has_key(s, k) {
            let i = choose|i: int| 0 <= i < s.len() && (#[trigger] s[i]).0 == k;
            assert(t[i].0 == k);
        }
    }
    assert forall|k: K| #[trigger] a.contains_key(k) implies a[k] == b[k] by {
        lemma_assoc_map_dom(t, k);
        let i = choose|i: int| 0 <= i < t.len() && (#[trigger] t[i]).0 == k;
        lemma_assoc_map_unique(t, i);
        if i == j {
        } else {
            lemma_assoc_map_unique(s, i);
        }
    }
}

/// Where the pair with key `k` stands (meaningful when there is one).
pub open spec fn key_position<K, V>(s: Seq<(K, V)>, k: K) -> int {
    choose|i: int| 0 <= i < s.len() && (#[trigger] s[i]).0 == k
}

/// The pairs once `k` is given the value `v`: a pair with key `k` keeps its
/// place and takes `v`; otherwise the pair goes last.
pub open spec fn pairs_insert<K, V>(s: Seq<(K, V)>, k: K, v: V) -> Seq<(K, V)> {
    if has_key(s, k) {
        s.update(key_position(s, k), (k, v))
    } else {
        s.push((k, v))
    }
}

/// Keys a table can be indexed by: equality of two keys can be decided.
pub trait TableKey: DeepView + Sized {
    fn same_key(&self, other: &Self) -> (r: bool)
        ensures
            r == (self.deep_view() == other.deep_view()),
    ;

    fn copy_key(&self) -> (r: Self)
        ensures
            r.deep_view() == self.deep_view(),
    ;
}

impl TableKey for String {
    fn same_key(&self, other: &Self) -> (r: bool) {
        str_eq(self.as_str(), other.as_str())
    }

    fn copy_key(&self) -> (r: Self) {
        self.clone()
    }
}

impl TableKey for u32 {
    fn same_key(&self, other: &Self) -> (r: bool) {
        *self == *other
    }

    fn copy_key(&self) -> (r: Self) {
        *self
    }
}

/// A map kept as a list of key/value pairs in the order the keys were first
/// inserted, with no key twice.
#[derive(Debug)]
pub struct Table<K: TableKey, V: DeepView> {
    entries: Vec<(K, V)>,
}

impl<K: TableKey, V: DeepView> Table<K, V> {
    /// The pairs of the table, in order, by their views.
    pub closed spec fn pairs(self) -> Seq<(K::V, V::V)> {
        self.entries@.map_values(|e: (K, V)| (e.0.deep_view(), e.1.deep_view()))
    }

    /// The map the table holds.
    pub open spec fn map(self) -> Map<K::V, V::V> {
        assoc_map(self.pairs())
    }

    /// No key occurs twice.
    #[verifier::type_invariant]
    pub open spec fn well_keyed(self) -> bool {
        keys_unique(self.pairs())
    }

    /// An empty table.
    pub fn new() -> (t: Self)
        ensures
            t.pairs() == Seq::<(K::V, V::V)>::empty(),
    {
        let t = Table { entries: Vec::new() };
        assert(t.pairs() =~= Seq::<(K::V, V::V)>::empty());
        t
    }

    pub fn len(&self) -> (n: usize)
        ensures
            n == self.pairs().len(),
    {
        self.entries.len()
    }

    /// The pairs of the table, in order.
    pub fn entries(&self) -> (r: &Vec<(K, V)>)
        ensures
            r@.len() == self.pairs().len(),
            forall|i: int|
                0 <= i < r@.len() ==> ((#[trigger] r@[i]).0.deep_view(), r@[i].1.deep_view())
                    == self.pairs()[i],
    {
        &self.entries
    }

    /// Where `key` stands among the pairs, if it does.
    pub fn position(&self, key: &K) -> (r: Option<usize>)
        ensures
            r is None <==> !has_key(self.pairs(), key.deep_view()),
            r matches Some(i) ==> i < self.pairs().len() && self.pairs()[i as int].0
                == key.deep_view(),
    {
        let mut i: usize = 0;
        while i < self.entries.len()
            invariant
                i <= self.entries.len(),
                forall|j: int| 0 <= j < i ==> (#[trigger] self.pairs()[j]).0 != key.deep_view(),
            decreases self.entries.len() - i,
        {
            if self.entries[i].0.same_key(key) {
                assert(self.pairs()[i as int].0 == key.deep_view());
                return Some(i);
            }
            i = i + 1;
        }
        None
    }

    /// The value the table holds for `key`, if any.
    pub fn get(&self, key: &K) -> (r: Option<&V>)
        ensures
            r is Some <==> self.map().contains_key(key.deep_view()),
            r matches Some(v) ==> v.deep_view() == self.map()[key.deep_view()],
    {
        proof {
            use_type_invariant(self);
            lemma_assoc_map_dom(self.pairs(), key.deep_view());
        }
        match self.position(key) {
            Some(i) => {
                proof {
                    lemma_assoc_map_unique(self.pairs(), i as int);
                }
                Some(&self.entries[i].1)
            },
            None => None,
        }
    }

    /// Sets the value of `key`: an existing pair keeps its place and takes
    /// the new value, a new key goes last.
    pub fn insert(&mut self, key: K, value: V)
        ensures
            final(self).map() == old(self).map().insert(key.deep_view(), value.deep_view()),
            final(self).pairs() == pairs_insert(
                old(self).pairs(),
                key.deep_view(),
                value.deep_view(),
            ),
    {
        proof {
            use_type_invariant(&*self);
        }
        let ghost old_pairs = self.pairs();
        match self.position(&key) {
            Some(i) => {
                proof {
                    let c = key_position(old_pairs, key.deep_view());
                    assert(0 <= c < old_pairs.len() && old_pairs[c].0 == key.deep_view());
                    if c != i {
                        if c < i {
                            assert(old_pairs[c].0 != old_pairs[i as int].0);
                        } else {
                            assert(old_pairs[i as int].0 != old_pairs[c].0);
                        }
                    }
                }
                let mut entries = Vec::new();
                std::mem::swap(&mut entries, &mut self.entries);
                entries.set(i, (key, value));
                proof {
                    lemma_assoc_map_update(old_pairs, i as int, value.deep_view());
                    assert(entries@.map_values(|e: (K, V)| (e.0.deep_view(), e.1.deep_view()))
                        =~= old_pairs.update(i as int, (old_pairs[i as int].0, value.deep_view())));
                }
                self.entries = entries;
            },
            None => {
                let ghost kv = key.deep_view();
                let ghost vv = value.deep_view();
                let mut entries = Vec::new();
                std::mem::swap(&mut entries, &mut self.entries);
                entries.push((key, value));
                proof {
                    let np = entries@.map_values(|e: (K, V)| (e.0.deep_view(), e.1.deep_view()));
                    assert(np =~= old_pairs.push((kv, vv)));
                    assert(np.drop_last() =~= old_pairs);
                    assert forall|a: int, b: int| 0 <= a < b < np.len() implies (
                    #[trigger] np[a]).0 != (#[trigger] np[b]).0 by {
                        if b == np.len() - 1 {
                            assert(old_pairs[a].0 != kv);
                        }
                    }
                }
                self.entries = entries;
            },
        }
    }
}

} // verus!
