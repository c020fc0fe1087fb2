//! A small association list: a `Vec` of key/value entries with distinct keys,
//! viewed as a finite map. It backs every keyed table of the crate (backoff
//! deadlines, image states, pending downloads, bounded caches, keywords).

use vstd::prelude::*;

verus! {

/// Keys that can be compared and copied with a known meaning.
pub trait AssocKey: Sized {
    type KV;

    spec fn key_model(&self) -> Self::KV;

    fn same_key(&self, other: &Self) -> (r: bool)
        ensures
            r == (self.key_model() == other.key_model()),
    ;

    fn copy_key(&self) -> (r: Self)
        ensures
            r.key_model() == self.key_model(),
    ;
}

impl AssocKey for String {
    type KV = Seq<char>;

    open spec fn key_model(&self) -> Seq<char> {
        self@
    }

    fn same_key(&self, other: &Self) -> (r: bool) {
        *self == *other
    }

    fn copy_key(&self) -> (r: Self) {
        self.clone()
    }
}

impl AssocKey for (u32, u32) {
    type KV = (u32, u32);

    open spec fn key_model(&self) -> (u32, u32) {
        *self
    }

    fn same_key(&self, other: &Self) -> (r: bool) {
        self.0 == other.0 && self.1 == other.1
    }

    fn copy_key(&self) -> (r: Self) {
        (self.0, self.1)
    }
}

impl AssocKey for u32 {
    type KV = u32;

    open spec fn key_model(&self) -> u32 {
        *self
    }

    fn same_key(&self, other: &Self) -> (r: bool) {
        *self == *other
    }

    fn copy_key(&self) -> (r: Self) {
        *self
    }
}

/// Some entry of `e` has key `k`.
pub open spec fn has_key<K: AssocKey, V>(e: Seq<(K, V)>, k: K::KV) -> bool {
    exists|i: int| 0 <= i < e.len() && #[trigger] e[i].0.key_model() == k
}

/// The position of the entry of `e` with key `k`.
pub open spec fn key_index<K: AssocKey, V>(e: Seq<(K, V)>, k: K::KV) -> int {
    choose|i: int| 0 <= i < e.len() && #[trigger] e[i].0.key_model() == k
}

/// No two entries of `e` share a key.
pub open spec fn distinct_keys<K: AssocKey, V>(e: Seq<(K, V)>) -> bool {
    forall|i: int, j: int|
        0 <= i < e.len() && 0 <= j < e.len() && i != j ==> #[trigger] e[i].0.key_model()
            != #[trigger] e[j].0.key_model()
}

/// The finite map that the entries `e` stand for.
pub open spec fn entries_map<K: AssocKey, V>(e: Seq<(K, V)>) -> Map<K::KV, V> {
    Map::new(|k: K::KV| has_key(e, k), |k: K::KV| e[key_index(e, k)].1)
}

/// A finite map stored as a list of entries with distinct keys, in the order
/// in which the keys were first inserted.
pub struct AssocMap<K, V> {
    entries: Vec<(K, V)>,
}

impl<K: AssocKey, V> View for AssocMap<K, V> {
    type V = Map<K::KV, V>;

    closed spec fn view(&self) -> Map<K::KV, V> {
        entries_map(self.entries@)
    }
}

proof fn lemma_index_unique<K: AssocKey, V>(e: Seq<(K, V)>, i: int)
    requires
        distinct_keys(e),
        0 <= i < e.len(),
    ensures
        has_key(e, e[i].0.key_model()),
        key_index(e, e[i].0.key_model()) == i,
{
    let k = e[i].0.key_model();
    assert(has_key(e, k));
    let j = key_index(e, k);
    if j != i {
        assert(e[i].0.key_model() != e[j].0.key_model());
    }
}

impl<K: AssocKey, V> AssocMap<K, V> {
    /// The map is well formed: its keys are distinct.
    pub closed spec fn wf(&self) -> bool {
        distinct_keys(self.entries@)
    }

    /// The keys in insertion order.
    pub closed spec fn key_order(&self) -> Seq<K::KV> {
        self.entries@.map_values(|e: (K, V)| e.0.key_model())
    }

    pub proof fn lemma_key_order(&self)
        requires
            self.wf(),
        ensures
            self.key_order().len() == self@.dom().len(),
            self.key_order().no_duplicates(),
            self.key_order().to_set() == self@.dom(),
            self@.dom().finite(),
    {
        let ks = self.key_order();
        assert(ks.no_duplicates());
        assert forall|k: K::KV| #[trigger] ks.to_set().contains(k) == self@.dom().contains(k) by {
            if ks.to_set().contains(k) {
                let i = choose|i: int| 0 <= i < ks.len() && ks[i] == k;
                assert(self.entries@[i].0.key_model() == k);
            }
            if self@.dom().contains(k) {
                let i = key_index(self.entries@, k);
                assert(ks[i] == k);
            }
        }
        assert(ks.to_set() =~= self@.dom());
        ks.unique_seq_to_set();
    }

    pub fn new() -> (r: Self)
        ensures
            r.wf(),
            r@ == Map::<K::KV, V>::empty(),
            r.key_order() == Seq::<K::KV>::empty(),
    {
        let r = AssocMap { entries: Vec::new() };
        assert(r@ =~= Map::<K::KV, V>::empty());
        assert(r.key_order() =~= Seq::<K::KV>::empty());
        r
    }

    /// Number of entries.
    pub fn len(&self) -> (n: usize)
        requires
            self.wf(),
        ensures
            n == self@.dom().len(),
    {
        proof {
            self.lemma_key_order();
        }
        self.entries.len()
    }

    fn find(&self, k: &K) -> (r: Option<usize>)
        requires
            self.wf(),
        ensures
            match r {
                Some(i) => i < self.entries@.len() && self.entries@[i as int].0.key_model()
                    == k.key_model() && key_index(self.entries@, k.key_model()) == i,
                None => !has_key(self.entries@, k.key_model()),
            },
    {
        let mut i: usize = 0;
        while i < self.entries.len()
            invariant
                self.wf(),
                i <= self.entries@.len(),
                forall|j: int| 0 <= j < i ==> #[trigger] self.entries@[j].0.key_model() != k.key_model(),
            decreases self.entries@.len() - i,
        {
            if self.entries[i].0.same_key(k) {
                proof {
                    lemma_index_unique(self.entries@, i as int);
                }
                return Some(i);
            }
            i = i + 1;
        }
        None
    }

    pub fn contains_key(&self, k: &K) -> (r: bool)
        requires
            self.wf(),
        ensures
            r == self@.dom().contains(k.key_model()),
    {
        self.find(k).is_some()
    }

    pub fn get(&self, k: &K) -> (r: Option<&V>)
        requires
            self.wf(),
        ensures
            match r {
                Some(v) => self@.dom().contains(k.key_model()) && *v == self@[k.key_model()],
                None => !self@.dom().contains(k.key_model()),
            },
    {
        match self.find(k) {
            Some(i) => Some(&self.entries[i].1),
            None => None,
        }
    }

    /// Sets the value of `k`; a new key goes to the end of the insertion order.
    pub fn insert(&mut self, k: K, v: V)
        requires
            old(self).wf(),
        ensures
            final(self).wf(),
            final(self)@ == old(self)@.insert(k.key_model(), v),
            old(self)@.dom().contains(k.key_model()) ==> final(self).key_order() == old(self).key_order(),
            !old(self)@.dom().contains(k.key_model()) ==> final(self).key_order() == old(self).key_order().push(k.key_model()),
    {
        let ghost km = k.key_model();
        let ghost old_e = self.entries@;
        match self.find(&k) {
            Some(i) => {
                self.entries.set(i, (k, v));
                proof {
                    let e = self.entries@;
                    assert(distinct_keys(e)) by {
                        assert forall|a: int, b: int|
                            0 <= a < e.len() && 0 <= b < e.len() && a != b implies #[trigger] e[a].0.key_model()
                            != #[trigger] e[b].0.key_model() by {
                            assert(old_e[a].0.key_model() != old_e[b].0.key_model());
                            if a == i {
                                assert(e[a].0.key_model() == old_e[a].0.key_model());
                            }
                            if b == i {
                                assert(e[b].0.key_model() == old_e[b].0.key_model());
                            }
                        }
                    }
                    assert forall|kk: K::KV| #[trigger] has_key(e, kk) == has_key(old_e, kk) by {
                        if has_key(e, kk) {
                            let j = choose|j: int| 0 <= j < e.len() && #[trigger] e[j].0.key_model() == kk;
                            assert(old_e[j].0.key_model() == kk);
                        }
                        if has_key(old_e, kk) {
                            let j = choose|j: int| 0 <= j < old_e.len() && #[trigger] old_e[j].0.key_model() == kk;
                            assert(e[j].0.key_model() == kk);
                        }
                    }
                    assert forall|kk: K::KV| has_key(e, kk) implies e[key_index(e, kk)].1 == old(self)@.insert(km, v)[kk] by {
                        let j = key_index(old_e, kk);
                        lemma_index_unique(old_e, j);
                        lemma_index_unique(e, j);
                        if kk == km {
                            assert(j == i);
                        }
                    }
                    assert(self@ =~= old(self)@.insert(km, v));
                    assert(self.key_order() =~= old(self).key_order());
                }
            },
            None => {
                self.entries.push((k, v));
                proof {
                    let e = self.entries@;
                    let n = old_e.len() as int;
                    assert(distinct_keys(e)) by {
                        assert forall|a: int, b: int|
                            0 <= a < e.len() && 0 <= b < e.len() && a != b implies #[trigger] e[a].0.key_model()
                            != #[trigger] e[b].0.key_model() by {
                            if a < n && b < n {
                                assert(old_e[a].0.key_model() != old_e[b].0.key_model());
                            } else if a == n {
                                assert(old_e[b].0.key_model() == e[b].0.key_model());
                            } else {
                                assert(old_e[a].0.key_model() == e[a].0.key_model());
                            }
                        }
                    }
                    assert forall|kk: K::KV| #[trigger] has_key(e, kk) == (has_key(old_e, kk) || kk == km) by {
                        if has_key(e, kk) {
                            let j = choose|j: int| 0 <= j < e.len() && #[trigger] e[j].0.key_model() == kk;
                            if j < n {
                                assert(old_e[j].0.key_model() == kk);
                            }
                        }
                        if has_key(old_e, kk) {
                            let j = choose|j: int| 0 <= j < old_e.len() && #[trigger] old_e[j].0.key_model() == kk;
                            assert(e[j].0.key_model() == kk);
                        }
                        if kk == km {
                            assert(e[n].0.key_model() == kk);
                        }
                    }
                    assert forall|kk: K::KV| has_key(e, kk) implies e[key_index(e, kk)].1 == old(self)@.insert(km, v)[kk] by {
                        if kk == km {
                            lemma_index_unique(e, n);
                        } else {
                            let j = key_index(old_e, kk);
                            lemma_index_unique(old_e, j);
                            lemma_index_unique(e, j);
                        }
                    }
                    assert(self@ =~= old(self)@.insert(km, v));
                    assert(self.key_order() =~= old(self).key_order().push(km));
                }
            },
        }
    }

    /// Removes `k`, returning its value; the remaining keys keep their order.
    pub fn remove(&mut self, k: &K) -> (r: Option<V>)
        requires
            old(self).wf(),
        ensures
            final(self).wf(),
            final(self)@ == old(self)@.remove(k.key_model()),
            match r {
                Some(v) => old(self)@.dom().contains(k.key_model()) && v == old(self)@[k.key_model()],
                None => !old(self)@.dom().contains(k.key_model()),
            },
            final(self).key_order() == old(self).key_order().filter(|x: K::KV| x != k.key_model()),
    {
        let ghost km = k.key_model();
        let ghost old_e = self.entries@;
        match self.find(k) {
            Some(i) => {
                let (_, v) = self.entries.remove(i);
                proof {
                    let e = self.entries@;
                    let ii = i as int;
                    assert(e =~= old_e.remove(ii));
                    assert(distinct_keys(e)) by {
                        assert forall|a: int, b: int|
                            0 <= a < e.len() && 0 <= b < e.len() && a != b implies #[trigger] e[a].0.key_model()
                            != #[trigger] e[b].0.key_model() by {
                            let oa = if a < ii { a } else { a + 1 };
                            let ob = if b < ii { b } else { b + 1 };
                            assert(old_e[oa].0.key_model() != old_e[ob].0.key_model());
                        }
                    }
                    assert forall|kk: K::KV| #[trigger] has_key(e, kk) == (has_key(old_e, kk) && kk != km) by {
                        if has_key(e, kk) {
                            let j = choose|j: int| 0 <= j < e.len() && #[trigger] e[j].0.key_model() == kk;
                            let oj = if j < ii { j } else { j + 1 };
                            assert(old_e[oj].0.key_model() == kk);
                            assert(old_e[oj].0.key_model() != old_e[ii].0.key_model());
                        }
                        if has_key(old_e, kk) && kk != km {
                            let j = choose|j: int| 0 <= j < old_e.len() && #[trigger] old_e[j].0.key_model() == kk;
                            assert(j != ii);
                            let nj = if j < ii { j } else { j - 1 };
                            assert(e[nj].0.key_model() == kk);
                        }
                    }
                    assert forall|kk: K::KV| has_key(e, kk) implies e[key_index(e, kk)].1 == old(self)@.remove(km)[kk] by {
                        let j = key_index(e, kk);
                        lemma_index_unique(e, j);
                        let oj = if j < ii { j } else { j + 1 };
                        assert(old_e[oj].0.key_model() == kk);
                        lemma_index_unique(old_e, oj);
                    }
                    assert(self@ =~= old(self)@.remove(km));
                    lemma_index_unique(old_e, ii);
                    let f = |x: K::KV| x != km;
                    let ko = old_e.map_values(|en: (K, V)| en.0.key_model());
                    assert(ko =~= ko.take(ii) + seq![km] + ko.skip(ii + 1));
                    assert(ko.take(ii).filter(f) =~= ko.take(ii)) by {
                        ko.take(ii).lemma_filter_len(f);
                        assert forall|a: int| 0 <= a < ko.take(ii).len() implies f(#[trigger] ko.take(ii)[a]) by {
                            assert(old_e[a].0.key_model() != old_e[ii].0.key_model());
                        }
                        lemma_filter_all(ko.take(ii), f);
                    }
                    assert(ko.skip(ii + 1).filter(f) =~= ko.skip(ii + 1)) by {
                        assert forall|a: int| 0 <= a < ko.skip(ii + 1).len() implies f(#[trigger] ko.skip(ii + 1)[a]) by {
                            assert(old_e[a + ii + 1].0.key_model() != old_e[ii].0.key_model());
                        }
                        lemma_filter_all(ko.skip(ii + 1), f);
                    }
                    assert(seq![km].filter(f) =~= Seq::<K::KV>::empty()) by {
                        reveal_with_fuel(Seq::filter, 2);
                    }
                    Seq::filter_distributes_over_add(ko.take(ii), seq![km], f);
                    Seq::filter_distributes_over_add(ko.take(ii) + seq![km], ko.skip(ii + 1), f);
                    assert(self.key_order() =~= ko.take(ii) + ko.skip(ii + 1));
                }
                Some(v)
            },
            None => {
                proof {
                    let f = |x: K::KV| x != km;
                    let ko = old_e.map_values(|en: (K, V)| en.0.key_model());
                    assert forall|a: int| 0 <= a < ko.len() implies f(#[trigger] ko[a]) by {
                        if ko[a] == km {
                            assert(old_e[a].0.key_model() == km);
                        }
                    }
                    lemma_filter_all(ko, f);
                    assert(self@ =~= old(self)@.remove(km));
                }
                None
            },
        }
    }

    /// The entries in insertion order (keys and values), read-only.
    pub fn entries(&self) -> (r: &Vec<(K, V)>)
        requires
            self.wf(),
        ensures
            r@.map_values(|e: (K, V)| e.0.key_model()) == self.key_order(),
            forall|i: int| 0 <= i < r@.len() ==> self@.dom().contains(#[trigger] r@[i].0.key_model()) && self@[r@[i].0.key_model()] == r@[i].1,
            r@.len() == self@.dom().len(),
    {
        proof {
            assert forall|i: int| 0 <= i < self.entries@.len() implies self@.dom().contains(#[trigger] self.entries@[i].0.key_model()) && self@[self.entries@[i].0.key_model()] == self.entries@[i].1 by {
                lemma_index_unique(self.entries@, i);
            }
            self.lemma_key_order();
        }
        &self.entries
    }
}

/// Filtering by a predicate that every element meets keeps the sequence.
pub proof fn lemma_filter_all<A>(s: Seq<A>, f: spec_fn(A) -> bool)
    requires
        forall|i: int| 0 <= i < s.len() ==> f(#[trigger] s[i]),
    ensures
        s.filter(f) == s,
    decreases s.len(),
{
    reveal(Seq::filter);
    if s.len() > 0 {
        lemma_filter_all(s.drop_last(), f);
        assert(s.drop_last().push(s.last()) =~= s);
    } else {
        assert(s.filter(f) =~= s);
    }
}

} // verus!
