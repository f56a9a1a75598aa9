//! An ordered map from names to values, kept sorted by name.
//!
//! Its entries come out in the order of the names (`text_lt`), which is the
//! order of `String`'s `Ord`: the order in which a `BTreeMap<String, _>`
//! hands out its entries.
use vstd::prelude::*;
use crate::text::{text_lt, text_order, lemma_text_lt_irreflexive, lemma_text_lt_total, lemma_text_lt_transitive};

verus! {

/// The names of a sequence of pairs.
pub open spec fn names_of<T>(ps: Seq<(Seq<char>, T)>) -> Seq<Seq<char>> {
    ps.map_values(|p: (Seq<char>, T)| p.0)
}

/// The names of `ps` are strictly increasing.
pub open spec fn sorted_names<T>(ps: Seq<(Seq<char>, T)>) -> bool {
    forall|i: int, j: int| 0 <= i < j < ps.len() ==> text_lt(#[trigger] ps[i].0, #[trigger] ps[j].0)
}

/// `k` is the name of some pair of `ps`.
pub open spec fn has_name<T>(ps: Seq<(Seq<char>, T)>, k: Seq<char>) -> bool {
    exists|i: int| 0 <= i < ps.len() && #[trigger] ps[i].0 == k
}

/// The index of a pair named `k`.
pub open spec fn index_of_name<T>(ps: Seq<(Seq<char>, T)>, k: Seq<char>) -> int {
    choose|i: int| 0 <= i < ps.len() && #[trigger] ps[i].0 == k
}

/// The map that a sequence of pairs with distinct names stands for.
pub open spec fn pairs_map<T>(ps: Seq<(Seq<char>, T)>) -> Map<Seq<char>, T> {
    Map::new(|k: Seq<char>| has_name(ps, k), |k: Seq<char>| ps[index_of_name(ps, k)].1)
}

/// In sorted pairs, the pair named `ps[i].0` is the one at `i`.
pub proof fn lemma_sorted_index<T>(ps: Seq<(Seq<char>, T)>, i: int)
    requires
        sorted_names(ps),
        0 <= i < ps.len(),
    ensures
        has_name(ps, ps[i].0),
        index_of_name(ps, ps[i].0) == i,
        pairs_map(ps).contains_key(ps[i].0),
        pairs_map(ps)[ps[i].0] == ps[i].1,
{
    assert(has_name(ps, ps[i].0));
    let j = index_of_name(ps, ps[i].0);
    if j < i {
        lemma_text_lt_irreflexive(ps[i].0);
        assert(text_lt(ps[j].0, ps[i].0));
    } else if j > i {
        lemma_text_lt_irreflexive(ps[i].0);
        assert(text_lt(ps[i].0, ps[j].0));
    }
}

/// Two sorted sequences of pairs that stand for the same map are equal: the
/// order of the entries is a function of the contents.
pub proof fn lemma_sorted_pairs_unique<T>(a: Seq<(Seq<char>, T)>, b: Seq<(Seq<char>, T)>)
    requires
        sorted_names(a),
        sorted_names(b),
        pairs_map(a) == pairs_map(b),
    ensures
        a == b,
    decreases a.len() + b.len(),
{
    if a.len() == 0 || b.len() == 0 {
        if a.len() > 0 {
            lemma_sorted_index(a, 0);
            assert(pairs_map(b).contains_key(a[0].0));
        } else if b.len() > 0 {
            lemma_sorted_index(b, 0);
            assert(pairs_map(a).contains_key(b[0].0));
        } else {
            assert(a =~= b);
        }
    } else {
        // The first pairs agree: each holds the smallest name of the map.
        lemma_sorted_index(a, 0);
        lemma_sorted_index(b, 0);
        assert(pairs_map(b).contains_key(a[0].0));
        assert(pairs_map(a).contains_key(b[0].0));
        let ja = index_of_name(b, a[0].0);
        let jb = index_of_name(a, b[0].0);
        if ja > 0 {
            assert(text_lt(b[0].0, a[0].0));
            if jb > 0 {
                assert(text_lt(a[0].0, b[0].0));
                lemma_text_lt_total(a[0].0, b[0].0);
            } else {
                lemma_text_lt_irreflexive(a[0].0);
            }
        }
        assert(b[0].0 == a[0].0);
        assert(a[0].1 == pairs_map(a)[a[0].0]);
        assert(b[0].1 == pairs_map(b)[b[0].0]);
        assert(a[0] == b[0]);
        let ar = a.drop_first();
        let br = b.drop_first();
        assert(sorted_names(ar));
        assert(sorted_names(br));
        assert forall|k: Seq<char>| #[trigger] pairs_map(ar).contains_key(k) == pairs_map(
            br,
        ).contains_key(k) && (pairs_map(ar).contains_key(k) ==> pairs_map(ar)[k] == pairs_map(
            br,
        )[k]) by {
            if has_name(ar, k) {
                let i = choose|i: int| 0 <= i < ar.len() && #[trigger] ar[i].0 == k;
                lemma_sorted_index(a, i + 1);
                lemma_sorted_index(ar, i);
                assert(pairs_map(b).contains_key(k));
                let j = index_of_name(b, k);
                lemma_sorted_index(b, j);
                if j == 0 {
                    assert(text_lt(a[0].0, a[i + 1].0));
                    lemma_text_lt_irreflexive(k);
                }
                lemma_sorted_index(br, j - 1);
            }
            if has_name(br, k) {
                let i = choose|i: int| 0 <= i < br.len() && #[trigger] br[i].0 == k;
                lemma_sorted_index(b, i + 1);
                lemma_sorted_index(br, i);
                assert(pairs_map(a).contains_key(k));
                let j = index_of_name(a, k);
                lemma_sorted_index(a, j);
                if j == 0 {
                    assert(text_lt(b[0].0, b[i + 1].0));
                    lemma_text_lt_irreflexive(k);
                }
                lemma_sorted_index(ar, j - 1);
            }
        }
        assert(pairs_map(ar) =~= pairs_map(br));
        lemma_sorted_pairs_unique(ar, br);
        assert(a =~= seq![a[0]] + ar);
        assert(b =~= seq![b[0]] + br);
    }
}

/// A map from names to values whose entries are kept in the order of their
/// names.
pub struct DepMap<V> {
    entries: Vec<(String, V)>,
}

impl<V: View> DepMap<V> {
    /// The entries, in order, each as its name and the view of its value.
    pub closed spec fn pairs(&self) -> Seq<(Seq<char>, V::V)> {
        self.entries@.map_values(|e: (String, V)| (e.0@, e.1@))
    }

    /// The entries are sorted by name, so no name occurs twice.
    pub open spec fn wf(&self) -> bool {
        sorted_names(self.pairs())
    }

    /// The contents as a map.
    pub open spec fn map(&self) -> Map<Seq<char>, V::V> {
        pairs_map(self.pairs())
    }

    /// An empty map.
    pub fn new() -> (r: Self)
        ensures
            r.wf(),
            r.pairs() == Seq::<(Seq<char>, V::V)>::empty(),
            r.map() == Map::<Seq<char>, V::V>::empty(),
    {
        let r = DepMap { entries: Vec::new() };
        assert(r.pairs() =~= Seq::<(Seq<char>, V::V)>::empty());
        assert(r.map() =~= Map::<Seq<char>, V::V>::empty());
        r
    }

    /// The number of entries.
    pub fn len(&self) -> (r: usize)
        requires
            self.wf(),
        ensures
            r == self.pairs().len(),
            r == self.map().len(),
    {
        proof {
            self.lemma_len();
        }
        self.entries.len()
    }

    /// Whether there is no entry.
    pub fn is_empty(&self) -> (r: bool)
        requires
            self.wf(),
        ensures
            r == (self.pairs().len() == 0),
            r == (self.map() == Map::<Seq<char>, V::V>::empty()),
    {
        proof {
            if self.pairs().len() == 0 {
                assert(self.map() =~= Map::<Seq<char>, V::V>::empty());
            } else {
                lemma_sorted_index(self.pairs(), 0);
                assert(self.map().contains_key(self.pairs()[0].0));
            }
        }
        self.entries.len() == 0
    }

    /// The name of the `i`-th entry.
    pub fn key_at(&self, i: usize) -> (r: &String)
        requires
            i < self.pairs().len(),
        ensures
            r@ == self.pairs()[i as int].0,
    {
        &self.entries[i].0
    }

    /// The value of the `i`-th entry.
    pub fn value_at(&self, i: usize) -> (r: &V)
        requires
            i < self.pairs().len(),
        ensures
            r@ == self.pairs()[i as int].1,
    {
        &self.entries[i].1
    }

    /// The number of entries is the size of the map.
    pub proof fn lemma_len(&self)
        requires
            self.wf(),
        ensures
            self.map().dom().finite(),
            self.map().len() == self.pairs().len(),
            self.map() == Map::<Seq<char>, V::V>::empty() <==> self.pairs().len() == 0,
    {
        let ps = self.pairs();
        if ps.len() == 0 {
            assert(self.map() =~= Map::<Seq<char>, V::V>::empty());
        } else {
            lemma_sorted_index(ps, 0);
            assert(self.map().contains_key(ps[0].0));
        }
        let names = names_of(ps);
        assert forall|i: int, j: int| 0 <= i < j < names.len() implies names[i] != names[j] by {
            lemma_text_lt_irreflexive(ps[i].0);
        }
        assert(names.no_duplicates());
        assert(self.map().dom() =~= names.to_set()) by {
            assert forall|k: Seq<char>| self.map().dom().contains(k) implies names.to_set().contains(
                k,
            ) by {
                let i = choose|i: int| 0 <= i < ps.len() && #[trigger] ps[i].0 == k;
                assert(names[i] == k);
            }
            assert forall|k: Seq<char>| names.to_set().contains(k) implies self.map().dom().contains(
                k,
            ) by {
                let i = choose|i: int| 0 <= i < names.len() && names[i] == k;
                assert(ps[i].0 == k);
            }
        }
        names.unique_seq_to_set();
    }

    /// The first index whose name is not before `key`, and whether the
    /// name there is `key`.
    fn position(&self, key: &str) -> (r: (usize, bool))
        requires
            self.wf(),
        ensures
            r.0 <= self.pairs().len(),
            forall|i: int| 0 <= i < r.0 ==> text_lt(#[trigger] self.pairs()[i].0, key@),
            r.1 ==> r.0 < self.pairs().len() && self.pairs()[r.0 as int].0 == key@,
            !r.1 ==> forall|i: int|
                r.0 <= i < self.pairs().len() ==> text_lt(key@, #[trigger] self.pairs()[i].0),
            r.1 == self.map().contains_key(key@),
    {
        let ghost ps = self.pairs();
        let n = self.entries.len();
        let mut i: usize = 0;
        while i < n
            invariant
                n == ps.len(),
                ps == self.pairs(),
                sorted_names(ps),
                i <= n,
                forall|j: int| 0 <= j < i ==> text_lt(#[trigger] ps[j].0, key@),
            decreases n - i,
        {
            let o = text_order(self.entries[i].0.as_str(), key);
            assert(ps[i as int].0 == self.entries@[i as int].0@);
            if o != -1 {
                if o == 0 {
                    proof {
                        lemma_sorted_index(ps, i as int);
                    }
                    return (i, true);
                }
                proof {
                    assert forall|j: int| i <= j < n implies text_lt(key@, #[trigger] ps[j].0) by {
                        if j > i {
                            lemma_text_lt_transitive(key@, ps[i as int].0, ps[j].0);
                        }
                    }
                    if has_name(ps, key@) {
                        let j = choose|j: int| 0 <= j < ps.len() && #[trigger] ps[j].0 == key@;
                        lemma_text_lt_irreflexive(key@);
                    }
                }
                return (i, false);
            }
            i = i + 1;
        }
        proof {
            if has_name(ps, key@) {
                let j = choose|j: int| 0 <= j < ps.len() && #[trigger] ps[j].0 == key@;
                lemma_text_lt_irreflexive(key@);
            }
        }
        (i, false)
    }

    /// Whether some entry is named `key`.
    pub fn contains_key(&self, key: &str) -> (r: bool)
        requires
            self.wf(),
        ensures
            r == self.map().contains_key(key@),
    {
        self.position(key).1
    }

    /// The value named `key`, if any.
    pub fn get(&self, key: &str) -> (r: Option<&V>)
        requires
            self.wf(),
        ensures
            match r {
                Some(v) => self.map().contains_key(key@) && v@ == self.map()[key@],
                None => !self.map().contains_key(key@),
            },
    {
        let (i, found) = self.position(key);
        if found {
            proof {
                lemma_sorted_index(self.pairs(), i as int);
            }
            Some(&self.entries[i].1)
        } else {
            None
        }
    }

    /// Adds `key` with `value` unless `key` is there already; the existing
    /// entry is kept (`entry(key).or_insert(value)`). Tells whether it added.
    pub fn insert_if_absent(&mut self, key: String, value: V) -> (added: bool)
        requires
            old(self).wf(),
        ensures
            final(self).wf(),
            added == !old(self).map().contains_key(key@),
            added ==> final(self).map() == old(self).map().insert(key@, value@),
            !added ==> final(self).pairs() == old(self).pairs(),
    {
        let (i, found) = self.position(key.as_str());
        if found {
            return false;
        }
        let ghost old_ps = self.pairs();
        let ghost kv = key@;
        let ghost vv = value@;
        self.entries.insert(i, (key, value));
        let ghost ps = self.pairs();
        assert(ps =~= old_ps.insert(i as int, (kv, vv)));
        assert(sorted_names(ps)) by {
            assert forall|a: int, b: int| 0 <= a < b < ps.len() implies text_lt(
                #[trigger] ps[a].0,
                #[trigger] ps[b].0,
            ) by {
                if a < i && b == i {
                } else if a < i && b > i {
                    assert(ps[b] == old_ps[b - 1]);
                    lemma_text_lt_transitive(ps[a].0, kv, ps[b].0);
                } else if a == i {
                    assert(ps[b] == old_ps[b - 1]);
                } else if b < i {
                } else {
                    assert(ps[a] == old_ps[a - 1]);
                    assert(ps[b] == old_ps[b - 1]);
                }
            }
        }
        assert(pairs_map(ps) =~= pairs_map(old_ps).insert(kv, vv)) by {
            assert forall|k: Seq<char>| #[trigger] pairs_map(ps).contains_key(k) == pairs_map(
                old_ps,
            ).insert(kv, vv).contains_key(k) by {
                if has_name(ps, k) {
                    let j = choose|j: int| 0 <= j < ps.len() && #[trigger] ps[j].0 == k;
                    if j < i {
                        assert(old_ps[j].0 == k);
                    } else if j > i {
                        assert(old_ps[j - 1].0 == k);
                    }
                }
                if has_name(old_ps, k) {
                    let j = choose|j: int| 0 <= j < old_ps.len() && #[trigger] old_ps[j].0 == k;
                    if j < i {
                        assert(ps[j].0 == k);
                    } else {
                        assert(ps[j + 1].0 == k);
                    }
                }
                if k == kv {
                    assert(ps[i as int].0 == k);
                }
            }
            assert forall|k: Seq<char>| #[trigger] pairs_map(ps).contains_key(k) implies pairs_map(
                ps,
            )[k] == pairs_map(old_ps).insert(kv, vv)[k] by {
                let j = choose|j: int| 0 <= j < ps.len() && #[trigger] ps[j].0 == k;
                lemma_sorted_index(ps, j);
                if j < i {
                    lemma_sorted_index(old_ps, j);
                    assert(k != kv);
                } else if j > i {
                    lemma_sorted_index(old_ps, j - 1);
                    assert(text_lt(kv, k));
                    lemma_text_lt_irreflexive(kv);
                }
            }
        }
        true
    }

    /// Removes the entry named `key`, if there is one.
    pub fn remove(&mut self, key: &str)
        requires
            old(self).wf(),
        ensures
            final(self).wf(),
            final(self).map() == old(self).map().remove(key@),
    {
        let (i, found) = self.position(key);
        let ghost old_ps = self.pairs();
        if !found {
            assert(pairs_map(old_ps) =~= pairs_map(old_ps).remove(key@));
            return ;
        }
        self.entries.remove(i);
        let ghost ps = self.pairs();
        assert(ps =~= old_ps.remove(i as int));
        assert(sorted_names(ps)) by {
            assert forall|a: int, b: int| 0 <= a < b < ps.len() implies text_lt(
                #[trigger] ps[a].0,
                #[trigger] ps[b].0,
            ) by {
                if a < i && b >= i {
                    assert(ps[b] == old_ps[b + 1]);
                } else if a >= i {
                    assert(ps[a] == old_ps[a + 1]);
                    assert(ps[b] == old_ps[b + 1]);
                }
            }
        }
        assert(pairs_map(ps) =~= pairs_map(old_ps).remove(key@)) by {
            assert forall|k: Seq<char>| #[trigger] pairs_map(ps).contains_key(k) == pairs_map(
                old_ps,
            ).remove(key@).contains_key(k) by {
                if has_name(ps, k) {
                    let j = choose|j: int| 0 <= j < ps.len() && #[trigger] ps[j].0 == k;
                    if j < i {
                        lemma_sorted_index(old_ps, j);
                        assert(old_ps[j].0 == k);
                        assert(text_lt(k, key@));
                        lemma_text_lt_irreflexive(k);
                    } else {
                        assert(old_ps[j + 1].0 == k);
                        assert(text_lt(key@, k));
                        lemma_text_lt_irreflexive(k);
                    }
                }
                if has_name(old_ps, k) && k != key@ {
                    let j = choose|j: int| 0 <= j < old_ps.len() && #[trigger] old_ps[j].0 == k;
                    if j < i {
                        assert(ps[j].0 == k);
                    } else if j > i {
                        assert(ps[j - 1].0 == k);
                    }
                }
            }
            assert forall|k: Seq<char>| #[trigger] pairs_map(ps).contains_key(k) implies pairs_map(
                ps,
            )[k] == pairs_map(old_ps).remove(key@)[k] by {
                let j = choose|j: int| 0 <= j < ps.len() && #[trigger] ps[j].0 == k;
                lemma_sorted_index(ps, j);
                if j < i {
                    lemma_sorted_index(old_ps, j);
                } else {
                    lemma_sorted_index(old_ps, j + 1);
                }
            }
        }
    }
}

} // verus!
