//! An ordered map keyed by strings: the entries are kept sorted by key in
//! the order [`seq_lt`], with no key twice, so that iterating it gives the
//! keys in ascending order.
use vstd::prelude::*;

use crate::text::{compare_str, lemma_sorted_seq_of, seq_lt, sorted_seq_of, strictly_increasing, Cmp};

verus! {

/// The map that a sequence of `(key, value)` pairs with distinct keys denotes.
pub open spec fn pairs_to_map<V>(ps: Seq<(Seq<char>, V)>) -> Map<Seq<char>, V> {
    Map::new(
        |k: Seq<char>| exists|i: int| 0 <= i < ps.len() && #[trigger] ps[i].0 == k,
        |k: Seq<char>| ps[choose|i: int| 0 <= i < ps.len() && #[trigger] ps[i].0 == k].1,
    )
}

/// The keys of a sequence of pairs.
pub open spec fn pair_keys<V>(ps: Seq<(Seq<char>, V)>) -> Seq<Seq<char>> {
    ps.map_values(|p: (Seq<char>, V)| p.0)
}

/// A map from strings to values, ordered by key.
#[derive(Debug)]
pub struct StrMap<V> {
    entries: Vec<(String, V)>,
}

impl<V> StrMap<V> {
    /// The entries, in ascending key order, with each key taken by its view.
    pub closed spec fn pairs(&self) -> Seq<(Seq<char>, V)> {
        self.entries@.map_values(|e: (String, V)| (e.0@, e.1))
    }

    /// The keys, in ascending order.
    pub open spec fn keys(&self) -> Seq<Seq<char>> {
        pair_keys(self.pairs())
    }

    /// The map that the entries denote.
    pub open spec fn view(&self) -> Map<Seq<char>, V> {
        pairs_to_map(self.pairs())
    }

    #[verifier::type_invariant]
    closed spec fn sorted(&self) -> bool {
        strictly_increasing(pair_keys(self.pairs()))
    }

    /// Sorted keys are distinct.
    pub proof fn lemma_sorted(&self)
        requires
            strictly_increasing(self.keys()),
        ensures
            forall|i: int, j: int|
                0 <= i < self.pairs().len() && 0 <= j < self.pairs().len() && i != j ==> #[trigger] self.pairs()[i].0
                    != #[trigger] self.pairs()[j].0,
    {
        assert forall|i: int, j: int|
            0 <= i < self.pairs().len() && 0 <= j < self.pairs().len() && i != j implies #[trigger] self.pairs()[i].0
                != #[trigger] self.pairs()[j].0 by {
            let ks = self.keys();
            assert(ks[i] == self.pairs()[i].0);
            assert(ks[j] == self.pairs()[j].0);
            if i < j {
                assert(seq_lt(ks[i], ks[j]));
                crate::text::lemma_seq_lt_irreflexive(ks[i]);
            } else {
                assert(seq_lt(ks[j], ks[i]));
                crate::text::lemma_seq_lt_irreflexive(ks[j]);
            }
        }
    }

    /// The keys of a map are in strictly ascending order.
    pub fn keys_are_sorted(&self)
        ensures
            strictly_increasing(self.keys()),
    {
        proof {
            use_type_invariant(self);
        }
    }

    /// The value the map holds for the key of entry `i` is that entry's value.
    pub proof fn lemma_pair_in_view(&self, i: int)
        requires
            strictly_increasing(self.keys()),
            0 <= i < self.pairs().len(),
        ensures
            self@.contains_key(self.pairs()[i].0),
            self@[self.pairs()[i].0] == self.pairs()[i].1,
    {
        self.lemma_sorted();
        let k = self.pairs()[i].0;
        let ps = self.pairs();
        assert(ps[i].0 == k);
        let j = choose|j: int| 0 <= j < ps.len() && #[trigger] ps[j].0 == k;
        assert(0 <= j < ps.len() && ps[j].0 == k);
        assert(j == i);
    }

    /// The entries list the keys of the map in ascending order, each with its value.
    pub proof fn lemma_pairs_are_sorted_map(&self)
        requires
            strictly_increasing(self.keys()),
        ensures
            self.keys() == sorted_seq_of(self@.dom()),
            self.keys().to_set() == self@.dom(),
            forall|i: int|
                0 <= i < self.pairs().len() ==> #[trigger] self@[self.pairs()[i].0] == self.pairs()[i].1,
    {
        assert(self.keys().to_set() =~= self@.dom()) by {
            assert forall|k: Seq<char>| self.keys().to_set().contains(k) <==> self@.dom().contains(k) by {
                if self.keys().contains(k) {
                    let i = choose|i: int| 0 <= i < self.keys().len() && self.keys()[i] == k;
                    assert(self.pairs()[i].0 == k);
                }
                if self@.dom().contains(k) {
                    let i = choose|i: int| 0 <= i < self.pairs().len() && #[trigger] self.pairs()[i].0 == k;
                    assert(self.keys()[i] == k);
                }
            }
        }
        lemma_sorted_seq_of(self.keys());
        assert forall|i: int| 0 <= i < self.pairs().len() implies #[trigger] self@[self.pairs()[i].0]
            == self.pairs()[i].1 by {
            self.lemma_pair_in_view(i);
        }
    }

    /// An empty map.
    pub fn new() -> (m: Self)
        ensures
            m.pairs() == Seq::<(Seq<char>, V)>::empty(),
            m@ == Map::<Seq<char>, V>::empty(),
    {
        let m = StrMap { entries: Vec::new() };
        proof {
            assert(m.pairs() =~= Seq::<(Seq<char>, V)>::empty());
            assert(m@ =~= Map::<Seq<char>, V>::empty());
        }
        m
    }

    /// The number of entries.
    pub fn len(&self) -> (n: usize)
        ensures
            n == self.pairs().len(),
    {
        self.entries.len()
    }

    /// The key of entry `i`.
    pub fn key_at(&self, i: usize) -> (k: &String)
        requires
            i < self.pairs().len(),
        ensures
            k@ == self.pairs()[i as int].0,
    {
        &self.entries[i].0
    }

    /// The value of entry `i`.
    pub fn value_at(&self, i: usize) -> (v: &V)
        requires
            i < self.pairs().len(),
        ensures
            *v == self.pairs()[i as int].1,
    {
        &self.entries[i].1
    }

    /// The position of `key` among the entries.
    pub fn index_of(&self, key: &str) -> (r: Option<usize>)
        ensures
            match r {
                Some(i) => i < self.pairs().len() && self.pairs()[i as int].0 == key@
                    && self@.contains_key(key@),
                None => !self@.contains_key(key@),
            },
    {
        proof {
            use_type_invariant(self);
        }
        let mut i: usize = 0;
        while i < self.entries.len()
            invariant
                i <= self.entries.len(),
                strictly_increasing(self.keys()),
                forall|j: int| 0 <= j < i ==> self.pairs()[j].0 != key@,
            decreases self.entries.len() - i,
        {
            if compare_str(self.entries[i].0.as_str(), key) == Cmp::Equal {
                proof {
                    assert(self.pairs()[i as int].0 == key@);
                    self.lemma_pair_in_view(i as int);
                }
                return Some(i);
            }
            i = i + 1;
        }
        proof {
            if self@.contains_key(key@) {
                let j = choose|j: int| 0 <= j < self.pairs().len() && #[trigger] self.pairs()[j].0 == key@;
                assert(self.pairs()[j].0 != key@);
            }
        }
        None
    }

    /// Whether `key` has an entry.
    pub fn contains_key(&self, key: &str) -> (r: bool)
        ensures
            r == self@.contains_key(key@),
    {
        self.index_of(key).is_some()
    }

    /// The value for `key`, if any.
    pub fn get(&self, key: &str) -> (r: Option<&V>)
        ensures
            match r {
                Some(v) => self@.contains_key(key@) && *v == self@[key@],
                None => !self@.contains_key(key@),
            },
    {
        proof {
            use_type_invariant(self);
        }
        match self.index_of(key) {
            Some(i) => {
                proof {
                    self.lemma_pair_in_view(i as int);
                }
                Some(&self.entries[i].1)
            },
            None => None,
        }
    }

    /// Replaces the value of entry `i`, returning the value it held.
    pub fn replace_value_at(&mut self, i: usize, v: V) -> (old_v: V)
        requires
            i < old(self).pairs().len(),
        ensures
            old_v == old(self).pairs()[i as int].1,
            final(self).pairs() == old(self).pairs().update(i as int, (old(self).pairs()[i as int].0, v)),
            final(self).keys() == old(self).keys(),
            final(self)@ == old(self)@.insert(old(self).pairs()[i as int].0, v),
    {
        proof {
            use_type_invariant(&*self);
        }
        let mut entries: Vec<(String, V)> = Vec::new();
        std::mem::swap(&mut entries, &mut self.entries);
        let (k, old_v) = entries.remove(i);
        entries.insert(i, (k, v));
        proof {
            assert(entries@.map_values(|e: (String, V)| (e.0@, e.1)) =~= old(self).pairs().update(
                i as int,
                (old(self).pairs()[i as int].0, v),
            ));
            assert(pair_keys(entries@.map_values(|e: (String, V)| (e.0@, e.1))) =~= pair_keys(
                old(self).pairs(),
            ));
        }
        self.entries = entries;
        proof {
            assert(self.pairs() =~= old(self).pairs().update(i as int, (old(self).pairs()[i as int].0, v)));
            assert(pair_keys(self.pairs()) =~= pair_keys(old(self).pairs()));
            let old_pairs = old(self).pairs();
            let ps = self.pairs();
            let key = old_pairs[i as int].0;
            assert(forall|j: int| 0 <= j < ps.len() ==> #[trigger] ps[j].0 == old_pairs[j].0);
            assert forall|k: Seq<char>| #[trigger] self@.contains_key(k) == old(self)@.insert(key, v).contains_key(k) by {
                if old(self)@.contains_key(k) {
                    let j = choose|j: int| 0 <= j < old_pairs.len() && #[trigger] old_pairs[j].0 == k;
                    assert(ps[j].0 == k);
                }
                if self@.contains_key(k) {
                    let j = choose|j: int| 0 <= j < ps.len() && #[trigger] ps[j].0 == k;
                    assert(old_pairs[j].0 == k);
                }
                if k == key {
                    assert(ps[i as int].0 == k);
                }
            }
            assert forall|k: Seq<char>| #[trigger] self@.contains_key(k) implies self@[k] == old(self)@.insert(key, v)[k] by {
                let j = choose|j: int| 0 <= j < ps.len() && #[trigger] ps[j].0 == k;
                self.lemma_pair_in_view(j);
                old(self).lemma_sorted();
                if j != i {
                    assert(old_pairs[j].0 == k);
                    assert(k != key);
                    old(self).lemma_pair_in_view(j);
                }
            }
            assert(self@ =~= old(self)@.insert(key, v));
        }
        old_v
    }

    /// Sets `key` to `value`, adding an entry when there is none.
    pub fn insert(&mut self, key: String, value: V)
        ensures
            final(self)@ == old(self)@.insert(key@, value),
    {
        proof {
            use_type_invariant(&*self);
            self.lemma_sorted();
        }
        let ghost old_pairs = self.pairs();
        let mut i: usize = 0;
        while i < self.entries.len()
            invariant
                i <= self.entries.len(),
                self.pairs() == old_pairs,
                old(self).pairs() == old_pairs,
                strictly_increasing(pair_keys(old_pairs)),
                forall|j: int| 0 <= j < i ==> seq_lt(#[trigger] old_pairs[j].0, key@),
            ensures
                i <= self.entries.len(),
                self.pairs() == old_pairs,
                forall|j: int| 0 <= j < i ==> seq_lt(#[trigger] old_pairs[j].0, key@),
                i < old_pairs.len() ==> seq_lt(key@, old_pairs[i as int].0),
            decreases self.entries.len() - i,
        {
            let c = compare_str(self.entries[i].0.as_str(), key.as_str());
            if c == Cmp::Equal {
                let ghost k0 = old_pairs[i as int].0;
                let ghost new_pairs = old_pairs.update(i as int, (k0, value));
                let _ = self.replace_value_at(i, value);
                proof {
                    let ps = self.pairs();
                    assert(ps == new_pairs);
                    assert(forall|j: int| 0 <= j < ps.len() ==> #[trigger] ps[j].0 == old_pairs[j].0);
                    assert(pair_keys(ps) =~= pair_keys(old_pairs));
                    assert forall|k: Seq<char>| #[trigger] self@.contains_key(k) == old(self)@.insert(key@, value).contains_key(k) by {
                        if old(self)@.contains_key(k) {
                            let j = choose|j: int| 0 <= j < old_pairs.len() && #[trigger] old_pairs[j].0 == k;
                            assert(ps[j].0 == k);
                        }
                        if self@.contains_key(k) {
                            let j = choose|j: int| 0 <= j < ps.len() && #[trigger] ps[j].0 == k;
                            assert(old_pairs[j].0 == k);
                        }
                    }
                    assert forall|k: Seq<char>| #[trigger] self@.contains_key(k) implies self@[k] == old(self)@.insert(key@, value)[k] by {
                        let j = choose|j: int| 0 <= j < ps.len() && #[trigger] ps[j].0 == k;
                        self.lemma_pair_in_view(j);
                        old(self).lemma_sorted();
                        if j != i {
                            assert(old_pairs[j].0 == k);
                            assert(k != key@);
                            let jj = choose|jj: int| 0 <= jj < old_pairs.len() && #[trigger] old_pairs[jj].0 == k;
                            assert(ps[jj].0 == k);
                            assert(jj == j);
                        }
                    }
                    assert(self@ =~= old(self)@.insert(key@, value));
                }
                return;
            } else if c == Cmp::Greater {
                break;
            }
            i = i + 1;
        }
        let ghost pos = i as int;
        proof {
            assert(pos < old_pairs.len() ==> seq_lt(key@, old_pairs[pos].0));
        }
        let mut entries: Vec<(String, V)> = Vec::new();
        std::mem::swap(&mut entries, &mut self.entries);
        let ghost key_view = key@;
        entries.insert(i, (key, value));
        proof {
            let ps = entries@.map_values(|e: (String, V)| (e.0@, e.1));
            assert(ps =~= old_pairs.insert(pos, (key_view, value)));
            let ks = pair_keys(ps);
            assert forall|a: int, b: int| 0 <= a < b < ks.len() implies seq_lt(#[trigger] ks[a], #[trigger] ks[b]) by {
                let oks = pair_keys(old_pairs);
                if a < pos && b < pos {
                    assert(ks[a] == oks[a] && ks[b] == oks[b]);
                } else if a < pos && b == pos {
                } else if a < pos && b > pos {
                    assert(ks[b] == oks[b - 1]);
                    assert(seq_lt(oks[a], key_view));
                    if b - 1 > pos {
                        assert(seq_lt(key_view, oks[pos]));
                        assert(seq_lt(oks[pos], oks[b - 1]));
                        crate::text::lemma_seq_lt_transitive(key_view, oks[pos], oks[b - 1]);
                    }
                    crate::text::lemma_seq_lt_transitive(oks[a], key_view, oks[b - 1]);
                } else if a == pos {
                    assert(ks[b] == oks[b - 1]);
                    if b - 1 > pos {
                        assert(seq_lt(oks[pos], oks[b - 1]));
                        crate::text::lemma_seq_lt_transitive(key_view, oks[pos], oks[b - 1]);
                    }
                } else {
                    assert(ks[a] == oks[a - 1] && ks[b] == oks[b - 1]);
                }
            }
        }
        self.entries = entries;
        proof {
            let ps = self.pairs();
            let ks = pair_keys(ps);
            assert(ps =~= old_pairs.insert(pos, (key@, value)));
            assert forall|a: int, b: int| 0 <= a < b < ks.len() implies seq_lt(#[trigger] ks[a], #[trigger] ks[b]) by {
                let oks = pair_keys(old_pairs);
                if a < pos && b < pos {
                    assert(ks[a] == oks[a] && ks[b] == oks[b]);
                } else if a < pos && b == pos {
                } else if a < pos && b > pos {
                    assert(ks[b] == oks[b - 1]);
                    assert(seq_lt(oks[a], key@));
                    if b - 1 > pos {
                        assert(seq_lt(key@, oks[pos]));
                        assert(seq_lt(oks[pos], oks[b - 1]));
                        crate::text::lemma_seq_lt_transitive(key@, oks[pos], oks[b - 1]);
                    }
                    crate::text::lemma_seq_lt_transitive(oks[a], key@, oks[b - 1]);
                } else if a == pos {
                    assert(ks[b] == oks[b - 1]);
                    if b - 1 > pos {
                        assert(seq_lt(oks[pos], oks[b - 1]));
                        crate::text::lemma_seq_lt_transitive(key@, oks[pos], oks[b - 1]);
                    }
                } else {
                    assert(ks[a] == oks[a - 1] && ks[b] == oks[b - 1]);
                }
            }
            assert(strictly_increasing(ks));
            assert(!old(self)@.contains_key(key@)) by {
                if old(self)@.contains_key(key@) {
                    let j = choose|j: int| 0 <= j < old_pairs.len() && #[trigger] old_pairs[j].0 == key@;
                    if j < pos {
                        assert(seq_lt(old_pairs[j].0, key@));
                        crate::text::lemma_seq_lt_irreflexive(key@);
                    } else {
                        let oks = pair_keys(old_pairs);
                        if j > pos {
                            assert(seq_lt(oks[pos], oks[j]));
                            crate::text::lemma_seq_lt_transitive(key@, oks[pos], oks[j]);
                        }
                        crate::text::lemma_seq_lt_irreflexive(key@);
                    }
                }
            }
            assert forall|k: Seq<char>| #[trigger] self@.contains_key(k) == old(self)@.insert(key@, value).contains_key(k) by {
                if old(self)@.contains_key(k) {
                    let j = choose|j: int| 0 <= j < old_pairs.len() && #[trigger] old_pairs[j].0 == k;
                    if j < pos {
                        assert(ps[j].0 == k);
                    } else {
                        assert(ps[j + 1].0 == k);
                    }
                }
                if k == key@ {
                    assert(ps[pos].0 == k);
                }
                if self@.contains_key(k) {
                    let j = choose|j: int| 0 <= j < ps.len() && #[trigger] ps[j].0 == k;
                    if j < pos {
                        assert(old_pairs[j].0 == k);
                    } else if j > pos {
                        assert(old_pairs[j - 1].0 == k);
                    }
                }
            }
            assert forall|k: Seq<char>| #[trigger] self@.contains_key(k) implies self@[k] == old(self)@.insert(key@, value)[k] by {
                old(self).lemma_sorted();
                let j = choose|j: int| 0 <= j < ps.len() && #[trigger] ps[j].0 == k;
                self.lemma_pair_in_view(j);
                if j < pos {
                    old(self).lemma_pair_in_view(j);
                } else if j > pos {
                    old(self).lemma_pair_in_view(j - 1);
                }
            }
            assert(self@ =~= old(self)@.insert(key@, value));
        }
    }
}

} // verus!
