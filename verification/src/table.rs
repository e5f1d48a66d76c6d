//! Values kept under string keys, in ascending key order (the order in
//! which a store's key scan lists them).

use vstd::prelude::*;
use crate::store::{
    compare_keys, keys_sorted, lemma_lex_asymmetric, lemma_lex_irreflexive, lemma_lex_total, lemma_lex_transitive,
    lex_lt, KeyOrder,
};
use crate::text::chars_of;

verus! {

/// Values under string keys, kept in ascending key order.
pub struct KeyedTable<V> {
    keys: Vec<Vec<char>>,
    values: Vec<V>,
    contents: Ghost<Map<Seq<char>, V>>,
}

impl<V> View for KeyedTable<V> {
    type V = Map<Seq<char>, V>;

    closed spec fn view(&self) -> Map<Seq<char>, V> {
        self.contents@
    }
}

impl<V> KeyedTable<V> {
    /// The keys in ascending order.
    pub closed spec fn key_seq(&self) -> Seq<Seq<char>> {
        self.keys.deep_view()
    }

    pub closed spec fn wf(&self) -> bool {
        &&& self.keys@.len() == self.values@.len()
        &&& keys_sorted(self.keys.deep_view())
        &&& forall|i: int|
            0 <= i < self.keys@.len() ==> #[trigger] self.contents@.contains_key(self.keys.deep_view()[i])
                && self.contents@[self.keys.deep_view()[i]] == self.values@[i]
        &&& forall|k: Seq<char>| #[trigger]
            self.contents@.contains_key(k) ==> exists|i: int| 0 <= i < self.keys@.len() && self.keys.deep_view()[i] == k
    }

    /// The key order lists each key once, in ascending order.
    pub proof fn lemma_order(&self)
        requires
            self.wf(),
        ensures
            keys_sorted(self.key_seq()),
            forall|k: Seq<char>| self@.contains_key(k) <==> self.key_seq().contains(k),
    {
        assert forall|k: Seq<char>| self@.contains_key(k) <==> self.key_seq().contains(k) by {
            if self.key_seq().contains(k) {
                let j = choose|j: int| 0 <= j < self.key_seq().len() && self.key_seq()[j] == k;
                assert(self.contents@.contains_key(self.keys.deep_view()[j]));
            }
            if self@.contains_key(k) {
                assert(self.contents@.contains_key(k));
                let j = choose|j: int| 0 <= j < self.keys@.len() && self.keys.deep_view()[j] == k;
            }
        }
    }

    /// An empty table.
    pub fn new() -> (t: Self)
        ensures
            t.wf(),
            t@ == Map::<Seq<char>, V>::empty(),
            t.key_seq() == Seq::<Seq<char>>::empty(),
    {
        let t = KeyedTable { keys: Vec::new(), values: Vec::new(), contents: Ghost(Map::empty()) };
        assert(t.key_seq() =~= Seq::<Seq<char>>::empty());
        t
    }

    /// Position of the first key not below `key`, and whether it equals `key`.
    fn locate(&self, key: &[char]) -> (r: (usize, bool))
        requires
            self.wf(),
        ensures
            r.0 <= self.keys@.len(),
            forall|j: int| 0 <= j < r.0 ==> lex_lt(#[trigger] self.keys.deep_view()[j], key@),
            r.0 < self.keys@.len() ==> !lex_lt(self.keys.deep_view()[r.0 as int], key@),
            r.1 <==> (r.0 < self.keys@.len() && self.keys.deep_view()[r.0 as int] == key@),
            r.1 <==> self@.contains_key(key@),
    {
        let mut i: usize = 0;
        while i < self.keys.len()
            invariant
                self.wf(),
                i <= self.keys@.len(),
                forall|j: int| 0 <= j < i ==> lex_lt(#[trigger] self.keys.deep_view()[j], key@),
            decreases self.keys.len() - i,
        {
            assert(self.keys@[i as int].deep_view() =~= self.keys@[i as int]@);
            match compare_keys(&self.keys[i], key) {
                KeyOrder::Less => {
                    i = i + 1;
                },
                KeyOrder::Equal => {
                    return (i, true);
                },
                KeyOrder::Greater => {
                    proof {
                        lemma_lex_asymmetric(key@, self.keys.deep_view()[i as int]);
                        assert forall|j: int| 0 <= j < self.keys@.len() implies self.keys.deep_view()[j] != key@ by {
                            if j < i {
                                lemma_lex_irreflexive(key@);
                            } else if j > i {
                                lemma_lex_transitive(key@, self.keys.deep_view()[i as int], self.keys.deep_view()[j]);
                                lemma_lex_irreflexive(key@);
                            } else {
                                lemma_lex_irreflexive(key@);
                            }
                        }
                    }
                    return (i, false);
                },
            }
        }
        proof {
            assert forall|j: int| 0 <= j < self.keys@.len() implies self.keys.deep_view()[j] != key@ by {
                lemma_lex_irreflexive(key@);
            }
        }
        (i, false)
    }

    /// What is kept under `key`, if anything.
    pub fn get(&self, key: &str) -> (r: Option<&V>)
        requires
            self.wf(),
        ensures
            match r {
                Some(v) => self@.contains_key(key@) && *v == self@[key@],
                None => !self@.contains_key(key@),
            },
    {
        let k = chars_of(key);
        let (i, found) = self.locate(&k);
        if found {
            Some(&self.values[i])
        } else {
            None
        }
    }

    /// Everything kept, in ascending key order.
    pub fn values(&self) -> (r: Vec<&V>)
        requires
            self.wf(),
        ensures
            keys_sorted(self.key_seq()),
            r@.len() == self.key_seq().len(),
            forall|i: int| 0 <= i < self.key_seq().len() ==> self@.contains_key(#[trigger] self.key_seq()[i]),
            forall|i: int| #![trigger r@[i]] 0 <= i < r@.len() ==> *r@[i] == self@[self.key_seq()[i]],
            forall|k: Seq<char>| self@.contains_key(k) ==> self.key_seq().contains(k),
    {
        let mut out: Vec<&V> = Vec::new();
        let mut i: usize = 0;
        while i < self.values.len()
            invariant
                self.wf(),
                i <= self.values@.len(),
                out@.len() == i,
                forall|j: int| 0 <= j < i ==> *out@[j] == self.values@[j],
            decreases self.values.len() - i,
        {
            out.push(&self.values[i]);
            i = i + 1;
        }
        proof {
            assert forall|j: int| 0 <= j < self.key_seq().len() implies self@.contains_key(#[trigger] self.key_seq()[j]) by {
                assert(self.contents@.contains_key(self.keys.deep_view()[j]));
            }
            assert forall|j: int| 0 <= j < out@.len() implies *#[trigger] out@[j] == self@[self.key_seq()[j]] by {
                assert(self.contents@.contains_key(self.keys.deep_view()[j]));
            }
            assert forall|k: Seq<char>| self@.contains_key(k) implies self.key_seq().contains(k) by {
                assert(self.contents@.contains_key(k));
                let j = choose|j: int| 0 <= j < self.keys@.len() && self.keys.deep_view()[j] == k;
            }
        }
        out
    }

    /// Keeps `value` under `key`, replacing what was there.
    pub fn put(&mut self, key: &str, value: V)
        requires
            old(self).wf(),
        ensures
            final(self).wf(),
            final(self)@ == old(self)@.insert(key@, value),
    {
        let k = chars_of(key);
        let (i, found) = self.locate(&k);
        let ghost old_keys = self.keys.deep_view();
        let ghost old_map = self.contents@;
        let ghost old_vals = self.values@;
        assert(forall|j: int| 0 <= j < old_keys.len() ==> old_map.contains_key(old_keys[j]) && old_map[old_keys[j]] == old_vals[j]);
        if found {
            self.values.set(i, value);
            self.contents = Ghost(old_map.insert(k@, value));
            assert forall|j: int| 0 <= j < self.keys@.len() implies #[trigger] self.contents@.contains_key(self.keys.deep_view()[j]) && self.contents@[self.keys.deep_view()[j]] == self.values@[j] by {
                if j != i {
                    lemma_lex_irreflexive(k@);
                    if j < i {
                        assert(lex_lt(old_keys[j], old_keys[i as int]));
                    } else {
                        assert(lex_lt(old_keys[i as int], old_keys[j]));
                    }
                    lemma_lex_irreflexive(old_keys[j]);
                    assert(old_keys[j] != k@);
                    assert(self.values@[j] == old_vals[j]);
                    assert(self.keys.deep_view()[j] == old_keys[j]);
                }
            }
            assert forall|kk: Seq<char>| #[trigger] self.contents@.contains_key(kk) implies exists|j: int| 0 <= j < self.keys@.len() && self.keys.deep_view()[j] == kk by {
                if kk == k@ {
                    assert(self.keys.deep_view()[i as int] == kk);
                }
            }
        } else {
            assert(k.deep_view() =~= k@);
            self.keys.insert(i, k);
            self.values.insert(i, value);
            self.contents = Ghost(old_map.insert(k@, value));
            let ghost nk = self.keys.deep_view();
            assert(nk =~= old_keys.insert(i as int, k@));
            assert(keys_sorted(nk)) by {
                assert forall|a: int, b: int| 0 <= a < b < nk.len() implies lex_lt(nk[a], nk[b]) by {
                    if b < i {
                    } else if b == i {
                    } else if a < i {
                        assert(nk[b] == old_keys[b - 1]);
                        if b - 1 > i {
                            assert(lex_lt(old_keys[i as int], old_keys[b - 1]));
                        }
                        lemma_lex_total(k@, old_keys[i as int]);
                        lemma_lex_transitive(nk[a], k@, old_keys[i as int]);
                        if b - 1 > i {
                            lemma_lex_transitive(nk[a], old_keys[i as int], old_keys[b - 1]);
                        }
                    } else if a == i {
                        lemma_lex_total(k@, old_keys[i as int]);
                        if b - 1 > i {
                            assert(lex_lt(old_keys[i as int], old_keys[b - 1]));
                            lemma_lex_transitive(k@, old_keys[i as int], old_keys[b - 1]);
                        }
                    } else {
                        assert(nk[a] == old_keys[a - 1] && nk[b] == old_keys[b - 1]);
                    }
                }
            }
            assert forall|j: int| 0 <= j < self.keys@.len() implies #[trigger] self.contents@.contains_key(self.keys.deep_view()[j]) && self.contents@[self.keys.deep_view()[j]] == self.values@[j] by {
                if j < i {
                    assert(nk[j] == old_keys[j]);
                    assert(old_keys[j] != k@);
                } else if j > i {
                    assert(nk[j] == old_keys[j - 1]);
                    assert(self.values@[j] == old_vals[j - 1]);
                    assert(old_keys[j - 1] != k@);
                }
            }
            assert forall|kk: Seq<char>| #[trigger] self.contents@.contains_key(kk) implies exists|j: int| 0 <= j < self.keys@.len() && self.keys.deep_view()[j] == kk by {
                if kk == k@ {
                    assert(nk[i as int] == kk);
                } else {
                    let j = choose|j: int| 0 <= j < old_keys.len() && old_keys[j] == kk;
                    if j < i {
                        assert(nk[j] == kk);
                    } else {
                        assert(nk[j + 1] == kk);
                    }
                }
            }
        }
    }

    /// Takes out what is kept under `key`, if anything.
    pub fn remove(&mut self, key: &str) -> (r: Option<V>)
        requires
            old(self).wf(),
        ensures
            final(self).wf(),
            final(self)@ == old(self)@.remove(key@),
            match r {
                Some(v) => old(self)@.contains_key(key@) && old(self)@[key@] == v,
                None => !old(self)@.contains_key(key@),
            },
    {
        let k = chars_of(key);
        let (i, found) = self.locate(&k);
        let ghost old_keys = self.keys.deep_view();
        let ghost old_map = self.contents@;
        let ghost old_vals = self.values@;
        assert(forall|j: int| 0 <= j < old_keys.len() ==> old_map.contains_key(old_keys[j]) && old_map[old_keys[j]] == old_vals[j]);
        if found {
            self.keys.remove(i);
            let v = self.values.remove(i);
            self.contents = Ghost(old_map.remove(k@));
            let ghost nk = self.keys.deep_view();
            assert(nk =~= old_keys.remove(i as int));
            assert forall|j: int| 0 <= j < self.keys@.len() implies #[trigger] self.contents@.contains_key(self.keys.deep_view()[j]) && self.contents@[self.keys.deep_view()[j]] == self.values@[j] by {
                lemma_lex_irreflexive(k@);
                if j < i {
                    assert(nk[j] == old_keys[j]);
                    assert(lex_lt(old_keys[j], old_keys[i as int]));
                } else {
                    assert(nk[j] == old_keys[j + 1]);
                    assert(self.values@[j] == old_vals[j + 1]);
                    assert(lex_lt(old_keys[i as int], old_keys[j + 1]));
                    lemma_lex_irreflexive(old_keys[j + 1]);
                }
            }
            assert forall|kk: Seq<char>| #[trigger] self.contents@.contains_key(kk) implies exists|j: int| 0 <= j < self.keys@.len() && self.keys.deep_view()[j] == kk by {
                let j = choose|j: int| 0 <= j < old_keys.len() && old_keys[j] == kk;
                if j < i {
                    assert(nk[j] == kk);
                } else {
                    assert(j != i);
                    assert(nk[j - 1] == kk);
                }
            }
            Some(v)
        } else {
            assert(old_map.remove(k@) =~= old_map);
            None
        }
    }

}

} // verus!
