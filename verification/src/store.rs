//! Key-value storage: raw byte values under string keys, scanned by key prefix
//! in ascending key order.

use vstd::prelude::*;
use crate::text::{chars_of, string_from_chars};

verus! {

/// Why a store operation failed.
#[derive(Debug, Clone, PartialEq, Eq)]
pub enum StoreError {
    /// A value could not be encoded or decoded (`Serialization error: {0}`).
    Serialization(String),
    /// The backing storage failed (`Database error: {0}`).
    Database(String),
    /// Nothing under the key (`Not found: {0}`).
    NotFound(String),
}

/// Ordering of two keys, as `String`'s `Ord` orders them (by chars).
#[derive(Debug, Clone, Copy, PartialEq, Eq, Structural)]
pub enum KeyOrder {
    Less,
    Equal,
    Greater,
}

/// Lexicographic order on char sequences (that of `String::cmp`).
pub open spec fn lex_lt(a: Seq<char>, b: Seq<char>) -> bool
    decreases a.len(),
{
    if a.len() == 0 {
        b.len() > 0
    } else if b.len() == 0 {
        false
    } else if a[0] < b[0] {
        true
    } else if a[0] > b[0] {
        false
    } else {
        lex_lt(a.drop_first(), b.drop_first())
    }
}

pub proof fn lemma_lex_irreflexive(a: Seq<char>)
    ensures
        !lex_lt(a, a),
    decreases a.len(),
{
    if a.len() > 0 {
        lemma_lex_irreflexive(a.drop_first());
    }
}

pub proof fn lemma_lex_asymmetric(a: Seq<char>, b: Seq<char>)
    ensures
        !(lex_lt(a, b) && lex_lt(b, a)),
    decreases a.len(),
{
    if a.len() > 0 && b.len() > 0 && a[0] == b[0] {
        lemma_lex_asymmetric(a.drop_first(), b.drop_first());
    }
}

pub proof fn lemma_lex_transitive(a: Seq<char>, b: Seq<char>, c: Seq<char>)
    requires
        lex_lt(a, b),
        lex_lt(b, c),
    ensures
        lex_lt(a, c),
    decreases a.len(),
{
    if a.len() > 0 && b.len() > 0 && c.len() > 0 && a[0] == b[0] && b[0] == c[0] {
        lemma_lex_transitive(a.drop_first(), b.drop_first(), c.drop_first());
    }
}

pub proof fn lemma_lex_total(a: Seq<char>, b: Seq<char>)
    requires
        a != b,
    ensures
        lex_lt(a, b) || lex_lt(b, a),
    decreases a.len(),
{
    if a.len() > 0 && b.len() > 0 && a[0] == b[0] {
        if a.drop_first() == b.drop_first() {
            assert(a =~= seq![a[0]] + a.drop_first());
            assert(b =~= seq![b[0]] + b.drop_first());
        }
        lemma_lex_total(a.drop_first(), b.drop_first());
    } else if a.len() == 0 && b.len() == 0 {
        assert(a =~= b);
    }
}

/// `<=` in the order of `lex_lt` is transitive.
pub proof fn lemma_lex_le_transitive(a: Seq<char>, b: Seq<char>, c: Seq<char>)
    requires
        !lex_lt(b, a),
        !lex_lt(c, b),
    ensures
        !lex_lt(c, a),
{
    if a != b {
        lemma_lex_total(a, b);
    }
    if b != c {
        lemma_lex_total(b, c);
    }
    if a != b && b != c {
        lemma_lex_transitive(a, b, c);
        lemma_lex_asymmetric(a, c);
    } else if a == b && b != c {
        lemma_lex_asymmetric(b, c);
    } else if a != b && b == c {
        lemma_lex_asymmetric(a, b);
    } else {
        lemma_lex_irreflexive(a);
    }
}

/// Compares two keys char by char.
pub fn compare_keys(a: &[char], b: &[char]) -> (o: KeyOrder)
    ensures
        o is Less <==> lex_lt(a@, b@),
        o is Equal <==> a@ == b@,
        o is Greater <==> lex_lt(b@, a@),
{
    proof {
        lemma_lex_asymmetric(a@, b@);
        lemma_lex_irreflexive(a@);
        if a@ != b@ {
            lemma_lex_total(a@, b@);
        }
    }
    let mut i: usize = 0;
    assert(a@.skip(0) =~= a@ && b@.skip(0) =~= b@);
    while i < a.len() && i < b.len()
        invariant
            i <= a@.len(),
            i <= b@.len(),
            a@.take(i as int) == b@.take(i as int),
            lex_lt(a@, b@) == lex_lt(a@.skip(i as int), b@.skip(i as int)),
            lex_lt(b@, a@) == lex_lt(b@.skip(i as int), a@.skip(i as int)),
        decreases a.len() - i,
    {
        let x = a[i];
        let y = b[i];
        if x < y {
            return KeyOrder::Less;
        }
        if x > y {
            return KeyOrder::Greater;
        }
        assert(a@.skip(i as int).drop_first() =~= a@.skip(i + 1));
        assert(b@.skip(i as int).drop_first() =~= b@.skip(i + 1));
        assert(x == y);
        assert(a@.take(i + 1) =~= a@.take(i as int).push(x));
        assert(b@.take(i + 1) =~= b@.take(i as int).push(y));
        i = i + 1;
    }
    if i == a.len() && i == b.len() {
        assert(a@ =~= a@.take(i as int));
        assert(b@ =~= b@.take(i as int));
        KeyOrder::Equal
    } else if i == a.len() {
        KeyOrder::Less
    } else {
        KeyOrder::Greater
    }
}

/// Whether `p` is a prefix of `s` (`str::starts_with`).
pub fn starts_with(s: &[char], p: &[char]) -> (b: bool)
    ensures
        b == p@.is_prefix_of(s@),
{
    if p.len() > s.len() {
        return false;
    }
    let mut i: usize = 0;
    while i < p.len()
        invariant
            p@.len() <= s@.len(),
            i <= p@.len(),
            forall|j: int| 0 <= j < i ==> p@[j] == s@[j],
        decreases p.len() - i,
    {
        if p[i] != s[i] {
            return false;
        }
        i = i + 1;
    }
    true
}

/// Every key of `m` that starts with `prefix` is among `keys`.
pub open spec fn covers_prefix(m: Map<Seq<char>, Seq<u8>>, prefix: Seq<char>, keys: Seq<Seq<char>>) -> bool {
    forall|k: Seq<char>| m.contains_key(k) && prefix.is_prefix_of(k) ==> keys.contains(k)
}

pub open spec fn keys_sorted(keys: Seq<Seq<char>>) -> bool {
    forall|i: int, j: int| 0 <= i < j < keys.len() ==> lex_lt(keys[i], keys[j])
}

/// In-memory key-value store; keys are kept in ascending order.
pub struct InMemoryStore {
    keys: Vec<Vec<char>>,
    values: Vec<Vec<u8>>,
    contents: Ghost<Map<Seq<char>, Seq<u8>>>,
}

impl View for InMemoryStore {
    type V = Map<Seq<char>, Seq<u8>>;

    closed spec fn view(&self) -> Map<Seq<char>, Seq<u8>> {
        self.contents@
    }
}

impl InMemoryStore {
    pub closed spec fn wf(&self) -> bool {
        &&& self.keys@.len() == self.values@.len()
        &&& keys_sorted(self.keys.deep_view())
        &&& forall|i: int|
            0 <= i < self.keys@.len() ==> #[trigger] self.contents@.contains_key(
                self.keys.deep_view()[i],
            ) && self.contents@[self.keys.deep_view()[i]] == self.values@[i]@
        &&& forall|k: Seq<char>| #[trigger]
            self.contents@.contains_key(k) ==> exists|i: int|
                0 <= i < self.keys@.len() && self.keys.deep_view()[i] == k
    }

    /// An empty store.
    pub fn new() -> (s: InMemoryStore)
        ensures
            s.wf(),
            s@ == Map::<Seq<char>, Seq<u8>>::empty(),
    {
        InMemoryStore { keys: Vec::new(), values: Vec::new(), contents: Ghost(Map::empty()) }
    }

    /// Position of the first key not below `key`, and whether it equals `key`.
    fn locate(&self, key: &[char]) -> (r: (usize, bool))
        requires
            self.wf(),
        ensures
            r.0 <= self.keys@.len(),
            forall|j: int| 0 <= j < r.0 ==> lex_lt(#[trigger] self.keys.deep_view()[j], key@),
            r.0 < self.keys@.len() ==> !lex_lt(self.keys.deep_view()[r.0 as int], key@),
            r.1 <==> (r.0 < self.keys@.len() && self.keys.deep_view()[r.0 as int] == key@),
            r.1 <==> self@.contains_key(key@),
    {
        let mut i: usize = 0;
        while i < self.keys.len()
            invariant
                self.wf(),
                i <= self.keys@.len(),
                forall|j: int| 0 <= j < i ==> lex_lt(#[trigger] self.keys.deep_view()[j], key@),
            decreases self.keys.len() - i,
        {
            assert(self.keys@[i as int].deep_view() =~= self.keys@[i as int]@);
            match compare_keys(&self.keys[i], key) {
                KeyOrder::Less => {
                    i = i + 1;
                },
                KeyOrder::Equal => {
                    return (i, true);
                },
                KeyOrder::Greater => {
                    proof {
                        lemma_lex_asymmetric(key@, self.keys.deep_view()[i as int]);
                        assert forall|j: int| 0 <= j < self.keys@.len() implies self.keys.deep_view()[j] != key@ by {
                            if j < i {
                                lemma_lex_irreflexive(key@);
                            } else if j > i {
                                lemma_lex_transitive(key@, self.keys.deep_view()[i as int], self.keys.deep_view()[j]);
                                lemma_lex_irreflexive(key@);
                            } else {
                                lemma_lex_irreflexive(key@);
                            }
                        }
                    }
                    return (i, false);
                },
            }
        }
        proof {
            assert forall|j: int| 0 <= j < self.keys@.len() implies self.keys.deep_view()[j] != key@ by {
                lemma_lex_irreflexive(key@);
            }
        }
        (i, false)
    }

    /// The value stored under `key`, if any.
    pub fn get_raw(&self, key: &str) -> (r: Result<Option<Vec<u8>>, StoreError>)
        requires
            self.wf(),
        ensures
            r matches Ok(o) && match o {
                Some(v) => self@.contains_key(key@) && self@[key@] == v@,
                None => !self@.contains_key(key@),
            },
    {
        let k = chars_of(key);
        let (i, found) = self.locate(&k);
        if found {
            let v = self.values[i].clone();
            assert(v@ =~= self.values@[i as int]@);
            Ok(Some(v))
        } else {
            Ok(None)
        }
    }

    /// Stores `value` under `key`, replacing what was there.
    pub fn set_raw(&mut self, key: &str, value: Vec<u8>) -> (r: Result<(), StoreError>)
        requires
            old(self).wf(),
        ensures
            final(self).wf(),
            r is Ok,
            final(self)@ == old(self)@.insert(key@, value@),
    {
        let k = chars_of(key);
        let (i, found) = self.locate(&k);
        let ghost old_keys = self.keys.deep_view();
        let ghost old_map = self.contents@;
        let ghost old_vals = self.values@;
        assert(forall|j: int| 0 <= j < old_keys.len() ==> old_map.contains_key(old_keys[j]) && old_map[old_keys[j]] == old_vals[j]@);
        if found {
            self.values.set(i, value);
            self.contents = Ghost(old_map.insert(k@, value@));
            assert forall|j: int| 0 <= j < self.keys@.len() implies #[trigger] self.contents@.contains_key(self.keys.deep_view()[j]) && self.contents@[self.keys.deep_view()[j]] == self.values@[j]@ by {
                if j != i {
                    lemma_lex_irreflexive(k@);
                    if j < i {
                        assert(lex_lt(old_keys[j], old_keys[i as int]));
                    } else {
                        assert(lex_lt(old_keys[i as int], old_keys[j]));
                    }
                    lemma_lex_irreflexive(old_keys[j]);
                    assert(old_keys[j] != k@);
                    assert(self.values@[j] == old_vals[j]);
                    assert(self.keys.deep_view()[j] == old_keys[j]);
                }
            }
            assert forall|kk: Seq<char>| #[trigger] self.contents@.contains_key(kk) implies exists|j: int| 0 <= j < self.keys@.len() && self.keys.deep_view()[j] == kk by {
                if kk == k@ {
                    assert(self.keys.deep_view()[i as int] == kk);
                }
            }
        } else {
            assert(k.deep_view() =~= k@);
            self.keys.insert(i, k);
            self.values.insert(i, value);
            self.contents = Ghost(old_map.insert(k@, value@));
            let ghost nk = self.keys.deep_view();
            assert(nk =~= old_keys.insert(i as int, k@));
            assert(keys_sorted(nk)) by {
                assert forall|a: int, b: int| 0 <= a < b < nk.len() implies lex_lt(nk[a], nk[b]) by {
                    if b < i {
                    } else if b == i {
                    } else if a < i {
                        assert(nk[b] == old_keys[b - 1]);
                        if b - 1 > i {
                            assert(lex_lt(old_keys[i as int], old_keys[b - 1]));
                        }
                        lemma_lex_total(k@, old_keys[i as int]);
                        lemma_lex_transitive(nk[a], k@, old_keys[i as int]);
                        if b - 1 > i {
                            lemma_lex_transitive(nk[a], old_keys[i as int], old_keys[b - 1]);
                        }
                    } else if a == i {
                        lemma_lex_total(k@, old_keys[i as int]);
                        if b - 1 > i {
                            assert(lex_lt(old_keys[i as int], old_keys[b - 1]));
                            lemma_lex_transitive(k@, old_keys[i as int], old_keys[b - 1]);
                        }
                    } else {
                        assert(nk[a] == old_keys[a - 1] && nk[b] == old_keys[b - 1]);
                    }
                }
            }
            assert forall|j: int| 0 <= j < self.keys@.len() implies #[trigger] self.contents@.contains_key(self.keys.deep_view()[j]) && self.contents@[self.keys.deep_view()[j]] == self.values@[j]@ by {
                if j < i {
                    assert(nk[j] == old_keys[j]);
                    assert(old_keys[j] != k@);
                } else if j > i {
                    assert(nk[j] == old_keys[j - 1]);
                    assert(self.values@[j] == old_vals[j - 1]);
                    assert(old_keys[j - 1] != k@);
                }
            }
            assert forall|kk: Seq<char>| #[trigger] self.contents@.contains_key(kk) implies exists|j: int| 0 <= j < self.keys@.len() && self.keys.deep_view()[j] == kk by {
                if kk == k@ {
                    assert(nk[i as int] == kk);
                } else {
                    let j = choose|j: int| 0 <= j < old_keys.len() && old_keys[j] == kk;
                    if j < i {
                        assert(nk[j] == kk);
                    } else {
                        assert(nk[j + 1] == kk);
                    }
                }
            }
        }
        Ok(())
    }

    /// Removes whatever is stored under `key`.
    pub fn delete(&mut self, key: &str) -> (r: Result<(), StoreError>)
        requires
            old(self).wf(),
        ensures
            final(self).wf(),
            r is Ok,
            final(self)@ == old(self)@.remove(key@),
    {
        let k = chars_of(key);
        let (i, found) = self.locate(&k);
        let ghost old_keys = self.keys.deep_view();
        let ghost old_map = self.contents@;
        let ghost old_vals = self.values@;
        assert(forall|j: int| 0 <= j < old_keys.len() ==> old_map.contains_key(old_keys[j]) && old_map[old_keys[j]] == old_vals[j]@);
        if found {
            self.keys.remove(i);
            self.values.remove(i);
            self.contents = Ghost(old_map.remove(k@));
            let ghost nk = self.keys.deep_view();
            assert(nk =~= old_keys.remove(i as int));
            assert forall|j: int| 0 <= j < self.keys@.len() implies #[trigger] self.contents@.contains_key(self.keys.deep_view()[j]) && self.contents@[self.keys.deep_view()[j]] == self.values@[j]@ by {
                lemma_lex_irreflexive(k@);
                if j < i {
                    assert(nk[j] == old_keys[j]);
                    assert(lex_lt(old_keys[j], old_keys[i as int]));
                } else {
                    assert(nk[j] == old_keys[j + 1]);
                    assert(self.values@[j] == old_vals[j + 1]);
                    assert(lex_lt(old_keys[i as int], old_keys[j + 1]));
                    lemma_lex_irreflexive(old_keys[j + 1]);
                }
            }
            assert forall|kk: Seq<char>| #[trigger] self.contents@.contains_key(kk) implies exists|j: int| 0 <= j < self.keys@.len() && self.keys.deep_view()[j] == kk by {
                let j = choose|j: int| 0 <= j < old_keys.len() && old_keys[j] == kk;
                if j < i {
                    assert(nk[j] == kk);
                } else {
                    assert(j != i);
                    assert(nk[j - 1] == kk);
                }
            }
        } else {
            assert(old_map.remove(k@) =~= old_map);
        }
        Ok(())
    }

    /// Whether something is stored under `key`.
    pub fn key_exists(&self, key: &str) -> (r: Result<bool, StoreError>)
        requires
            self.wf(),
        ensures
            r == Ok::<bool, StoreError>(self@.contains_key(key@)),
    {
        let k = chars_of(key);
        let (_, found) = self.locate(&k);
        Ok(found)
    }

    /// Removes everything.
    pub fn clear(&mut self) -> (r: Result<(), StoreError>)
        requires
            old(self).wf(),
        ensures
            final(self).wf(),
            r is Ok,
            final(self)@ == Map::<Seq<char>, Seq<u8>>::empty(),
    {
        self.keys = Vec::new();
        self.values = Vec::new();
        self.contents = Ghost(Map::empty());
        Ok(())
    }

    /// Positions, ascending, of the keys that start with `prefix`.
    fn matching(&self, prefix: &[char]) -> (idx: Vec<usize>)
        requires
            self.wf(),
        ensures
            forall|a: int, b: int| 0 <= a < b < idx@.len() ==> idx@[a] < idx@[b],
            forall|a: int| #![trigger idx@[a]] 0 <= a < idx@.len() ==> idx@[a] < self.keys@.len() && prefix@.is_prefix_of(self.keys.deep_view()[idx@[a] as int]),
            forall|m: int| 0 <= m < self.keys@.len() && prefix@.is_prefix_of(#[trigger] self.keys.deep_view()[m]) ==> exists|a: int| 0 <= a < idx@.len() && idx@[a] == m,
    {
        let mut idx: Vec<usize> = Vec::new();
        let mut i: usize = 0;
        while i < self.keys.len()
            invariant
                self.wf(),
                i <= self.keys@.len(),
                forall|a: int, b: int| 0 <= a < b < idx@.len() ==> idx@[a] < idx@[b],
                forall|a: int| #![trigger idx@[a]] 0 <= a < idx@.len() ==> idx@[a] < i && prefix@.is_prefix_of(self.keys.deep_view()[idx@[a] as int]),
                forall|m: int| 0 <= m < i && prefix@.is_prefix_of(#[trigger] self.keys.deep_view()[m]) ==> exists|a: int| 0 <= a < idx@.len() && idx@[a] == m,
            decreases self.keys.len() - i,
        {
            assert(self.keys@[i as int].deep_view() =~= self.keys@[i as int]@);
            if starts_with(&self.keys[i], prefix) {
                let ghost before = idx@;
                idx.push(i);
                assert forall|m: int| 0 <= m < i + 1 && prefix@.is_prefix_of(#[trigger] self.keys.deep_view()[m]) implies exists|a: int| 0 <= a < idx@.len() && idx@[a] == m by {
                    if m == i {
                        assert(idx@[before.len() as int] == m);
                    } else {
                        let a = choose|a: int| 0 <= a < before.len() && before[a] == m;
                        assert(idx@[a] == m);
                    }
                }
            }
            i = i + 1;
        }
        idx
    }

    /// The entries whose keys start with `prefix`, in ascending key order.
    pub fn scan_prefix_raw(&self, prefix: &str) -> (r: Result<Vec<(String, Vec<u8>)>, StoreError>)
        requires
            self.wf(),
        ensures
            r is Ok,
            r matches Ok(v) ==> forall|a: int, b: int| 0 <= a < b < v@.len() ==> lex_lt(v@[a].0@, v@[b].0@),
            r matches Ok(v) ==> forall|a: int| 0 <= a < v@.len() ==> self@.contains_key(#[trigger] v@[a].0@) && prefix@.is_prefix_of(v@[a].0@) && self@[v@[a].0@] == v@[a].1@,
            r matches Ok(v) ==> covers_prefix(self@, prefix@, v@.map_values(|e: (String, Vec<u8>)| e.0@)),
    {
        let p = chars_of(prefix);
        let idx = self.matching(&p);
        let ghost ks = self.keys.deep_view();
        let mut out: Vec<(String, Vec<u8>)> = Vec::new();
        let mut j: usize = 0;
        while j < idx.len()
            invariant
                self.wf(),
                ks == self.keys.deep_view(),
                j <= idx@.len(),
                out@.len() == j,
                forall|a: int, b: int| 0 <= a < b < idx@.len() ==> idx@[a] < idx@[b],
                forall|a: int| #![trigger idx@[a]] 0 <= a < idx@.len() ==> idx@[a] < self.keys@.len() && p@.is_prefix_of(ks[idx@[a] as int]),
                forall|a: int| 0 <= a < j ==> (#[trigger] out@[a]).0@ == ks[idx@[a] as int] && out@[a].1@ == self.values@[idx@[a] as int]@,
            decreases idx.len() - j,
        {
            let m: usize = idx[j];
            let key = string_from_chars(&self.keys[m]);
            assert(self.keys@[m as int].deep_view() =~= self.keys@[m as int]@);
            let val = self.values[m].clone();
            assert(val@ =~= self.values@[m as int]@);
            out.push((key, val));
            j = j + 1;
        }
        proof {
            assert forall|a: int, b: int| 0 <= a < b < out@.len() implies lex_lt(out@[a].0@, out@[b].0@) by {
                assert(idx@[a] < idx@[b]);
            }
            assert forall|a: int| 0 <= a < out@.len() implies self@.contains_key(#[trigger] out@[a].0@) && p@.is_prefix_of(out@[a].0@) && self@[out@[a].0@] == out@[a].1@ by {
                let m = idx@[a] as int;
                assert(self.contents@.contains_key(ks[m]));
            }
            assert forall|k: Seq<char>| self@.contains_key(k) && p@.is_prefix_of(k) implies exists|a: int| 0 <= a < out@.len() && #[trigger] out@[a].0@ == k by {
                assert(self.contents@.contains_key(k));
                let m = choose|m: int| 0 <= m < self.keys@.len() && ks[m] == k;
                assert(p@.is_prefix_of(ks[m]));
                let a = choose|a: int| 0 <= a < idx@.len() && idx@[a] == m;
                assert(out@[a].0@ == k);
            }
            assert(p@ == prefix@);
            assert(forall|a: int, b: int| 0 <= a < b < out@.len() ==> lex_lt(out@[a].0@, out@[b].0@));
            assert(forall|a: int| 0 <= a < out@.len() ==> self@.contains_key(#[trigger] out@[a].0@) && prefix@.is_prefix_of(out@[a].0@) && self@[out@[a].0@] == out@[a].1@);
            let ghost km = out@.map_values(|e: (String, Vec<u8>)| e.0@);
            assert forall|k: Seq<char>| self@.contains_key(k) && prefix@.is_prefix_of(k) implies km.contains(k) by {
                let a = choose|a: int| 0 <= a < out@.len() && #[trigger] out@[a].0@ == k;
                assert(km[a] == k);
            }
        }
        Ok(out)
    }

    /// The keys that start with `prefix`, in ascending order.
    pub fn list_keys(&self, prefix: &str) -> (r: Result<Vec<String>, StoreError>)
        requires
            self.wf(),
        ensures
            r is Ok,
            r matches Ok(v) ==> forall|a: int, b: int| 0 <= a < b < v@.len() ==> lex_lt(v@[a]@, v@[b]@),
            r matches Ok(v) ==> forall|a: int| 0 <= a < v@.len() ==> self@.contains_key(#[trigger] v@[a]@) && prefix@.is_prefix_of(v@[a]@),
            r matches Ok(v) ==> covers_prefix(self@, prefix@, v@.map_values(|e: String| e@)),
    {
        let p = chars_of(prefix);
        let idx = self.matching(&p);
        let ghost ks = self.keys.deep_view();
        let mut out: Vec<String> = Vec::new();
        let mut j: usize = 0;
        while j < idx.len()
            invariant
                self.wf(),
                ks == self.keys.deep_view(),
                j <= idx@.len(),
                out@.len() == j,
                forall|a: int| 0 <= a < idx@.len() ==> idx@[a] < self.keys@.len(),
                forall|a: int| 0 <= a < j ==> (#[trigger] out@[a])@ == ks[idx@[a] as int],
            decreases idx.len() - j,
        {
            let m: usize = idx[j];
            let key = string_from_chars(&self.keys[m]);
            assert(self.keys@[m as int].deep_view() =~= self.keys@[m as int]@);
            out.push(key);
            j = j + 1;
        }
        proof {
            assert forall|a: int, b: int| 0 <= a < b < out@.len() implies lex_lt(out@[a]@, out@[b]@) by {
                assert(idx@[a] < idx@[b]);
            }
            assert forall|a: int| 0 <= a < out@.len() implies self@.contains_key(#[trigger] out@[a]@) && p@.is_prefix_of(out@[a]@) by {
                let m = idx@[a] as int;
                assert(self.contents@.contains_key(ks[m]));
            }
            assert forall|k: Seq<char>| self@.contains_key(k) && p@.is_prefix_of(k) implies exists|a: int| 0 <= a < out@.len() && #[trigger] out@[a]@ == k by {
                assert(self.contents@.contains_key(k));
                let m = choose|m: int| 0 <= m < self.keys@.len() && ks[m] == k;
                assert(p@.is_prefix_of(ks[m]));
                let a = choose|a: int| 0 <= a < idx@.len() && idx@[a] == m;
                assert(out@[a]@ == k);
            }
            let ghost km = out@.map_values(|e: String| e@);
            assert forall|k: Seq<char>| self@.contains_key(k) && prefix@.is_prefix_of(k) implies km.contains(k) by {
                let a = choose|a: int| 0 <= a < out@.len() && #[trigger] out@[a]@ == k;
                assert(km[a] == k);
            }
        }
        Ok(out)
    }
}

/// A key-value store of raw bytes: what the services persist their records in.
pub trait Store {
    /// What the store holds.
    spec fn store_view(&self) -> Map<Seq<char>, Seq<u8>>;

    spec fn store_wf(&self) -> bool;

    fn get_raw(&self, key: &str) -> (r: Result<Option<Vec<u8>>, StoreError>)
        requires
            self.store_wf(),
        ensures
            r matches Ok(Some(v)) ==> self.store_view().contains_key(key@) && self.store_view()[key@] == v@,
            r matches Ok(None) ==> !self.store_view().contains_key(key@);

    fn set_raw(&mut self, key: &str, value: Vec<u8>) -> (r: Result<(), StoreError>)
        requires
            old(self).store_wf(),
        ensures
            final(self).store_wf(),
            r is Ok ==> final(self).store_view() == old(self).store_view().insert(key@, value@);

    fn delete(&mut self, key: &str) -> (r: Result<(), StoreError>)
        requires
            old(self).store_wf(),
        ensures
            final(self).store_wf(),
            r is Ok ==> final(self).store_view() == old(self).store_view().remove(key@);

    fn key_exists(&self, key: &str) -> (r: Result<bool, StoreError>)
        requires
            self.store_wf(),
        ensures
            r matches Ok(b) ==> b == self.store_view().contains_key(key@);

    fn scan_prefix_raw(&self, prefix: &str) -> (r: Result<Vec<(String, Vec<u8>)>, StoreError>)
        requires
            self.store_wf(),
        ensures
            r matches Ok(v) ==> forall|a: int, b: int| 0 <= a < b < v@.len() ==> lex_lt(v@[a].0@, v@[b].0@),
            r matches Ok(v) ==> forall|a: int| 0 <= a < v@.len() ==> self.store_view().contains_key(#[trigger] v@[a].0@) && prefix@.is_prefix_of(v@[a].0@) && self.store_view()[v@[a].0@] == v@[a].1@,
            r matches Ok(v) ==> covers_prefix(self.store_view(), prefix@, v@.map_values(|e: (String, Vec<u8>)| e.0@));

    fn list_keys(&self, prefix: &str) -> (r: Result<Vec<String>, StoreError>)
        requires
            self.store_wf(),
        ensures
            r matches Ok(v) ==> forall|a: int, b: int| 0 <= a < b < v@.len() ==> lex_lt(v@[a]@, v@[b]@),
            r matches Ok(v) ==> forall|a: int| 0 <= a < v@.len() ==> self.store_view().contains_key(#[trigger] v@[a]@) && prefix@.is_prefix_of(v@[a]@),
            r matches Ok(v) ==> covers_prefix(self.store_view(), prefix@, v@.map_values(|e: String| e@));

    fn clear(&mut self) -> (r: Result<(), StoreError>)
        requires
            old(self).store_wf(),
        ensures
            final(self).store_wf(),
            r is Ok ==> final(self).store_view() == Map::<Seq<char>, Seq<u8>>::empty();
}

impl Store for InMemoryStore {
    open spec fn store_view(&self) -> Map<Seq<char>, Seq<u8>> {
        self@
    }

    open spec fn store_wf(&self) -> bool {
        self.wf()
    }

    fn get_raw(&self, key: &str) -> (r: Result<Option<Vec<u8>>, StoreError>)
        ensures
            r matches Ok(o) && match o {
                Some(v) => self@.contains_key(key@) && self@[key@] == v@,
                None => !self@.contains_key(key@),
            },
    {
        InMemoryStore::get_raw(self, key)
    }

    fn set_raw(&mut self, key: &str, value: Vec<u8>) -> (r: Result<(), StoreError>)
        ensures
            r is Ok,
            final(self)@ == old(self)@.insert(key@, value@),
    {
        InMemoryStore::set_raw(self, key, value)
    }

    fn delete(&mut self, key: &str) -> (r: Result<(), StoreError>)
        ensures
            r is Ok,
            final(self)@ == old(self)@.remove(key@),
    {
        InMemoryStore::delete(self, key)
    }

    fn key_exists(&self, key: &str) -> (r: Result<bool, StoreError>)
        ensures
            r == Ok::<bool, StoreError>(self@.contains_key(key@)),
    {
        InMemoryStore::key_exists(self, key)
    }

    fn scan_prefix_raw(&self, prefix: &str) -> (r: Result<Vec<(String, Vec<u8>)>, StoreError>)
        ensures
            r is Ok,
    {
        InMemoryStore::scan_prefix_raw(self, prefix)
    }

    fn list_keys(&self, prefix: &str) -> (r: Result<Vec<String>, StoreError>)
        ensures
            r is Ok,
    {
        InMemoryStore::list_keys(self, prefix)
    }

    fn clear(&mut self) -> (r: Result<(), StoreError>)
        ensures
            r is Ok,
            final(self)@ == Map::<Seq<char>, Seq<u8>>::empty(),
    {
        InMemoryStore::clear(self)
    }
}

/// A read gives back what the last write under the same key wrote, and writes
/// under other keys leave it alone.
pub proof fn law_read_after_write(m: Map<Seq<char>, Seq<u8>>, k: Seq<char>, v: Seq<u8>, other: Seq<char>)
    ensures
        m.insert(k, v).contains_key(k) && m.insert(k, v)[k] == v,
        other != k ==> (m.insert(k, v).contains_key(other) == m.contains_key(other)),
        other != k && m.contains_key(other) ==> m.insert(k, v)[other] == m[other],
{
}

/// After a delete, nothing is stored under the key; other keys keep their values.
pub proof fn law_read_after_delete(m: Map<Seq<char>, Seq<u8>>, k: Seq<char>, other: Seq<char>)
    ensures
        !m.remove(k).contains_key(k),
        other != k ==> (m.remove(k).contains_key(other) == m.contains_key(other)),
        other != k && m.contains_key(other) ==> m.remove(k)[other] == m[other],
{
}

/// Key order is a strict total order, so a prefix scan has one possible result:
/// two ascending key lists holding the same keys are equal.
pub proof fn law_scan_order_unique(a: Seq<Seq<char>>, b: Seq<Seq<char>>)
    requires
        keys_sorted(a),
        keys_sorted(b),
        forall|k: Seq<char>| a.contains(k) <==> b.contains(k),
    ensures
        a == b,
    decreases a.len() + b.len(),
{
    if a.len() == 0 {
        if b.len() > 0 {
            assert(b.contains(b[0]));
        }
        assert(a =~= b);
    } else if b.len() == 0 {
        assert(a.contains(a[0]));
    } else {
        let x = a.last();
        let y = b.last();
        assert(a.contains(x));
        assert(b.contains(y));
        let i = choose|i: int| 0 <= i < b.len() && b[i] == x;
        let j = choose|j: int| 0 <= j < a.len() && a[j] == y;
        if i < b.len() - 1 {
            assert(lex_lt(b[i], y));
            if j < a.len() - 1 {
                assert(lex_lt(a[j], x));
                lemma_lex_asymmetric(x, y);
            } else {
                lemma_lex_irreflexive(x);
            }
        }
        if j < a.len() - 1 {
            assert(lex_lt(a[j], x));
            lemma_lex_irreflexive(y);
        }
        assert(x == y);
        let a2 = a.drop_last();
        let b2 = b.drop_last();
        assert forall|k: Seq<char>| a2.contains(k) <==> b2.contains(k) by {
            if a2.contains(k) {
                let p = choose|p: int| 0 <= p < a2.len() && a2[p] == k;
                assert(lex_lt(a[p], x));
                lemma_lex_irreflexive(x);
                assert(a.contains(k));
                let q = choose|q: int| 0 <= q < b.len() && b[q] == k;
                if q == b.len() - 1 {
                    assert(k == x);
                }
                assert(b2[q] == k);
            }
            if b2.contains(k) {
                let p = choose|p: int| 0 <= p < b2.len() && b2[p] == k;
                assert(lex_lt(b[p], y));
                lemma_lex_irreflexive(y);
                assert(b.contains(k));
                let q = choose|q: int| 0 <= q < a.len() && a[q] == k;
                if q == a.len() - 1 {
                    assert(k == y);
                }
                assert(a2[q] == k);
            }
        }
        law_scan_order_unique(a2, b2);
        assert(a =~= a2.push(x));
        assert(b =~= b2.push(y));
    }
}

} // verus!
