//! Maps from strings to strings
//!
//! Attributes of an element and namespace prefixes are kept as a list of
//! key/value pairs in which no key occurs twice: inserting a key that is
//! present replaces its value in place, a new key goes to the end. The
//! list thus behaves as a map, and keeps the order in which keys came.

use vstd::prelude::*;

verus! {

/// No key occurs twice among the pairs.
pub open spec fn keys_distinct(m: Seq<(Seq<char>, Seq<char>)>) -> bool {
    forall|i: int, j: int| 0 <= i < j < m.len() ==> m[i].0 != m[j].0
}

/// Some pair has key `k`.
pub open spec fn has_key(m: Seq<(Seq<char>, Seq<char>)>, k: Seq<char>) -> bool {
    exists|i: int| 0 <= i < m.len() && m[i].0 == k
}

/// The position of the pair with key `k`, when there is one.
pub open spec fn key_index(m: Seq<(Seq<char>, Seq<char>)>, k: Seq<char>) -> int {
    choose|i: int| 0 <= i < m.len() && m[i].0 == k
}

/// The value of key `k`, if any.
pub open spec fn map_get(m: Seq<(Seq<char>, Seq<char>)>, k: Seq<char>) -> Option<Seq<char>> {
    if has_key(m, k) {
        Some(m[key_index(m, k)].1)
    } else {
        None
    }
}

/// The pairs after setting key `k` to `v`.
pub open spec fn map_insert(m: Seq<(Seq<char>, Seq<char>)>, k: Seq<char>, v: Seq<char>) -> Seq<(Seq<char>, Seq<char>)> {
    if has_key(m, k) {
        m.update(key_index(m, k), (k, v))
    } else {
        m.push((k, v))
    }
}

/// The map that inserting the pairs one after the other builds.
pub open spec fn map_from_pairs(pairs: Seq<(Seq<char>, Seq<char>)>) -> Seq<(Seq<char>, Seq<char>)>
    decreases pairs.len(),
{
    if pairs.len() == 0 {
        Seq::empty()
    } else {
        map_insert(map_from_pairs(pairs.drop_last()), pairs.last().0, pairs.last().1)
    }
}

/// With distinct keys, the pair with key `k` is the only one.
pub proof fn lemma_key_index_unique(m: Seq<(Seq<char>, Seq<char>)>, k: Seq<char>, i: int)
    requires
        keys_distinct(m),
        0 <= i < m.len(),
        m[i].0 == k,
    ensures
        has_key(m, k),
        key_index(m, k) == i,
{
    assert(has_key(m, k));
    let j = key_index(m, k);
    if j != i {
        if j < i {
            assert(m[j].0 != m[i].0);
        } else {
            assert(m[i].0 != m[j].0);
        }
    }
}

/// Inserting keeps the keys distinct.
pub proof fn lemma_insert_keeps_keys_distinct(m: Seq<(Seq<char>, Seq<char>)>, k: Seq<char>, v: Seq<char>)
    requires
        keys_distinct(m),
    ensures
        keys_distinct(map_insert(m, k, v)),
{
    let r = map_insert(m, k, v);
    if has_key(m, k) {
        let idx = key_index(m, k);
        assert forall|i: int, j: int| 0 <= i < j < r.len() implies r[i].0 != r[j].0 by {
            assert(r[i].0 == m[i].0);
            assert(r[j].0 == m[j].0);
        }
    } else {
        assert forall|i: int, j: int| 0 <= i < j < r.len() implies r[i].0 != r[j].0 by {
            if j == m.len() {
                assert(r[i].0 == m[i].0);
            }
        }
    }
}

/// The pairs that inserting builds have distinct keys.
pub proof fn lemma_map_from_pairs_distinct(pairs: Seq<(Seq<char>, Seq<char>)>)
    ensures
        keys_distinct(map_from_pairs(pairs)),
    decreases pairs.len(),
{
    if pairs.len() > 0 {
        lemma_map_from_pairs_distinct(pairs.drop_last());
        lemma_insert_keeps_keys_distinct(map_from_pairs(pairs.drop_last()), pairs.last().0, pairs.last().1);
    }
}

/// Reading a key after inserting it gives the inserted value; reading any
/// other key gives what it gave before. The keys stay distinct.
pub proof fn lemma_map_insert_get(m: Seq<(Seq<char>, Seq<char>)>, k: Seq<char>, v: Seq<char>, k2: Seq<char>)
    requires
        keys_distinct(m),
    ensures
        map_get(map_insert(m, k, v), k) == Some(v),
        k2 != k ==> map_get(map_insert(m, k, v), k2) == map_get(m, k2),
        keys_distinct(map_insert(m, k, v)),
{
    lemma_insert_keeps_keys_distinct(m, k, v);
    let r = map_insert(m, k, v);
    if has_key(m, k) {
        let idx = key_index(m, k);
        lemma_key_index_unique(r, k, idx);
    } else {
        lemma_key_index_unique(r, k, m.len() as int);
    }
    if k2 != k {
        if has_key(m, k2) {
            let j = key_index(m, k2);
            assert(r[j].0 == k2);
            lemma_key_index_unique(r, k2, j);
        } else {
            assert forall|i: int| 0 <= i < r.len() implies r[i].0 != k2 by {
                if i < m.len() && has_key(m, k) && i == key_index(m, k) {
                } else if i < m.len() {
                    assert(r[i] == m[i]);
                }
            }
        }
    }
}

/// A map from strings to strings that keeps the order in which keys came
#[derive(Debug)]
pub struct StringMap {
    entries: Vec<(String, String)>,
}

impl View for StringMap {
    type V = Seq<(Seq<char>, Seq<char>)>;

    closed spec fn view(&self) -> Seq<(Seq<char>, Seq<char>)> {
        self.entries.deep_view()
    }
}

impl StringMap {
    #[verifier::type_invariant]
    closed spec fn inv(self) -> bool {
        keys_distinct(self.entries.deep_view())
    }

    /// An empty map
    pub fn new() -> (m: Self)
        ensures
            m@ == Seq::<(Seq<char>, Seq<char>)>::empty(),
    {
        let m = StringMap { entries: Vec::new() };
        assert(m@ =~= Seq::<(Seq<char>, Seq<char>)>::empty());
        m
    }

    /// The number of keys
    pub fn len(&self) -> (n: usize)
        ensures
            n == self@.len(),
    {
        self.entries.len()
    }

    /// The key/value pairs, in the order in which their keys came
    pub fn entries(&self) -> (r: &Vec<(String, String)>)
        ensures
            r.deep_view() == self@,
            keys_distinct(self@),
    {
        proof {
            use_type_invariant(self);
        }
        &self.entries
    }

    /// The position of the pair with key `k`, if any
    fn find(&self, k: &String) -> (r: Option<usize>)
        ensures
            keys_distinct(self@),
            match r {
                Some(i) => i < self@.len() && has_key(self@, k@) && key_index(self@, k@) == i,
                None => !has_key(self@, k@),
            },
    {
        proof {
            use_type_invariant(self);
        }
        let mut i: usize = 0;
        while i < self.entries.len()
            invariant
                i <= self.entries@.len(),
                keys_distinct(self.entries.deep_view()),
                forall|j: int| 0 <= j < i ==> self.entries.deep_view()[j].0 != k@,
            decreases self.entries.len() - i,
        {
            if self.entries[i].0 == *k {
                proof {
                    lemma_key_index_unique(self.entries.deep_view(), k@, i as int);
                }
                return Some(i);
            }
            i = i + 1;
        }
        None
    }

    /// The value of key `k`, if any
    pub fn get(&self, k: &String) -> (r: Option<&String>)
        ensures
            keys_distinct(self@),
            match r {
                Some(v) => map_get(self@, k@) == Some(v@),
                None => map_get(self@, k@) is None,
            },
    {
        match self.find(k) {
            Some(i) => Some(&self.entries[i].1),
            None => None,
        }
    }

    /// Set key `k` to `v`
    pub fn insert(&mut self, k: String, v: String)
        ensures
            final(self)@ == map_insert(old(self)@, k@, v@),
            keys_distinct(final(self)@),
    {
        let ghost kv = k@;
        let ghost vv = v@;
        let ghost before = self@;
        proof {
            use_type_invariant(&*self);
            lemma_insert_keeps_keys_distinct(before, kv, vv);
        }
        match self.find(&k) {
            Some(i) => {
                let mut entries: Vec<(String, String)> = Vec::new();
                std::mem::swap(&mut entries, &mut self.entries);
                entries.set(i, (k, v));
                proof {
                    assert(entries.deep_view() =~= before.update(i as int, (kv, vv)));
                }
                self.entries = entries;
            },
            None => {
                let mut entries: Vec<(String, String)> = Vec::new();
                std::mem::swap(&mut entries, &mut self.entries);
                entries.push((k, v));
                proof {
                    assert(entries.deep_view() =~= before.push((kv, vv)));
                }
                self.entries = entries;
            },
        }
    }
}

} // verus!
