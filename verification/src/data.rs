//! Raw key-value storage: a small store of byte records under string keys,
//! modeled as a mathematical map from character sequences to byte sequences.

use vstd::prelude::*;

verus! {

/// The stored keys are pairwise distinct (as character sequences).
pub open spec fn keys_distinct(s: Seq<(String, Vec<u8>)>) -> bool {
    forall|i: int, j: int| #![trigger s[i], s[j]] 0 <= i < j < s.len() ==> s[i].0@ != s[j].0@
}

/// Some entry of `s` carries the key `k`.
pub open spec fn has_key(s: Seq<(String, Vec<u8>)>, k: Seq<char>) -> bool {
    exists|i: int| 0 <= i < s.len() && s[i].0@ == k
}

/// The mathematical map an entry sequence stands for.
pub open spec fn entries_map(s: Seq<(String, Vec<u8>)>) -> Map<Seq<char>, Seq<u8>> {
    Map::new(
        |k: Seq<char>| has_key(s, k),
        |k: Seq<char>| s[choose|i: int| 0 <= i < s.len() && s[i].0@ == k].1@,
    )
}

/// With distinct keys, the entry at `i` is exactly what the map stores under
/// its key.
proof fn lemma_entry_lookup(s: Seq<(String, Vec<u8>)>, i: int)
    requires
        keys_distinct(s),
        0 <= i < s.len(),
    ensures
        entries_map(s).contains_key(s[i].0@),
        entries_map(s)[s[i].0@] == s[i].1@,
{
    let k = s[i].0@;
    assert(has_key(s, k));
    let j = choose|j: int| 0 <= j < s.len() && s[j].0@ == k;
    assert(j == i);
}

/// Removing the entry at `i` removes exactly its key from the map.
proof fn lemma_map_remove_at(s: Seq<(String, Vec<u8>)>, i: int)
    requires
        keys_distinct(s),
        0 <= i < s.len(),
    ensures
        keys_distinct(s.remove(i)),
        entries_map(s.remove(i)) == entries_map(s).remove(s[i].0@),
{
    let s2 = s.remove(i);
    let k0 = s[i].0@;
    assert forall|a: int, b: int| 0 <= a < b < s2.len() implies s2[a].0@ != s2[b].0@ by {
        let a0 = if a < i { a } else { a + 1 };
        let b0 = if b < i { b } else { b + 1 };
        assert(s2[a] == s[a0] && s2[b] == s[b0]);
    }
    let m2 = entries_map(s2);
    let m = entries_map(s).remove(k0);
    assert forall|k: Seq<char>| m2.contains_key(k) <==> m.contains_key(k) by {
        if has_key(s2, k) {
            let j = choose|j: int| 0 <= j < s2.len() && s2[j].0@ == k;
            let j0 = if j < i { j } else { j + 1 };
            assert(s2[j] == s[j0]);
            assert(has_key(s, k));
            assert(k != k0);
        }
        if has_key(s, k) && k != k0 {
            let j = choose|j: int| 0 <= j < s.len() && s[j].0@ == k;
            assert(j != i);
            let j2 = if j < i { j } else { j - 1 };
            assert(s2[j2] == s[j]);
            assert(has_key(s2, k));
        }
    }
    assert forall|k: Seq<char>| m2.contains_key(k) implies m2[k] == m[k] by {
        let j = choose|j: int| 0 <= j < s2.len() && s2[j].0@ == k;
        let j0 = if j < i { j } else { j + 1 };
        assert(s2[j] == s[j0]);
        lemma_entry_lookup(s2, j);
        lemma_entry_lookup(s, j0);
    }
    assert(m2 =~= m);
}

/// Appending an entry under a fresh key inserts exactly that key.
proof fn lemma_map_push(s: Seq<(String, Vec<u8>)>, key: String, data: Vec<u8>)
    requires
        keys_distinct(s),
        !has_key(s, key@),
    ensures
        keys_distinct(s.push((key, data))),
        entries_map(s.push((key, data))) == entries_map(s).insert(key@, data@),
{
    let s2 = s.push((key, data));
    assert forall|a: int, b: int| 0 <= a < b < s2.len() implies s2[a].0@ != s2[b].0@ by {
        if b < s.len() {
            assert(s2[a] == s[a] && s2[b] == s[b]);
        } else {
            assert(s2[a] == s[a] && s2[b] == (key, data));
        }
    }
    let m2 = entries_map(s2);
    let m = entries_map(s).insert(key@, data@);
    assert forall|k: Seq<char>| m2.contains_key(k) <==> m.contains_key(k) by {
        if has_key(s2, k) && k != key@ {
            let j = choose|j: int| 0 <= j < s2.len() && s2[j].0@ == k;
            assert(s2[j] == s[j]);
            assert(has_key(s, k));
        }
        if has_key(s, k) {
            let j = choose|j: int| 0 <= j < s.len() && s[j].0@ == k;
            assert(s2[j] == s[j]);
            assert(has_key(s2, k));
        }
        assert(s2[s.len() as int] == (key, data));
        assert(has_key(s2, key@));
    }
    assert forall|k: Seq<char>| m2.contains_key(k) implies m2[k] == m[k] by {
        let j = choose|j: int| 0 <= j < s2.len() && s2[j].0@ == k;
        lemma_entry_lookup(s2, j);
        if k == key@ {
            assert(j == s.len());
        } else {
            assert(s2[j] == s[j]);
            lemma_entry_lookup(s, j);
        }
    }
    assert(m2 =~= m);
}

/// The key-value store. Writes overwrite, reads copy, deletes drop the key;
/// the store behaves as exactly one record per live key.
pub struct DataStorage {
    entries: Vec<(String, Vec<u8>)>,
}

impl View for DataStorage {
    type V = Map<Seq<char>, Seq<u8>>;

    closed spec fn view(&self) -> Map<Seq<char>, Seq<u8>> {
        entries_map(self.entries@)
    }
}

impl DataStorage {
    /// Well-formedness: no key is stored twice.
    pub closed spec fn wf(&self) -> bool {
        keys_distinct(self.entries@)
    }

    /// Create an empty store.
    pub fn new() -> (r: DataStorage)
        ensures
            r.wf(),
            r@ =~= Map::<Seq<char>, Seq<u8>>::empty(),
    {
        let r = DataStorage { entries: Vec::new() };
        proof {
            assert forall|k: Seq<char>| !r@.contains_key(k) by {
                assert(!has_key(r.entries@, k));
            }
        }
        r
    }

    /// Position of the entry holding `key`, if one does.
    fn position_of(&self, key: &String) -> (r: Option<usize>)
        ensures
            match r {
                Some(i) => i < self.entries@.len() && self.entries@[i as int].0@ == key@,
                None => !has_key(self.entries@, key@),
            },
    {
        let mut i: usize = 0;
        while i < self.entries.len()
            invariant
                i <= self.entries@.len(),
                forall|j: int| #![trigger self.entries@[j]]
                    0 <= j < i ==> self.entries@[j].0@ != key@,
            decreases self.entries@.len() - i,
        {
            if self.entries[i].0 == *key {
                return Some(i);
            }
            i = i + 1;
        }
        None
    }

    /// Store `data` under `key`, overwriting whatever the key held before.
    pub fn store_data(&mut self, key: String, data: Vec<u8>)
        requires
            old(self).wf(),
        ensures
            final(self).wf(),
            final(self)@ == old(self)@.insert(key@, data@),
    {
        match self.position_of(&key) {
            Some(i) => {
                proof {
                    lemma_map_remove_at(self.entries@, i as int);
                }
                let ghost mid_map = old(self)@.remove(key@);
                self.entries.remove(i);
                proof {
                    assert(!has_key(self.entries@, key@)) by {
                        if has_key(self.entries@, key@) {
                            let j = choose|j: int|
                                0 <= j < self.entries@.len() && self.entries@[j].0@ == key@;
                            let j0 = if j < i { j } else { j + 1 };
                            assert(self.entries@[j] == old(self).entries@[j0]);
                            assert(j0 != i);
                        }
                    }
                    lemma_map_push(self.entries@, key, data);
                }
                self.entries.push((key, data));
                proof {
                    assert(self@ == mid_map.insert(key@, data@));
                    assert(mid_map.insert(key@, data@) =~= old(self)@.insert(key@, data@));
                }
            },
            None => {
                proof {
                    lemma_map_push(self.entries@, key, data);
                }
                self.entries.push((key, data));
            },
        }
    }

    /// A copy of the record stored under `key`, or nothing for a key never
    /// stored (or deleted since).
    pub fn retrieve_data(&self, key: &str) -> (r: Option<Vec<u8>>)
        requires
            self.wf(),
        ensures
            match r {
                Some(d) => self@.contains_key(key@) && d@ == self@[key@],
                None => !self@.contains_key(key@),
            },
    {
        let owned = key.to_owned();
        match self.position_of(&owned) {
            Some(i) => {
                proof {
                    lemma_entry_lookup(self.entries@, i as int);
                }
                let d = self.entries[i].1.clone();
                proof {
                    assert forall|j: int|
                        0 <= j < d@.len() implies d@[j] == self.entries@[i as int].1@[j] by {
                        assert(cloned::<u8>(self.entries@[i as int].1@[j], d@[j]));
                    }
                    assert(d@ =~= self.entries@[i as int].1@);
                }
                Some(d)
            },
            None => None,
        }
    }

    /// Drop the record stored under `key`; a key never stored is left as it
    /// is.
    pub fn delete_data(&mut self, key: &str)
        requires
            old(self).wf(),
        ensures
            final(self).wf(),
            final(self)@ == old(self)@.remove(key@),
    {
        let owned = key.to_owned();
        match self.position_of(&owned) {
            Some(i) => {
                proof {
                    lemma_map_remove_at(self.entries@, i as int);
                }
                self.entries.remove(i);
            },
            None => {
                proof {
                    assert(!self@.contains_key(key@));
                    assert(self@ =~= self@.remove(key@));
                }
            },
        }
    }
}

} // verus!
