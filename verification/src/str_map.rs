use crate::text::text_eq;
use vstd::prelude::*;

verus! {

/// A map from texts to values, kept as a list of entries in which no key
/// occurs twice.
#[derive(Debug)]
pub struct StrMap<V> {
    entries: Vec<(String, V)>,
}

impl<V> StrMap<V> {
    /// The keys, in the order of the entries.
    pub closed spec fn key_list(&self) -> Seq<Seq<char>> {
        self.entries@.map_values(|e: (String, V)| e.0@)
    }

    /// The values, in the order of the entries.
    pub closed spec fn value_list(&self) -> Seq<V> {
        self.entries@.map_values(|e: (String, V)| e.1)
    }

    /// No key occurs twice.
    #[verifier::type_invariant]
    pub closed spec fn wf(&self) -> bool {
        self.key_list().no_duplicates()
    }

    pub closed spec fn view(&self) -> Map<Seq<char>, V> {
        Map::new(
            |k: Seq<char>| self.key_list().contains(k),
            |k: Seq<char>| self.value_list()[self.key_list().index_of(k)],
        )
    }

    /// The entries are the map: each listed key maps to the value listed
    /// beside it, each key of the map is listed once, and there are as many
    /// entries as keys.
    pub proof fn lemma_entries(&self)
        requires
            self.wf(),
        ensures
            self.key_list().len() == self.value_list().len(),
            self.key_list().no_duplicates(),
            forall|i: int|
                0 <= i < self.key_list().len() ==> self@.contains_key(#[trigger] self.key_list()[i])
                    && self@[self.key_list()[i]] == self.value_list()[i],
            forall|k: Seq<char>|
                #[trigger] self@.contains_key(k) ==> exists|i: int|
                    0 <= i < self.key_list().len() && self.key_list()[i] == k,
            self@.dom().finite(),
            self@.dom().len() == self.key_list().len(),
    {
        let keys = self.key_list();
        assert forall|i: int| 0 <= i < keys.len() implies self@.contains_key(#[trigger] keys[i])
            && self@[keys[i]] == self.value_list()[i] by {
            assert(keys.contains(keys[i]));
            let j = keys.index_of(keys[i]);
            assert(keys[j] == keys[i]);
        }
        assert(self@.dom() =~= keys.to_set());
        keys.unique_seq_to_set();
    }

    pub fn new() -> (res: StrMap<V>)
        ensures
            res@ == Map::<Seq<char>, V>::empty(),
    {
        let res = StrMap { entries: Vec::new() };
        assert(res@ =~= Map::<Seq<char>, V>::empty());
        res
    }

    /// Number of keys.
    pub fn len(&self) -> (res: usize)
        ensures
            res == self@.dom().len(),
    {
        proof {
            use_type_invariant(self);
            self.lemma_entries();
        }
        self.entries.len()
    }

    /// Position of `key` among the entries.
    fn find(&self, key: &str) -> (res: Option<usize>)
        requires
            self.wf(),
        ensures
            match res {
                Some(i) => i < self.key_list().len() && self.key_list()[i as int] == key@,
                None => !self@.contains_key(key@),
            },
    {
        let mut i: usize = 0;
        while i < self.entries.len()
            invariant
                i <= self.entries.len(),
                forall|j: int| 0 <= j < i ==> self.key_list()[j] != key@,
            decreases self.entries.len() - i,
        {
            if text_eq(self.entries[i].0.as_str(), key) {
                return Some(i);
            }
            i = i + 1;
        }
        None
    }

    /// The value of `key`, if it has one.
    pub fn get(&self, key: &str) -> (res: Option<&V>)
        ensures
            match res {
                Some(v) => self@.contains_key(key@) && *v == self@[key@],
                None => !self@.contains_key(key@),
            },
    {
        proof {
            use_type_invariant(self);
            self.lemma_entries();
        }
        match self.find(key) {
            Some(i) => Some(&self.entries[i].1),
            None => None,
        }
    }

    /// `key` has a value.
    pub fn contains_key(&self, key: &str) -> (res: bool)
        ensures
            res == self@.contains_key(key@),
    {
        proof {
            use_type_invariant(self);
            self.lemma_entries();
        }
        self.find(key).is_some()
    }

    /// Removes `key` and hands back its value.
    pub fn take(&mut self, key: &str) -> (res: Option<V>)
        ensures
            final(self)@ == old(self)@.remove(key@),
            match res {
                Some(v) => old(self)@.contains_key(key@) && v == old(self)@[key@],
                None => !old(self)@.contains_key(key@),
            },
    {
        proof {
            use_type_invariant(&*self);
            self.lemma_entries();
        }
        match self.find(key) {
            None => {
                assert(self@ =~= old(self)@.remove(key@));
                None
            },
            Some(i) => {
                let ghost old_keys = self.key_list();
                let ghost old_vals = self.value_list();
                let mut entries: Vec<(String, V)> = Vec::new();
                std::mem::swap(&mut entries, &mut self.entries);
                let entry = entries.remove(i);
                let ghost new_keys = entries@.map_values(|e: (String, V)| e.0@);
                assert(new_keys =~= old_keys.remove(i as int));
                assert(new_keys.no_duplicates()) by {
                    assert forall|a: int, b: int|
                        0 <= a < new_keys.len() && 0 <= b < new_keys.len() && a
                            != b implies new_keys[a] != new_keys[b] by {
                        let oa = if a < i {
                            a
                        } else {
                            a + 1
                        };
                        let ob = if b < i {
                            b
                        } else {
                            b + 1
                        };
                        assert(new_keys[a] == old_keys[oa]);
                        assert(new_keys[b] == old_keys[ob]);
                    }
                }
                self.entries = entries;
                assert(self.key_list() =~= old_keys.remove(i as int));
                assert(self.value_list() =~= old_vals.remove(i as int));
                proof {
                    use_type_invariant(&*self);
                    self.lemma_entries();
                }
                assert forall|k: Seq<char>| #[trigger] self@.contains_key(k) <==> old(
                    self,
                )@.remove(key@).contains_key(k) by {
                    if self@.contains_key(k) {
                        let j = choose|j: int| 0 <= j < self.key_list().len() && self.key_list()[j] == k;
                        let oj = if j < i {
                            j
                        } else {
                            j + 1
                        };
                        assert(old_keys[oj] == k);
                        assert(old_keys[oj] != old_keys[i as int]);
                    }
                    if old(self)@.remove(key@).contains_key(k) {
                        let j = choose|j: int| 0 <= j < old_keys.len() && old_keys[j] == k;
                        assert(j != i);
                        let nj = if j < i {
                            j
                        } else {
                            j - 1
                        };
                        assert(self.key_list()[nj] == k);
                    }
                }
                assert forall|k: Seq<char>| #[trigger] self@.contains_key(k) implies self@[k]
                    == old(self)@[k] by {
                    let j = choose|j: int| 0 <= j < self.key_list().len() && self.key_list()[j] == k;
                    let oj = if j < i {
                        j
                    } else {
                        j + 1
                    };
                    assert(old_keys[oj] == k);
                    assert(old_vals[oj] == self.value_list()[j]);
                }
                assert(self@ =~= old(self)@.remove(key@));
                Some(entry.1)
            },
        }
    }

    /// Removes `key`, if present.
    pub fn remove(&mut self, key: &str)
        ensures
            final(self)@ == old(self)@.remove(key@),
    {
        let _ = self.take(key);
    }

    /// Gives `key` the value `value`, replacing any earlier one.
    pub fn insert(&mut self, key: String, value: V)
        ensures
            final(self)@ == old(self)@.insert(key@, value),
    {
        let ghost k = key@;
        self.remove(key.as_str());
        let ghost mid = self@;
        let ghost mid_keys = self.key_list();
        let ghost mid_vals = self.value_list();
        proof {
            use_type_invariant(&*self);
            self.lemma_entries();
        }
        let mut entries: Vec<(String, V)> = Vec::new();
        std::mem::swap(&mut entries, &mut self.entries);
        entries.push((key, value));
        let ghost new_keys = entries@.map_values(|e: (String, V)| e.0@);
        assert(new_keys =~= mid_keys.push(k));
        assert(new_keys.no_duplicates()) by {
            assert forall|a: int, b: int|
                0 <= a < new_keys.len() && 0 <= b < new_keys.len() && a
                    != b implies new_keys[a] != new_keys[b] by {
                if a < mid_keys.len() && b < mid_keys.len() {
                } else if a < mid_keys.len() {
                    assert(mid.contains_key(mid_keys[a]));
                } else {
                    assert(mid.contains_key(mid_keys[b]));
                }
            }
        }
        self.entries = entries;
        assert(self.key_list() =~= mid_keys.push(k));
        assert(self.value_list() =~= mid_vals.push(value));
        proof {
            use_type_invariant(&*self);
            self.lemma_entries();
        }
        assert forall|j: Seq<char>| #[trigger] self@.contains_key(j) <==> old(self)@.insert(
            k,
            value,
        ).contains_key(j) by {
            if self@.contains_key(j) && j != k {
                let a = choose|a: int| 0 <= a < self.key_list().len() && self.key_list()[a] == j;
                assert(a < mid_keys.len());
                assert(mid.contains_key(j));
            }
            if old(self)@.insert(k, value).contains_key(j) && j != k {
                assert(mid.contains_key(j));
                let a = choose|a: int| 0 <= a < mid_keys.len() && mid_keys[a] == j;
                assert(self.key_list()[a] == j);
            }
            if j == k {
                assert(self.key_list()[mid_keys.len() as int] == k);
            }
        }
        assert forall|j: Seq<char>| #[trigger] self@.contains_key(j) implies self@[j] == old(
            self,
        )@.insert(k, value)[j] by {
            if j == k {
                assert(self.key_list()[mid_keys.len() as int] == k);
            } else {
                let a = choose|a: int| 0 <= a < self.key_list().len() && self.key_list()[a] == j;
                assert(a < mid_keys.len());
                assert(mid.contains_key(j));
                assert(self.value_list()[a] == mid_vals[a]);
            }
        }
        assert(self@ =~= old(self)@.insert(k, value));
    }

    /// Number of entries (equal to the number of keys).
    pub fn entry_count(&self) -> (res: usize)
        ensures
            res == self.key_list().len(),
    {
        self.entries.len()
    }

    /// The key of the entry at `i`.
    pub fn key_at(&self, i: usize) -> (res: &String)
        requires
            i < self.key_list().len(),
        ensures
            res@ == self.key_list()[i as int],
    {
        &self.entries[i].0
    }

    /// The value of the entry at `i`.
    pub fn value_at(&self, i: usize) -> (res: &V)
        requires
            i < self.key_list().len(),
        ensures
            *res == self.value_list()[i as int],
    {
        &self.entries[i].1
    }
}

} // verus!
