//! A map keyed by strings that remembers the order in which keys first
//! arrived: what the sync step holds its local and remote message indexes in.
use vstd::prelude::*;
use vstd::hash_map::StringHashMap;

verus! {

/// The position of a key in a sequence of entries, where it occurs.
pub open spec fn seq_position<V>(es: Seq<(Seq<char>, V)>, key: Seq<char>) -> Option<int> {
    if exists|i: int| 0 <= i < es.len() && #[trigger] es[i].0 == key {
        Some(choose|i: int| 0 <= i < es.len() && #[trigger] es[i].0 == key)
    } else {
        None
    }
}

/// The entries after putting `value` under `key`: in place where the key
/// occurs, as a new last entry where it does not.
pub open spec fn insert_entry<V>(es: Seq<(Seq<char>, V)>, key: Seq<char>, value: V) -> Seq<(Seq<char>, V)> {
    match seq_position(es, key) {
        Some(i) => es.update(i, (key, value)),
        None => es.push((key, value)),
    }
}

/// A string-keyed map whose entries keep their first-insertion order; a
/// later insert under a present key replaces the value in place.
pub struct StrMap<V> {
    entries: Vec<(String, V)>,
    positions: StringHashMap<usize>,
}

impl<V> StrMap<V> {
    /// The internal consistency of the map, kept by every operation: each
    /// key sits at the position that the hash index records for it.
    #[verifier::type_invariant]
    pub closed spec fn wf(&self) -> bool {
        &&& forall|i: int|
            0 <= i < self.entries@.len() ==> #[trigger] self.positions@.contains_key(
                self.entries@[i].0@,
            ) && self.positions@[self.entries@[i].0@] == i
        &&& forall|k: Seq<char>|
            #[trigger] self.positions@.contains_key(k) ==> self.positions@[k] < self.entries@.len()
                && self.entries@[self.positions@[k] as int].0@ == k
    }
}

impl<V: View> StrMap<V> {
    /// The entries, as (key, value) views in insertion order.
    pub closed spec fn entries(&self) -> Seq<(Seq<char>, V::V)> {
        self.entries@.map_values(|e: (String, V)| (e.0@, e.1@))
    }

    /// The map from each key to its value.
    pub closed spec fn view(&self) -> Map<Seq<char>, V::V> {
        Map::new(
            |k: Seq<char>| self.positions@.contains_key(k),
            |k: Seq<char>| self.entries@[self.positions@[k] as int].1@,
        )
    }

    /// Keys are distinct, each entry is what the map holds under its key,
    /// and every key of the map has an entry.
    pub proof fn lemma_entries(&self)
        requires
            self.wf(),
        ensures
            forall|i: int, j: int|
                0 <= i < self.entries().len() && 0 <= j < self.entries().len() && i != j
                    ==> #[trigger] self.entries()[i].0 != #[trigger] self.entries()[j].0,
            forall|i: int|
                0 <= i < self.entries().len() ==> self@.contains_key(#[trigger] self.entries()[i].0)
                    && self@[self.entries()[i].0] == self.entries()[i].1,
            forall|k: Seq<char>|
                #[trigger] self@.contains_key(k) ==> exists|i: int|
                    0 <= i < self.entries().len() && #[trigger] self.entries()[i].0 == k,
    {
        assert forall|i: int, j: int|
            0 <= i < self.entries().len() && 0 <= j < self.entries().len() && i != j
                implies #[trigger] self.entries()[i].0 != #[trigger] self.entries()[j].0 by {
            assert(self.positions@.contains_key(self.entries@[i].0@));
            assert(self.positions@.contains_key(self.entries@[j].0@));
        }
        assert forall|i: int|
            0 <= i < self.entries().len() implies self@.contains_key(#[trigger] self.entries()[i].0)
                && self@[self.entries()[i].0] == self.entries()[i].1 by {
            assert(self.positions@.contains_key(self.entries@[i].0@));
        }
        assert forall|k: Seq<char>| #[trigger] self@.contains_key(k) implies exists|i: int|
            0 <= i < self.entries().len() && #[trigger] self.entries()[i].0 == k by {
            let i = self.positions@[k] as int;
            assert(self.entries()[i].0 == k);
        }
    }

    /// An empty map.
    pub fn new() -> (m: Self)
        ensures
            m.entries() == Seq::<(Seq<char>, V::V)>::empty(),
            m@ == Map::<Seq<char>, V::V>::empty(),
    {
        let m = StrMap { entries: Vec::new(), positions: StringHashMap::new() };
        assert(m.entries() =~= Seq::<(Seq<char>, V::V)>::empty());
        assert(m@ =~= Map::<Seq<char>, V::V>::empty());
        m
    }

    /// The number of keys.
    pub fn len(&self) -> (n: usize)
        ensures
            n == self.entries().len(),
    {
        self.entries.len()
    }

    /// The entry at position `i`.
    pub fn entry_at(&self, i: usize) -> (e: (&String, &V))
        requires
            i < self.entries().len(),
        ensures
            e.0@ == self.entries()[i as int].0,
            e.1@ == self.entries()[i as int].1,
    {
        let e = &self.entries[i];
        (&e.0, &e.1)
    }

    /// The position of `key` among the entries, where it is present.
    fn position(&self, key: &str) -> (p: Option<usize>)
        ensures
            match p {
                Some(i) => i < self.entries().len() && self.entries()[i as int].0 == key@,
                None => forall|i: int| 0 <= i < self.entries().len() ==> self.entries()[i].0 != key@,
            },
    {
        proof {
            use_type_invariant(self);
        }
        match self.positions.get(key) {
            Some(i) => {
                let i = *i;
                Some(i)
            },
            None => {
                assert forall|i: int| 0 <= i < self.entries().len() implies self.entries()[i].0
                    != key@ by {
                    assert(self.positions@.contains_key(self.entries@[i].0@));
                }
                None
            },
        }
    }

    /// Whether `key` is present.
    pub fn contains_key(&self, key: &str) -> (r: bool)
        ensures
            r == self@.contains_key(key@),
    {
        proof {
            use_type_invariant(self);
            self.lemma_entries();
        }
        self.position(key).is_some()
    }

    /// The value under `key`, where it is present.
    pub fn get(&self, key: &str) -> (r: Option<&V>)
        ensures
            match r {
                Some(v) => self@.contains_key(key@) && v@ == self@[key@],
                None => !self@.contains_key(key@),
            },
    {
        proof {
            use_type_invariant(self);
            self.lemma_entries();
        }
        match self.position(key) {
            Some(i) => Some(&self.entries[i].1),
            None => None,
        }
    }

    /// Puts `value` under `key`: in place where the key is present, as a new
    /// last entry where it is not.
    pub fn insert(&mut self, key: String, value: V)
        ensures
            final(self)@ == old(self)@.insert(key@, value@),
            final(self).entries() == insert_entry(old(self).entries(), key@, value@),
    {
        proof {
            use_type_invariant(&*self);
            self.lemma_entries();
        }
        let ghost prev = *self;
        let ghost old_entries = prev.entries();
        let p = self.position(key.as_str());
        let mut cur: StrMap<V> = StrMap::new();
        std::mem::swap(&mut cur, self);
        let StrMap { mut entries, mut positions } = cur;
        match p {
            Some(i) => {
                proof {
                    assert(seq_position(old_entries, key@) == Some(i as int)) by {
                        assert(old_entries[i as int].0 == key@);
                    }
                }
                entries.set(i, (key, value));
                proof {
                    assert forall|k: Seq<char>| #[trigger] positions@.contains_key(k) implies
                        positions@[k] < entries@.len() && entries@[positions@[k] as int].0@ == k by {
                        assert(prev.positions@.contains_key(k));
                    }
                    assert forall|j: int| 0 <= j < entries@.len() implies #[trigger]
                        positions@.contains_key(entries@[j].0@) && positions@[entries@[j].0@] == j by {
                        if j != i {
                            assert(prev.entries@[j].0@ == entries@[j].0@);
                            assert(prev.positions@.contains_key(prev.entries@[j].0@));
                        }
                    }
                }
            },
            None => {
                proof {
                    assert(seq_position(old_entries, key@) is None);
                }
                let n = entries.len();
                let k2 = key.clone();
                positions.insert(k2, n);
                entries.push((key, value));
                proof {
                    assert forall|k: Seq<char>| #[trigger] positions@.contains_key(k) implies
                        positions@[k] < entries@.len() && entries@[positions@[k] as int].0@ == k by {
                        if k != key@ {
                            assert(prev.positions@.contains_key(k));
                        }
                    }
                    assert forall|j: int| 0 <= j < entries@.len() implies #[trigger]
                        positions@.contains_key(entries@[j].0@) && positions@[entries@[j].0@] == j by {
                        if j < n {
                            assert(prev.entries@[j] == entries@[j]);
                            assert(prev.positions@.contains_key(prev.entries@[j].0@));
                            assert(old_entries[j].0 != key@);
                        }
                    }
                }
            },
        }
        let next = StrMap { entries, positions };
        proof {
            assert(next.entries() =~= insert_entry(old_entries, key@, value@));
            assert(next@ =~= prev@.insert(key@, value@));
        }
        *self = next;
    }
}

} // verus!
