//! A small map from text to text.
//!
//! The entries are kept in a vector. A key stands for the first entry that
//! holds it, and an insertion under a key that is present replaces that
//! entry's value in place.

use vstd::prelude::*;

verus! {

/// A map from strings to strings.
#[derive(Debug)]
pub struct StrMap {
    entries: Vec<(String, String)>,
}

impl StrMap {
    /// The key held at position `i`.
    spec fn key_at(&self, i: int) -> Seq<char> {
        self.entries[i].0@
    }

    /// `key` is held at position `i`.
    spec fn holds(&self, key: Seq<char>, i: int) -> bool {
        0 <= i < self.entries.len() && self.key_at(i) == key
    }

    /// `key` is held at position `i` and at none before it.
    spec fn first_holds(&self, key: Seq<char>, i: int) -> bool {
        self.holds(key, i) && forall|j: int| 0 <= j < i ==> !self.holds(key, j)
    }

    /// The first position at which `key` is held, if there is one.
    spec fn slot(&self, key: Seq<char>) -> int {
        choose|i: int| self.first_holds(key, i)
    }

    /// A key is first held at one position only.
    proof fn lemma_first_unique(&self, key: Seq<char>, a: int, b: int)
        requires
            self.holds(key, a),
            forall|j: int| 0 <= j < a ==> !self.holds(key, j),
            self.holds(key, b),
            forall|j: int| 0 <= j < b ==> !self.holds(key, j),
        ensures
            a == b,
    {
    }

    /// A key that is held somewhere is held at its slot first.
    proof fn lemma_slot(&self, key: Seq<char>, i: int)
        requires
            self.holds(key, i),
        ensures
            self.first_holds(key, self.slot(key)),
            self.slot(key) <= i,
        decreases i,
    {
        if exists|j: int| 0 <= j < i && self.holds(key, j) {
            let j = choose|j: int| 0 <= j < i && self.holds(key, j);
            self.lemma_slot(key, j);
        } else {
            assert(self.first_holds(key, i));
        }
    }
}

impl View for StrMap {
    type V = Map<Seq<char>, Seq<char>>;

    closed spec fn view(&self) -> Map<Seq<char>, Seq<char>> {
        Map::new(
            |key: Seq<char>| exists|i: int| self.holds(key, i),
            |key: Seq<char>| self.entries[self.slot(key)].1@,
        )
    }
}

impl StrMap {
    /// The empty map.
    pub fn new() -> (map: StrMap)
        ensures
            map@ == Map::<Seq<char>, Seq<char>>::empty(),
    {
        let map = StrMap { entries: Vec::new() };
        assert(map@ =~= Map::<Seq<char>, Seq<char>>::empty());
        map
    }

    /// The position at which `key` is held.
    fn position(&self, key: &String) -> (found: Option<usize>)
        ensures
            match found {
                Some(i) => self.first_holds(key@, i as int) && i as int == self.slot(key@),
                None => forall|i: int| !self.holds(key@, i),
            },
    {
        let mut i: usize = 0;
        while i < self.entries.len()
            invariant
                i <= self.entries.len(),
                forall|j: int| 0 <= j < i ==> !self.holds(key@, j),
            decreases self.entries.len() - i,
        {
            if self.entries[i].0 == *key {
                proof {
                    self.lemma_slot(key@, i as int);
                }
                return Some(i);
            }
            i += 1;
        }
        None
    }

    /// Whether `key` has a value.
    pub fn contains_key(&self, key: &str) -> (present: bool)
        ensures
            present == self@.contains_key(key@),
    {
        let owned = key.to_owned();
        self.position(&owned).is_some()
    }

    /// The value stored under `key`.
    pub fn get(&self, key: &str) -> (value: Option<&String>)
        ensures
            match value {
                Some(v) => self@.contains_key(key@) && self@[key@] == v@,
                None => !self@.contains_key(key@),
            },
    {
        let owned = key.to_owned();
        match self.position(&owned) {
            Some(i) => Some(&self.entries[i].1),
            None => None,
        }
    }

    /// Stores `value` under `key`, in place of any value that was there.
    pub fn insert(&mut self, key: String, value: String)
        ensures
            final(self)@ == old(self)@.insert(key@, value@),
    {
        let ghost before = *self;
        match self.position(&key) {
            Some(i) => {
                self.entries[i].1 = value;
                proof {
                    assert forall|k: Seq<char>, j: int|
                        self.holds(k, j) == before.holds(k, j) by {}
                    assert forall|k: Seq<char>| #[trigger]
                        self@.contains_key(k) == before@.insert(key@, value@).contains_key(
                            k,
                        ) by {
                        if self@.contains_key(k) {
                            let j = choose|j: int| self.holds(k, j);
                            assert(before.holds(k, j));
                        }
                        if before@.contains_key(k) {
                            let j = choose|j: int| before.holds(k, j);
                            assert(self.holds(k, j));
                        }
                        if k == key@ {
                            assert(self.holds(k, i as int));
                        }
                    }
                    assert forall|k: Seq<char>| self@.contains_key(k) implies #[trigger] self@[k]
                        == before@.insert(key@, value@)[k] by {
                        let j = choose|j: int| self.holds(k, j);
                        self.lemma_slot(k, j);
                        before.lemma_slot(k, j);
                        before.lemma_first_unique(k, self.slot(k), before.slot(k));
                    }
                    assert(self@ =~= before@.insert(key@, value@));
                }
            },
            None => {
                self.entries.push((key, value));
                proof {
                    let last = before.entries.len() as int;
                    assert(self.holds(key@, last));
                    assert forall|k: Seq<char>, j: int|
                        self.holds(k, j) == (before.holds(k, j) || (j == last && k == key@)) by {}
                    assert forall|k: Seq<char>| #[trigger]
                        self@.contains_key(k) == before@.insert(key@, value@).contains_key(
                            k,
                        ) by {
                        if self@.contains_key(k) {
                            let j = choose|j: int| self.holds(k, j);
                            assert(before.holds(k, j) || (j == last && k == key@));
                        }
                        if before@.contains_key(k) {
                            let j = choose|j: int| before.holds(k, j);
                            assert(self.holds(k, j));
                        }
                        if k == key@ {
                            assert(self.holds(k, last));
                        }
                    }
                    assert forall|k: Seq<char>| self@.contains_key(k) implies #[trigger] self@[k]
                        == before@.insert(key@, value@)[k] by {
                        let j = choose|j: int| self.holds(k, j);
                        self.lemma_slot(k, j);
                        if k != key@ {
                            assert(before.holds(k, j));
                            before.lemma_slot(k, j);
                            before.lemma_first_unique(k, self.slot(k), before.slot(k));
                        } else {
                            assert forall|j: int| 0 <= j < last implies !self.holds(k, j) by {
                                assert(!before.holds(k, j));
                            }
                            self.lemma_first_unique(k, self.slot(k), last);
                        }
                    }
                    assert(self@ =~= before@.insert(key@, value@));
                }
            },
        }
    }

    /// Whether the map holds nothing.
    pub fn is_empty(&self) -> (empty: bool)
        ensures
            empty == (self@ == Map::<Seq<char>, Seq<char>>::empty()),
    {
        let empty = self.entries.len() == 0;
        proof {
            if empty {
                assert(self@ =~= Map::<Seq<char>, Seq<char>>::empty());
            } else {
                assert(self.holds(self.key_at(0), 0));
                assert(self@.contains_key(self.key_at(0)));
            }
        }
        empty
    }
}

} // verus!
