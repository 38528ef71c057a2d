//! A table of records keyed by string identifiers, kept as a vector of
//! entries with distinct keys and viewed as a finite map.
use vstd::prelude::*;

verus! {

pub struct Table<T: View> {
    entries: Vec<(String, T)>,
    model: Ghost<Map<Seq<char>, T::V>>,
}

impl<T: View> Table<T> {
    /// The contents: each key with the view of its record.
    pub closed spec fn view(&self) -> Map<Seq<char>, T::V> {
        self.model@
    }

    /// Keys are distinct, and the entries hold exactly the map's contents.
    pub closed spec fn wf(&self) -> bool {
        let e = self.entries@;
        &&& forall|i: int, j: int|
            0 <= i < e.len() && 0 <= j < e.len() && i != j ==> #[trigger] e[i].0@ != #[trigger] e[j].0@
        &&& forall|i: int|
            0 <= i < e.len() ==> self.model@.contains_key(#[trigger] e[i].0@) && self.model@[e[i].0@]
                == e[i].1@
        &&& forall|k: Seq<char>|
            #[trigger] self.model@.contains_key(k) ==> exists|i: int| 0 <= i < e.len() && e[i].0@ == k
    }

    pub fn new() -> (r: Self)
        ensures
            r.wf(),
            r.view() == Map::<Seq<char>, T::V>::empty(),
    {
        Table { entries: Vec::new(), model: Ghost(Map::empty()) }
    }

    /// The position of the entry with the given key.
    fn find(&self, key: &str) -> (r: Option<usize>)
        requires
            self.wf(),
        ensures
            match r {
                Some(i) => i < self.entries@.len() && self.entries@[i as int].0@ == key@,
                None => !self.view().contains_key(key@),
            },
    {
        let wanted = key.to_owned();
        let mut i: usize = 0;
        while i < self.entries.len()
            invariant
                self.wf(),
                wanted@ == key@,
                i <= self.entries@.len(),
                forall|j: int| 0 <= j < i ==> #[trigger] self.entries@[j].0@ != key@,
            decreases self.entries@.len() - i,
        {
            if self.entries[i].0.eq(&wanted) {
                return Some(i);
            }
            i = i + 1;
        }
        None
    }

    /// The record stored under `key`, if any.
    pub fn get(&self, key: &str) -> (r: Option<&T>)
        requires
            self.wf(),
        ensures
            match r {
                Some(v) => self.view().contains_key(key@) && v@ == self.view()[key@],
                None => !self.view().contains_key(key@),
            },
    {
        match self.find(key) {
            Some(i) => Some(&self.entries[i].1),
            None => None,
        }
    }

    pub fn contains_key(&self, key: &str) -> (r: bool)
        requires
            self.wf(),
        ensures
            r == self.view().contains_key(key@),
    {
        self.find(key).is_some()
    }

    /// Stores `value` under `key`, replacing any record already there.
    pub fn insert(&mut self, key: String, value: T)
        requires
            old(self).wf(),
        ensures
            final(self).wf(),
            final(self).view() == old(self).view().insert(key@, value@),
    {
        let ghost k = key@;
        let ghost v = value@;
        let ghost m = self.model@.insert(k, v);
        match self.find(key.as_str()) {
            Some(i) => {
                self.entries.set(i, (key, value));
                self.model = Ghost(m);
                assert forall|kk: Seq<char>| #[trigger] m.contains_key(kk) implies exists|j: int|
                    0 <= j < self.entries@.len() && self.entries@[j].0@ == kk by {
                    if kk != k {
                        let j = choose|j: int| 0 <= j < old(self).entries@.len() && old(self).entries@[j].0@ == kk;
                        assert(self.entries@[j].0@ == kk);
                    } else {
                        assert(self.entries@[i as int].0@ == kk);
                    }
                }
            },
            None => {
                self.entries.push((key, value));
                self.model = Ghost(m);
                let ghost n = self.entries@.len() - 1;
                assert forall|kk: Seq<char>| #[trigger] m.contains_key(kk) implies exists|j: int|
                    0 <= j < self.entries@.len() && self.entries@[j].0@ == kk by {
                    if kk != k {
                        let j = choose|j: int| 0 <= j < old(self).entries@.len() && old(self).entries@[j].0@ == kk;
                        assert(self.entries@[j].0@ == kk);
                    } else {
                        assert(self.entries@[n].0@ == kk);
                    }
                }
                assert forall|a: int, b: int|
                    0 <= a < self.entries@.len() && 0 <= b < self.entries@.len() && a != b
                    implies #[trigger] self.entries@[a].0@ != #[trigger] self.entries@[b].0@ by {
                    if a == n {
                        assert(old(self).view().contains_key(self.entries@[b].0@));
                    } else if b == n {
                        assert(old(self).view().contains_key(self.entries@[a].0@));
                    }
                }
            },
        }
    }

    /// Takes the record stored under `key` out of the table.
    pub fn remove(&mut self, key: &str) -> (r: Option<T>)
        requires
            old(self).wf(),
        ensures
            final(self).wf(),
            final(self).view() == old(self).view().remove(key@),
            match r {
                Some(v) => old(self).view().contains_key(key@) && v@ == old(self).view()[key@],
                None => !old(self).view().contains_key(key@) && final(self).view() == old(self).view(),
            },
    {
        match self.find(key) {
            Some(i) => {
                let ghost k = key@;
                let ghost m = self.model@.remove(k);
                let ghost e = self.entries@;
                let (_, v) = self.entries.remove(i);
                self.model = Ghost(m);
                assert forall|j: int| 0 <= j < self.entries@.len() implies m.contains_key(
                    #[trigger] self.entries@[j].0@) && m[self.entries@[j].0@]
                    == self.entries@[j].1@ by {
                    if j < i {
                        assert(self.entries@[j] == e[j]);
                    } else {
                        assert(self.entries@[j] == e[j + 1]);
                    }
                }
                assert forall|kk: Seq<char>| #[trigger] m.contains_key(kk) implies exists|j: int|
                    0 <= j < self.entries@.len() && self.entries@[j].0@ == kk by {
                    let j = choose|j: int| 0 <= j < e.len() && e[j].0@ == kk;
                    if j < i {
                        assert(self.entries@[j].0@ == kk);
                    } else {
                        assert(self.entries@[j - 1].0@ == kk);
                    }
                }
                assert forall|a: int, b: int|
                    0 <= a < self.entries@.len() && 0 <= b < self.entries@.len() && a != b
                    implies #[trigger] self.entries@[a].0@ != #[trigger] self.entries@[b].0@ by {
                    let a0 = if a < i { a } else { a + 1 };
                    let b0 = if b < i { b } else { b + 1 };
                    assert(self.entries@[a] == e[a0]);
                    assert(self.entries@[b] == e[b0]);
                }
                Some(v)
            },
            None => {
                assert(self.model@.remove(key@) =~= self.model@);
                None
            },
        }
    }

    /// The entries, keys with the views of their records, in the order in
    /// which their keys were first stored.
    pub closed spec fn ordered(&self) -> Seq<(Seq<char>, T::V)> {
        self.entries@.map_values(|e: (String, T)| (e.0@, e.1@))
    }

    /// The ordered entries list each key of the map once, with its record.
    pub proof fn lemma_ordered(&self)
        requires
            self.wf(),
        ensures
            forall|i: int|
                0 <= i < self.ordered().len() ==> self.view().contains_key(#[trigger] self.ordered()[i].0)
                    && self.view()[self.ordered()[i].0] == self.ordered()[i].1,
            forall|k: Seq<char>|
                #[trigger] self.view().contains_key(k) ==> exists|i: int|
                    0 <= i < self.ordered().len() && self.ordered()[i].0 == k,
            forall|i: int, j: int|
                0 <= i < self.ordered().len() && 0 <= j < self.ordered().len() && i != j
                    ==> #[trigger] self.ordered()[i].0 != #[trigger] self.ordered()[j].0,
    {
        assert forall|k: Seq<char>| #[trigger] self.view().contains_key(k) implies exists|i: int|
            0 <= i < self.ordered().len() && self.ordered()[i].0 == k by {
            let i = choose|i: int| 0 <= i < self.entries@.len() && self.entries@[i].0@ == k;
            assert(self.ordered()[i].0 == k);
        }
    }

    pub fn len(&self) -> (r: usize)
        ensures
            r == self.ordered().len(),
    {
        self.entries.len()
    }

    /// The record of the entry at position `i`.
    pub fn value_at(&self, i: usize) -> (r: &T)
        requires
            i < self.ordered().len(),
        ensures
            r@ == self.ordered()[i as int].1,
    {
        &self.entries[i].1
    }
}

} // verus!
