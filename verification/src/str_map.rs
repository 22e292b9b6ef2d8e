//! A map keyed by strings, kept as a list of entries with distinct keys.
use vstd::prelude::*;

verus! {

/// A map from strings to values. The entries keep the order in which their
/// keys first arrived.
pub struct StrMap<V> {
    entries: Vec<(String, V)>,
}

impl<V> StrMap<V> {
    pub closed spec fn wf(&self) -> bool {
        forall|i: int, j: int|
            0 <= i < self.entries@.len() && 0 <= j < self.entries@.len() && i != j
                ==> #[trigger] self.entries@[i].0@ != #[trigger] self.entries@[j].0@
    }

    /// The keys, in the order of the entries.
    pub closed spec fn keys(&self) -> Seq<Seq<char>> {
        self.entries@.map_values(|e: (String, V)| e.0@)
    }

    /// The map that the entries stand for.
    pub closed spec fn view(&self) -> Map<Seq<char>, V> {
        Map::new(
            |k: Seq<char>| exists|i: int| 0 <= i < self.entries@.len() && self.entries@[i].0@ == k,
            |k: Seq<char>| self.entries@[choose|i: int| 0 <= i < self.entries@.len() && self.entries@[i].0@ == k].1,
        )
    }

    proof fn lemma_value_at(&self, i: int)
        requires
            self.wf(),
            0 <= i < self.entries@.len(),
        ensures
            self.view().dom().contains(self.entries@[i].0@),
            self.view()[self.entries@[i].0@] == self.entries@[i].1,
    {
        let k = self.entries@[i].0@;
        assert(exists|j: int| 0 <= j < self.entries@.len() && self.entries@[j].0@ == k);
        let j = choose|j: int| 0 <= j < self.entries@.len() && self.entries@[j].0@ == k;
        assert(j == i);
    }

    /// The keys are distinct, make up the domain of the map, and each one maps
    /// to the value of its entry.
    pub proof fn lemma_keys(&self)
        requires
            self.wf(),
        ensures
            self.keys().no_duplicates(),
            forall|k: Seq<char>| #[trigger] self.view().dom().contains(k) <==> self.keys().contains(k),
            forall|i: int| 0 <= i < self.keys().len() ==> #[trigger] self.view()[self.keys()[i]] == self.value_spec(i),
    {
        assert forall|k: Seq<char>| #[trigger] self.view().dom().contains(k) implies self.keys().contains(k) by {
            let i = choose|i: int| 0 <= i < self.entries@.len() && self.entries@[i].0@ == k;
            assert(self.keys()[i] == k);
        }
        assert forall|k: Seq<char>| self.keys().contains(k) implies #[trigger] self.view().dom().contains(k) by {
            let i = choose|i: int| 0 <= i < self.keys().len() && self.keys()[i] == k;
            self.lemma_value_at(i);
        }
        assert forall|i: int| 0 <= i < self.keys().len() implies #[trigger] self.view()[self.keys()[i]] == self.value_spec(i) by {
            self.lemma_value_at(i);
        }
    }

    /// The value of the entry at `i`.
    pub closed spec fn value_spec(&self, i: int) -> V {
        self.entries@[i].1
    }

    pub fn new() -> (m: Self)
        ensures
            m.wf(),
            m.view() == Map::<Seq<char>, V>::empty(),
            m.keys() == Seq::<Seq<char>>::empty(),
    {
        let m = StrMap { entries: Vec::new() };
        assert(m.view() =~= Map::<Seq<char>, V>::empty());
        assert(m.keys() =~= Seq::<Seq<char>>::empty());
        m
    }

    /// The number of entries.
    pub fn len(&self) -> (n: usize)
        ensures
            n == self.keys().len(),
    {
        self.entries.len()
    }

    /// The key of the entry at `i`.
    pub fn key_at(&self, i: usize) -> (k: &String)
        requires
            i < self.keys().len(),
        ensures
            k@ == self.keys()[i as int],
    {
        &self.entries[i].0
    }

    /// The value of the entry at `i`.
    pub fn value_at(&self, i: usize) -> (v: &V)
        requires
            i < self.keys().len(),
        ensures
            *v == self.value_spec(i as int),
    {
        &self.entries[i].1
    }

    fn index_of(&self, key: &String) -> (idx: Option<usize>)
        requires
            self.wf(),
        ensures
            idx matches Some(i) ==> i < self.entries@.len() && self.entries@[i as int].0@ == key@,
            idx is None ==> !self.view().dom().contains(key@),
    {
        let mut i: usize = 0;
        while i < self.entries.len()
            invariant
                i <= self.entries@.len(),
                forall|j: int| 0 <= j < i ==> self.entries@[j].0@ != key@,
            decreases self.entries@.len() - i,
        {
            if self.entries[i].0 == *key {
                return Some(i);
            }
            i = i + 1;
        }
        None
    }

    pub fn contains_key(&self, key: &String) -> (res: bool)
        requires
            self.wf(),
        ensures
            res == self.view().dom().contains(key@),
    {
        match self.index_of(key) {
            Some(i) => {
                proof { self.lemma_value_at(i as int); }
                true
            },
            None => false,
        }
    }

    pub fn get(&self, key: &String) -> (res: Option<&V>)
        requires
            self.wf(),
        ensures
            res matches Some(v) ==> self.view().dom().contains(key@) && *v == self.view()[key@],
            res is None ==> !self.view().dom().contains(key@),
    {
        match self.index_of(key) {
            Some(i) => {
                proof { self.lemma_value_at(i as int); }
                Some(&self.entries[i].1)
            },
            None => None,
        }
    }

    /// Sets the value of `key`, in place where the key is present, as a new
    /// last entry where it is not.
    pub fn insert(&mut self, key: String, value: V)
        requires
            old(self).wf(),
        ensures
            final(self).wf(),
            final(self).view() == old(self).view().insert(key@, value),
            old(self).view().dom().contains(key@) ==> final(self).keys() == old(self).keys(),
            !old(self).view().dom().contains(key@) ==> final(self).keys() == old(self).keys().push(key@),
    {
        let ghost k = key@;
        match self.index_of(&key) {
            Some(i) => {
                self.entries.set(i, (key, value));
                proof {
                    old(self).lemma_value_at(i as int);
                    assert(self.keys() =~= old(self).keys());
                    assert forall|kk: Seq<char>| #![auto] self.view().dom().contains(kk) <==> old(self).view().insert(k, value).dom().contains(kk) by {
                        if self.view().dom().contains(kk) {
                            let j = choose|j: int| 0 <= j < self.entries@.len() && self.entries@[j].0@ == kk;
                            if j != i { old(self).lemma_value_at(j); }
                        }
                        if old(self).view().dom().contains(kk) {
                            let j = choose|j: int| 0 <= j < old(self).entries@.len() && old(self).entries@[j].0@ == kk;
                            self.lemma_value_at(j);
                        }
                    }
                    assert forall|kk: Seq<char>| #![auto] self.view().dom().contains(kk) implies self.view()[kk] == old(self).view().insert(k, value)[kk] by {
                        let j = choose|j: int| 0 <= j < self.entries@.len() && self.entries@[j].0@ == kk;
                        self.lemma_value_at(j);
                        if j != i { old(self).lemma_value_at(j); }
                    }
                    assert(self.view() =~= old(self).view().insert(k, value));
                }
            },
            None => {
                self.entries.push((key, value));
                proof {
                    let n = old(self).entries@.len() as int;
                    assert(self.keys() =~= old(self).keys().push(k));
                    self.lemma_value_at(n);
                    assert forall|kk: Seq<char>| #![auto] self.view().dom().contains(kk) <==> old(self).view().insert(k, value).dom().contains(kk) by {
                        if self.view().dom().contains(kk) {
                            let j = choose|j: int| 0 <= j < self.entries@.len() && self.entries@[j].0@ == kk;
                            if j != n { old(self).lemma_value_at(j); }
                        }
                        if old(self).view().dom().contains(kk) {
                            let j = choose|j: int| 0 <= j < old(self).entries@.len() && old(self).entries@[j].0@ == kk;
                            self.lemma_value_at(j);
                        }
                    }
                    assert forall|kk: Seq<char>| #![auto] self.view().dom().contains(kk) implies self.view()[kk] == old(self).view().insert(k, value)[kk] by {
                        let j = choose|j: int| 0 <= j < self.entries@.len() && self.entries@[j].0@ == kk;
                        self.lemma_value_at(j);
                        if j != n { old(self).lemma_value_at(j); }
                    }
                    assert(self.view() =~= old(self).view().insert(k, value));
                }
            },
        }
    }

    /// Takes `key` out of the map and hands back its value.
    pub fn remove(&mut self, key: &String) -> (res: Option<V>)
        requires
            old(self).wf(),
        ensures
            final(self).wf(),
            final(self).view() == old(self).view().remove(key@),
            res matches Some(v) ==> old(self).view().dom().contains(key@) && v == old(self).view()[key@],
            res is None ==> !old(self).view().dom().contains(key@),
    {
        match self.index_of(key) {
            Some(i) => {
                proof { self.lemma_value_at(i as int); }
                let (_, v) = self.entries.remove(i);
                proof {
                    let k = key@;
                    assert forall|j: int| 0 <= j < self.entries@.len() implies
                        #[trigger] self.entries@[j] == old(self).entries@[if j < i { j } else { j + 1 }] by {}
                    assert forall|kk: Seq<char>| #![auto] self.view().dom().contains(kk) <==> old(self).view().remove(k).dom().contains(kk) by {
                        if self.view().dom().contains(kk) {
                            let j = choose|j: int| 0 <= j < self.entries@.len() && self.entries@[j].0@ == kk;
                            old(self).lemma_value_at(if j < i { j } else { j + 1 });
                        }
                        if old(self).view().remove(k).dom().contains(kk) {
                            let j = choose|j: int| 0 <= j < old(self).entries@.len() && old(self).entries@[j].0@ == kk;
                            assert(j != i);
                            self.lemma_value_at(if j < i { j } else { j - 1 });
                        }
                    }
                    assert forall|kk: Seq<char>| #![auto] self.view().dom().contains(kk) implies self.view()[kk] == old(self).view().remove(k)[kk] by {
                        let j = choose|j: int| 0 <= j < self.entries@.len() && self.entries@[j].0@ == kk;
                        self.lemma_value_at(j);
                        old(self).lemma_value_at(if j < i { j } else { j + 1 });
                    }
                    assert(self.view() =~= old(self).view().remove(k));
                }
                Some(v)
            },
            None => {
                proof { assert(old(self).view().remove(key@) =~= old(self).view()); }
                None
            },
        }
    }
}

} // verus!
