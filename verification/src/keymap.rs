//! Maps and sets keyed by text.
//!
//! The in-memory filesystem keys its state by the canonical text of a path
//! (see `path::normal_form`), and profile names by their text.  These maps
//! are association lists in which no key occurs twice.
use vstd::prelude::*;

verus! {

/// A finite map from text keys to values.
#[derive(Debug)]
pub struct KeyMap<V: DeepView> {
    entries: Vec<(String, V)>,
}

impl<V: DeepView> KeyMap<V> {
    #[verifier::type_invariant]
    spec fn inv(&self) -> bool {
        self.keys_distinct()
    }

    spec fn keys_distinct(&self) -> bool {
        forall|i: int, j: int|
            0 <= i < self.entries@.len() && 0 <= j < self.entries@.len() && i != j
                ==> (#[trigger] self.entries@[i]).0@ != (#[trigger] self.entries@[j]).0@
    }

    spec fn has_key_at(&self, k: Seq<char>, i: int) -> bool {
        0 <= i < self.entries@.len() && self.entries@[i].0@ == k
    }

    /// The map that the entries denote.
    pub closed spec fn view(&self) -> Map<Seq<char>, V> {
        Map::new(
            |k: Seq<char>| exists|i: int| self.has_key_at(k, i),
            |k: Seq<char>| self.entries@[choose|i: int| self.has_key_at(k, i)].1,
        )
    }

    /// The map that the entries denote, values taken by their deep view.
    pub closed spec fn dview(&self) -> Map<Seq<char>, V::V> {
        Map::new(
            |k: Seq<char>| self.view().contains_key(k),
            |k: Seq<char>| self.view()[k].deep_view(),
        )
    }

    proof fn lemma_dview_insert(old_map: &Self, new_map: &Self, k: Seq<char>, v: V)
        requires
            new_map.view() == old_map.view().insert(k, v),
        ensures
            new_map.dview() == old_map.dview().insert(k, v.deep_view()),
    {
        assert(new_map.dview() =~= old_map.dview().insert(k, v.deep_view()));
    }

    proof fn lemma_dview_remove(old_map: &Self, new_map: &Self, k: Seq<char>)
        requires
            new_map.view() == old_map.view().remove(k),
        ensures
            new_map.dview() == old_map.dview().remove(k),
    {
        assert(new_map.dview() =~= old_map.dview().remove(k));
    }

    proof fn lemma_view_at(&self, i: int)
        requires
            self.keys_distinct(),
            0 <= i < self.entries@.len(),
        ensures
            self.view().contains_key(self.entries@[i].0@),
            self.view()[self.entries@[i].0@] == self.entries@[i].1,
    {
        let k = self.entries@[i].0@;
        assert(self.has_key_at(k, i));
        let j = choose|j: int| self.has_key_at(k, j);
        assert(i == j);
    }

    /// An empty map.
    pub fn new() -> (r: Self)
        ensures
            r.view() == Map::<Seq<char>, V>::empty(),
            r.dview() == Map::<Seq<char>, V::V>::empty(),
    {
        let r = KeyMap { entries: Vec::new() };
        assert(r.view() =~= Map::<Seq<char>, V>::empty());
        assert(r.dview() =~= Map::<Seq<char>, V::V>::empty());
        r
    }

    fn find(&self, k: &str) -> (r: Option<usize>)
        ensures
            r matches Some(i) ==> i < self.entries@.len() && self.entries@[i as int].0@ == k@,
            r is None ==> forall|i: int|
                0 <= i < self.entries@.len() ==> self.entries@[i].0@ != k@,
    {
        let key = String::from_str(k);
        let mut i: usize = 0;
        while i < self.entries.len()
            invariant
                i <= self.entries@.len(),
                key@ == k@,
                forall|j: int| 0 <= j < i ==> self.entries@[j].0@ != k@,
            decreases self.entries@.len() - i,
        {
            if self.entries[i].0.eq(&key) {
                return Some(i);
            }
            i = i + 1;
        }
        None
    }

    /// Whether a key is present.
    pub fn contains_key(&self, k: &str) -> (r: bool)
        ensures
            r == self.view().contains_key(k@),
            r == self.dview().contains_key(k@),
    {
        proof {
            use_type_invariant(self);
        }
        match self.find(k) {
            Some(i) => {
                proof {
                    self.lemma_view_at(i as int);
                }
                true
            },
            None => false,
        }
    }

    /// The value stored under a key.
    pub fn get(&self, k: &str) -> (r: Option<&V>)
        ensures
            r matches Some(v) ==> self.view().contains_key(k@) && self.view()[k@] == *v
                && self.dview().contains_key(k@) && self.dview()[k@] == v.deep_view(),
            r is None ==> !self.view().contains_key(k@),
            r is None <==> !self.dview().contains_key(k@),
    {
        proof {
            use_type_invariant(self);
        }
        match self.find(k) {
            Some(i) => {
                proof {
                    self.lemma_view_at(i as int);
                }
                Some(&self.entries[i].1)
            },
            None => None,
        }
    }

    /// Stores a value under a key, replacing any earlier value.
    pub fn insert(&mut self, k: &str, v: V)
        ensures
            final(self).view() == old(self).view().insert(k@, v),
            final(self).dview() == old(self).dview().insert(k@, v.deep_view()),
    {
        proof {
            use_type_invariant(&*self);
        }
        let ghost old_view = self.view();
        match self.find(k) {
            Some(i) => {
                let mut e: Vec<(String, V)> = Vec::new();
                std::mem::swap(&mut e, &mut self.entries);
                e.set(i, (String::from_str(k), v));
                self.entries = e;
                proof {
                    use_type_invariant(&*self);
                    assert forall|key: Seq<char>|
                        #![auto]
                        self.view().contains_key(key) == old_view.insert(k@, v).contains_key(
                            key,
                        ) by {
                        if key != k@ && old_view.contains_key(key) {
                            let j = choose|j: int| old(self).has_key_at(key, j);
                            assert(self.has_key_at(key, j));
                        }
                        if key != k@ && self.view().contains_key(key) {
                            let j = choose|j: int| self.has_key_at(key, j);
                            assert(old(self).has_key_at(key, j));
                        }
                        if key == k@ {
                            assert(self.has_key_at(key, i as int));
                        }
                    }
                    assert forall|key: Seq<char>|
                        #![auto]
                        self.view().contains_key(key) implies self.view()[key] == old_view.insert(
                            k@,
                            v,
                        )[key] by {
                        let j = choose|j: int| self.has_key_at(key, j);
                        self.lemma_view_at(j);
                        if key != k@ {
                            assert(old(self).has_key_at(key, j));
                            old(self).lemma_view_at(j);
                        } else {
                            assert(j == i);
                        }
                    }
                    assert(self.view() =~= old_view.insert(k@, v));
                    Self::lemma_dview_insert(old(self), self, k@, v);
                }
            },
            None => {
                let mut e: Vec<(String, V)> = Vec::new();
                std::mem::swap(&mut e, &mut self.entries);
                e.push((String::from_str(k), v));
                self.entries = e;
                proof {
                    use_type_invariant(&*self);
                    let n = self.entries@.len() - 1;
                    assert forall|key: Seq<char>|
                        #![auto]
                        self.view().contains_key(key) == old_view.insert(k@, v).contains_key(
                            key,
                        ) by {
                        if key != k@ && old_view.contains_key(key) {
                            let j = choose|j: int| old(self).has_key_at(key, j);
                            assert(self.has_key_at(key, j));
                        }
                        if key != k@ && self.view().contains_key(key) {
                            let j = choose|j: int| self.has_key_at(key, j);
                            assert(old(self).has_key_at(key, j));
                        }
                        if key == k@ {
                            assert(self.has_key_at(key, n));
                        }
                    }
                    assert forall|key: Seq<char>|
                        #![auto]
                        self.view().contains_key(key) implies self.view()[key] == old_view.insert(
                            k@,
                            v,
                        )[key] by {
                        let j = choose|j: int| self.has_key_at(key, j);
                        self.lemma_view_at(j);
                        if key != k@ {
                            assert(old(self).has_key_at(key, j));
                            old(self).lemma_view_at(j);
                        } else {
                            assert(j == n);
                        }
                    }
                    assert(self.view() =~= old_view.insert(k@, v));
                    Self::lemma_dview_insert(old(self), self, k@, v);
                }
            },
        }
    }
    /// Removes a key, returning the value it held.
    pub fn remove(&mut self, k: &str) -> (r: Option<V>)
        ensures
            final(self).view() == old(self).view().remove(k@),
            final(self).dview() == old(self).dview().remove(k@),
            r matches Some(v) ==> old(self).view().contains_key(k@) && old(self).view()[k@] == v
                && old(self).dview().contains_key(k@) && old(self).dview()[k@] == v.deep_view(),
            r is None ==> !old(self).view().contains_key(k@) && !old(self).dview().contains_key(
                k@,
            ),
    {
        proof {
            use_type_invariant(&*self);
        }
        let ghost old_view = self.view();
        match self.find(k) {
            Some(i) => {
                proof {
                    self.lemma_view_at(i as int);
                }
                let mut e: Vec<(String, V)> = Vec::new();
                std::mem::swap(&mut e, &mut self.entries);
                let ghost before = e@;
                let (_, v) = e.remove(i);
                self.entries = e;
                proof {
                    use_type_invariant(&*self);
                    assert forall|key: Seq<char>|
                        #![auto]
                        self.view().contains_key(key) == old_view.remove(k@).contains_key(key) by {
                        if key != k@ && old_view.contains_key(key) {
                            let j = choose|j: int| old(self).has_key_at(key, j);
                            assert(j != i);
                            if j < i {
                                assert(self.has_key_at(key, j));
                            } else {
                                assert(self.has_key_at(key, j - 1));
                            }
                        }
                        if self.view().contains_key(key) {
                            let j = choose|j: int| self.has_key_at(key, j);
                            if j < i {
                                assert(old(self).has_key_at(key, j));
                            } else {
                                assert(old(self).has_key_at(key, j + 1));
                            }
                        }
                    }
                    assert forall|key: Seq<char>|
                        #![auto]
                        self.view().contains_key(key) implies self.view()[key]
                            == old_view.remove(k@)[key] by {
                        let j = choose|j: int| self.has_key_at(key, j);
                        self.lemma_view_at(j);
                        if j < i {
                            assert(old(self).has_key_at(key, j));
                            old(self).lemma_view_at(j);
                        } else {
                            assert(old(self).has_key_at(key, j + 1));
                            old(self).lemma_view_at(j + 1);
                        }
                    }
                    assert(self.view() =~= old_view.remove(k@));
                    Self::lemma_dview_remove(old(self), self, k@);
                }
                Some(v)
            },
            None => {
                proof {
                    assert(self.view() =~= old_view.remove(k@));
                    Self::lemma_dview_remove(old(self), self, k@);
                }
                None
            },
        }
    }

    /// Removes every entry.
    pub fn clear(&mut self)
        ensures
            final(self).view() == Map::<Seq<char>, V>::empty(),
            final(self).dview() == Map::<Seq<char>, V::V>::empty(),
    {
        self.entries = Vec::new();
        assert(self.view() =~= Map::<Seq<char>, V>::empty());
        assert(self.dview() =~= Map::<Seq<char>, V::V>::empty());
    }

    /// The keys, each once.
    pub fn keys(&self) -> (r: Vec<String>)
        ensures
            r@.len() == self.view().dom().len(),
            self.dview().dom() == self.view().dom(),
            forall|k: Seq<char>| #![auto] self.view().contains_key(k) <==> exists|i: int|
                0 <= i < r@.len() && r@[i]@ == k,
            forall|i: int, j: int|
                #![auto]
                0 <= i < r@.len() && 0 <= j < r@.len() && i != j ==> r@[i]@ != r@[j]@,
    {
        proof {
            use_type_invariant(self);
        }
        let mut r: Vec<String> = Vec::new();
        let mut i: usize = 0;
        while i < self.entries.len()
            invariant
                self.keys_distinct(),
                i <= self.entries@.len(),
                r@.len() == i,
                forall|j: int| 0 <= j < i ==> (#[trigger] r@[j])@ == self.entries@[j].0@,
            decreases self.entries@.len() - i,
        {
            r.push(self.entries[i].0.clone());
            i = i + 1;
        }
        proof {
            assert(self.dview().dom() =~= self.view().dom());
            assert forall|k: Seq<char>| #![auto] self.view().contains_key(k) <==> exists|i: int|
                0 <= i < r@.len() && r@[i]@ == k by {
                if self.view().contains_key(k) {
                    let j = choose|j: int| self.has_key_at(k, j);
                    assert(r@[j]@ == k);
                }
                if exists|i: int| 0 <= i < r@.len() && r@[i]@ == k {
                    let j = choose|j: int| 0 <= j < r@.len() && r@[j]@ == k;
                    assert(self.has_key_at(k, j));
                }
            }
            let keyseq = self.entries@.map_values(|e: (String, V)| e.0@);
            assert(keyseq.no_duplicates());
            assert(keyseq.to_set() =~= self.view().dom()) by {
                assert forall|k: Seq<char>| keyseq.to_set().contains(k) implies self.view().dom().contains(k) by {
                    let j = choose|j: int| 0 <= j < keyseq.len() && keyseq[j] == k;
                    assert(self.has_key_at(k, j));
                }
                assert forall|k: Seq<char>| self.view().dom().contains(k) implies keyseq.to_set().contains(k) by {
                    let j = choose|j: int| self.has_key_at(k, j);
                    assert(keyseq[j] == k);
                }
            }
            keyseq.unique_seq_to_set();
        }
        r
    }
}

impl<V: DeepView> DeepView for KeyMap<V> {
    type V = Map<Seq<char>, V::V>;

    open spec fn deep_view(&self) -> Map<Seq<char>, V::V> {
        self.dview()
    }
}

/// A copy of a list of strings.
pub fn clone_strings(v: &Vec<String>) -> (r: Vec<String>)
    ensures
        r.deep_view() == v.deep_view(),
        r@.len() == v@.len(),
{
    let mut r: Vec<String> = Vec::new();
    let mut i: usize = 0;
    while i < v.len()
        invariant
            i <= v@.len(),
            r@.len() == i,
            forall|j: int| 0 <= j < i ==> (#[trigger] r@[j])@ == v@[j]@,
        decreases v@.len() - i,
    {
        r.push(v[i].clone());
        i = i + 1;
    }
    assert(r.deep_view() =~= v.deep_view());
    r
}

/// A copy of a list of string pairs.
pub fn clone_string_pairs(v: &Vec<(String, String)>) -> (r: Vec<(String, String)>)
    ensures
        r.deep_view() == v.deep_view(),
{
    let mut r: Vec<(String, String)> = Vec::new();
    let mut i: usize = 0;
    while i < v.len()
        invariant
            i <= v@.len(),
            r@.len() == i,
            forall|j: int| 0 <= j < i ==> (#[trigger] r@[j]).0@ == v@[j].0@ && r@[j].1@ == v@[j].1@,
        decreases v@.len() - i,
    {
        r.push((v[i].0.clone(), v[i].1.clone()));
        i = i + 1;
    }
    assert(r.deep_view() =~= v.deep_view());
    r
}

impl<V: DeepView + Clone> Clone for KeyMap<V> {
    /// A copy with the same keys; each value is a clone of the value it copies.
    fn clone(&self) -> (r: Self)
        ensures
            r.view().dom() == self.view().dom(),
    {
        proof {
            use_type_invariant(self);
        }
        let mut entries: Vec<(String, V)> = Vec::new();
        let mut i: usize = 0;
        while i < self.entries.len()
            invariant
                self.keys_distinct(),
                i <= self.entries@.len(),
                entries@.len() == i,
                forall|j: int| 0 <= j < i ==> (#[trigger] entries@[j]).0@ == self.entries@[j].0@,
            decreases self.entries@.len() - i,
        {
            entries.push((self.entries[i].0.clone(), self.entries[i].1.clone()));
            i = i + 1;
        }
        let r = KeyMap { entries };
        assert forall|k: Seq<char>| r.view().dom().contains(k) <==> self.view().dom().contains(k) by {
            if r.view().dom().contains(k) {
                let j = choose|j: int| r.has_key_at(k, j);
                assert(self.has_key_at(k, j));
            }
            if self.view().dom().contains(k) {
                let j = choose|j: int| self.has_key_at(k, j);
                assert(r.has_key_at(k, j));
            }
        }
        assert(r.view().dom() =~= self.view().dom());
        r
    }
}

/// A finite set of text keys.
#[derive(Debug, Clone)]
pub struct KeySet {
    map: KeyMap<()>,
}

impl KeySet {
    /// The keys in the set.
    pub closed spec fn view(&self) -> Set<Seq<char>> {
        self.map.view().dom()
    }

    /// An empty set.
    pub fn new() -> (r: Self)
        ensures
            r.view() == Set::<Seq<char>>::empty(),
    {
        let r = KeySet { map: KeyMap::new() };
        assert(r.view() =~= Set::<Seq<char>>::empty());
        r
    }

    /// Membership.
    pub fn contains(&self, k: &str) -> (r: bool)
        ensures
            r == self.view().contains(k@),
    {
        self.map.contains_key(k)
    }

    /// Adds a key.
    pub fn insert(&mut self, k: &str)
        ensures
            final(self).view() == old(self).view().insert(k@),
    {
        self.map.insert(k, ());
        assert(self.view() =~= old(self).view().insert(k@));
    }

    /// Removes a key.
    pub fn remove(&mut self, k: &str)
        ensures
            final(self).view() == old(self).view().remove(k@),
    {
        self.map.remove(k);
        assert(self.view() =~= old(self).view().remove(k@));
    }

    /// Removes every key.
    pub fn clear(&mut self)
        ensures
            final(self).view() == Set::<Seq<char>>::empty(),
    {
        self.map.clear();
        assert(self.view() =~= Set::<Seq<char>>::empty());
    }

    /// The keys, each once.
    pub fn elements(&self) -> (r: Vec<String>)
        ensures
            r@.len() == self.view().len(),
            forall|k: Seq<char>| #![auto] self.view().contains(k) <==> exists|i: int|
                0 <= i < r@.len() && r@[i]@ == k,
    {
        self.map.keys()
    }
}

} // verus!
