use vstd::prelude::*;
use crate::assoc::{
    assoc_contains, assoc_get, assoc_remove, assoc_set, distinct_keys, lemma_assoc_get_at,
    lemma_assoc_get_none, lemma_assoc_remove_at, lemma_assoc_remove_absent, lemma_assoc_set_at,
    lemma_assoc_set_absent,
};

verus! {

/// An association list keyed by strings; the model is the sequence of
/// (name, value) pairs in insertion order, with no name bound twice.
pub struct StrMap<V> {
    pub entries: Vec<(String, V)>,
}

impl<V: View> View for StrMap<V> {
    type V = Seq<(Seq<char>, V::V)>;

    open spec fn view(&self) -> Seq<(Seq<char>, V::V)> {
        Seq::new(self.entries@.len(), |i: int| (self.entries@[i].0@, self.entries@[i].1@))
    }
}

impl<V: View> StrMap<V> {
    pub open spec fn wf(&self) -> bool {
        distinct_keys(self@)
    }

    pub fn empty() -> (r: Self)
        ensures
            r@ == Seq::<(Seq<char>, V::V)>::empty(),
            r.wf(),
    {
        let r = StrMap { entries: Vec::new() };
        proof {
            assert(r@ =~= Seq::<(Seq<char>, V::V)>::empty());
        }
        r
    }

    pub fn index_of(&self, key: &String) -> (r: Option<usize>)
        ensures
            match r {
                Some(i) => i < self@.len() && self@[i as int].0 == key@ && (forall|j: int|
                    0 <= j < i ==> self@[j].0 != key@),
                None => forall|j: int| 0 <= j < self@.len() ==> self@[j].0 != key@,
            },
    {
        let n = self.entries.len();
        for i in 0..n
            invariant
                n == self.entries.len(),
                forall|j: int| 0 <= j < i ==> self@[j].0 != key@,
        {
            if self.entries[i].0.eq(key) {
                return Some(i);
            }
        }
        None
    }

    pub fn get<'a>(&'a self, key: &String) -> (r: Option<&'a V>)
        ensures
            match r {
                Some(v) => assoc_get(self@, key@) == Some(v@),
                None => assoc_get(self@, key@) is None,
            },
    {
        match self.index_of(key) {
            Some(i) => {
                proof {
                    lemma_assoc_get_at(self@, key@, i as int);
                }
                Some(&self.entries[i].1)
            },
            None => {
                proof {
                    lemma_assoc_get_none(self@, key@);
                }
                None
            },
        }
    }

    pub fn contains(&self, key: &String) -> (r: bool)
        ensures
            r == assoc_contains(self@, key@),
    {
        self.get(key).is_some()
    }

    pub fn set(&mut self, key: String, value: V)
        requires
            old(self).wf(),
        ensures
            final(self).wf(),
            final(self)@ == assoc_set(old(self)@, key@, value@),
            forall|j: int|
                0 <= j < final(self)@.len() ==> (final(self)@[j] == (key@, value@) || old(
                    self,
                )@.contains(final(self)@[j])),
    {
        match self.index_of(&key) {
            Some(i) => {
                proof {
                    lemma_assoc_set_at(self@, key@, value@, i as int);
                }
                self.entries.remove(i);
                self.entries.insert(i, (key, value));
                proof {
                    assert(self@ =~= assoc_set(old(self)@, key@, value@));
                    assert forall|j: int|
                        0 <= j < self@.len() implies (self@[j] == (key@, value@) || old(
                        self,
                    )@.contains(self@[j])) by {
                        if j != i {
                            assert(old(self)@[j] == self@[j]);
                        }
                    }
                }
            },
            None => {
                proof {
                    lemma_assoc_set_absent(self@, key@, value@);
                }
                self.entries.push((key, value));
                proof {
                    assert(self@ =~= assoc_set(old(self)@, key@, value@));
                    assert forall|j: int|
                        0 <= j < self@.len() implies (self@[j] == (key@, value@) || old(
                        self,
                    )@.contains(self@[j])) by {
                        if j < self@.len() - 1 {
                            assert(old(self)@[j] == self@[j]);
                        }
                    }
                }
            },
        }
    }

    pub fn remove(&mut self, key: &String) -> (r: Option<V>)
        requires
            old(self).wf(),
        ensures
            final(self).wf(),
            final(self)@ == assoc_remove(old(self)@, key@),
            forall|j: int|
                0 <= j < final(self)@.len() ==> old(self)@.contains(final(self)@[j]),
            match r {
                Some(v) => assoc_get(old(self)@, key@) == Some(v@),
                None => assoc_get(old(self)@, key@) is None && final(self)@ == old(self)@,
            },
    {
        match self.index_of(key) {
            Some(i) => {
                proof {
                    lemma_assoc_get_at(self@, key@, i as int);
                    lemma_assoc_remove_at(self@, key@, i as int);
                }
                let (_, v) = self.entries.remove(i);
                proof {
                    assert(self@ =~= assoc_remove(old(self)@, key@));
                    assert forall|j: int| 0 <= j < self@.len() implies old(self)@.contains(
                        self@[j],
                    ) by {
                        if j < i {
                            assert(old(self)@[j] == self@[j]);
                        } else {
                            assert(old(self)@[j + 1] == self@[j]);
                        }
                    }
                }
                Some(v)
            },
            None => {
                proof {
                    lemma_assoc_get_none(self@, key@);
                    lemma_assoc_remove_absent(self@, key@);
                    assert forall|j: int| 0 <= j < self@.len() implies old(self)@.contains(
                        self@[j],
                    ) by {
                        assert(old(self)@[j] == self@[j]);
                    }
                }
                None
            },
        }
    }
}

/// An association list keyed by unsigned integers, modelled the same way.
pub struct UintMap<V> {
    pub entries: Vec<(usize, V)>,
}

impl<V: View> View for UintMap<V> {
    type V = Seq<(usize, V::V)>;

    open spec fn view(&self) -> Seq<(usize, V::V)> {
        Seq::new(self.entries@.len(), |i: int| (self.entries@[i].0, self.entries@[i].1@))
    }
}

impl<V: View> UintMap<V> {
    pub open spec fn wf(&self) -> bool {
        distinct_keys(self@)
    }

    pub fn empty() -> (r: Self)
        ensures
            r@ == Seq::<(usize, V::V)>::empty(),
            r.wf(),
    {
        let r = UintMap { entries: Vec::new() };
        proof {
            assert(r@ =~= Seq::<(usize, V::V)>::empty());
        }
        r
    }

    pub fn index_of(&self, key: usize) -> (r: Option<usize>)
        ensures
            match r {
                Some(i) => i < self@.len() && self@[i as int].0 == key && (forall|j: int|
                    0 <= j < i ==> self@[j].0 != key),
                None => forall|j: int| 0 <= j < self@.len() ==> self@[j].0 != key,
            },
    {
        let n = self.entries.len();
        for i in 0..n
            invariant
                n == self.entries.len(),
                forall|j: int| 0 <= j < i ==> self@[j].0 != key,
        {
            if self.entries[i].0 == key {
                return Some(i);
            }
        }
        None
    }

    pub fn get<'a>(&'a self, key: usize) -> (r: Option<&'a V>)
        ensures
            match r {
                Some(v) => assoc_get(self@, key) == Some(v@),
                None => assoc_get(self@, key) is None,
            },
    {
        match self.index_of(key) {
            Some(i) => {
                proof {
                    lemma_assoc_get_at(self@, key, i as int);
                }
                Some(&self.entries[i].1)
            },
            None => {
                proof {
                    lemma_assoc_get_none(self@, key);
                }
                None
            },
        }
    }

    pub fn contains(&self, key: usize) -> (r: bool)
        ensures
            r == assoc_contains(self@, key),
    {
        self.get(key).is_some()
    }

    pub fn set(&mut self, key: usize, value: V)
        requires
            old(self).wf(),
        ensures
            final(self).wf(),
            final(self)@ == assoc_set(old(self)@, key, value@),
            forall|j: int|
                0 <= j < final(self)@.len() ==> (final(self)@[j] == (key, value@) || old(
                    self,
                )@.contains(final(self)@[j])),
    {
        match self.index_of(key) {
            Some(i) => {
                proof {
                    lemma_assoc_set_at(self@, key, value@, i as int);
                }
                self.entries.remove(i);
                self.entries.insert(i, (key, value));
                proof {
                    assert(self@ =~= assoc_set(old(self)@, key, value@));
                    assert forall|j: int|
                        0 <= j < self@.len() implies (self@[j] == (key, value@) || old(
                        self,
                    )@.contains(self@[j])) by {
                        if j != i {
                            assert(old(self)@[j] == self@[j]);
                        }
                    }
                }
            },
            None => {
                proof {
                    lemma_assoc_set_absent(self@, key, value@);
                }
                self.entries.push((key, value));
                proof {
                    assert(self@ =~= assoc_set(old(self)@, key, value@));
                    assert forall|j: int|
                        0 <= j < self@.len() implies (self@[j] == (key, value@) || old(
                        self,
                    )@.contains(self@[j])) by {
                        if j < self@.len() - 1 {
                            assert(old(self)@[j] == self@[j]);
                        }
                    }
                }
            },
        }
    }

    pub fn remove(&mut self, key: usize) -> (r: Option<V>)
        requires
            old(self).wf(),
        ensures
            final(self).wf(),
            final(self)@ == assoc_remove(old(self)@, key),
            forall|j: int|
                0 <= j < final(self)@.len() ==> old(self)@.contains(final(self)@[j]),
            match r {
                Some(v) => assoc_get(old(self)@, key) == Some(v@),
                None => assoc_get(old(self)@, key) is None && final(self)@ == old(self)@,
            },
    {
        match self.index_of(key) {
            Some(i) => {
                proof {
                    lemma_assoc_get_at(self@, key, i as int);
                    lemma_assoc_remove_at(self@, key, i as int);
                }
                let (_, v) = self.entries.remove(i);
                proof {
                    assert(self@ =~= assoc_remove(old(self)@, key));
                    assert forall|j: int| 0 <= j < self@.len() implies old(self)@.contains(
                        self@[j],
                    ) by {
                        if j < i {
                            assert(old(self)@[j] == self@[j]);
                        } else {
                            assert(old(self)@[j + 1] == self@[j]);
                        }
                    }
                }
                Some(v)
            },
            None => {
                proof {
                    lemma_assoc_get_none(self@, key);
                    lemma_assoc_remove_absent(self@, key);
                    assert forall|j: int| 0 <= j < self@.len() implies old(self)@.contains(
                        self@[j],
                    ) by {
                        assert(old(self)@[j] == self@[j]);
                    }
                }
                None
            },
        }
    }
}

} // verus!
