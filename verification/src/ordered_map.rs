//! A map from text keys to values that keeps its entries in the order in
//! which their keys were first inserted.

use vstd::prelude::*;

verus! {

/// No two entries of the sequence have the same key.
pub open spec fn distinct_keys<V>(entries: Seq<(Seq<char>, V)>) -> bool {
    forall|i: int, j: int|
        0 <= i < j < entries.len() ==> (#[trigger] entries[i]).0 != (#[trigger] entries[j]).0
}

/// The position of `key` among the entries, if an entry has it.
pub open spec fn index_of<V>(entries: Seq<(Seq<char>, V)>, key: Seq<char>) -> Option<int> {
    if exists|i: int| 0 <= i < entries.len() && (#[trigger] entries[i]).0 == key {
        Some(choose|i: int| 0 <= i < entries.len() && (#[trigger] entries[i]).0 == key)
    } else {
        None
    }
}

/// An insertion-ordered map with `String` keys. Its view is the sequence of
/// its entries, each key by its text; the keys are pairwise distinct.
#[derive(Debug)]
pub struct OrderedMap<V> {
    entries: Vec<(String, V)>,
}

impl<V> View for OrderedMap<V> {
    type V = Seq<(Seq<char>, V)>;

    closed spec fn view(&self) -> Seq<(Seq<char>, V)> {
        Seq::new(self.entries@.len(), |i: int| (self.entries@[i].0@, self.entries@[i].1))
    }
}

impl<V: DeepView> DeepView for OrderedMap<V> {
    type V = Seq<(Seq<char>, V::V)>;

    open spec fn deep_view(&self) -> Seq<(Seq<char>, V::V)> {
        Seq::new(self@.len(), |i: int| (self@[i].0, self@[i].1.deep_view()))
    }
}

impl<V> OrderedMap<V> {
    #[verifier::type_invariant]
    spec fn keys_differ(&self) -> bool {
        distinct_keys(self@)
    }

    /// A map without entries.
    pub fn new() -> (res: Self)
        ensures
            res@ == Seq::<(Seq<char>, V)>::empty(),
    {
        let res = OrderedMap { entries: Vec::new() };
        assert(res@ =~= Seq::<(Seq<char>, V)>::empty());
        res
    }

    /// The number of entries. Their keys are pairwise distinct.
    pub fn len(&self) -> (res: usize)
        ensures
            res == self@.len(),
            distinct_keys(self@),
    {
        proof {
            use_type_invariant(self);
        }
        self.entries.len()
    }

    pub fn is_empty(&self) -> (res: bool)
        ensures
            res == (self@.len() == 0),
    {
        self.entries.len() == 0
    }

    /// The key of the entry at `index`.
    pub fn key(&self, index: usize) -> (res: &String)
        requires
            index < self@.len(),
        ensures
            res@ == self@[index as int].0,
    {
        &self.entries[index].0
    }

    /// The value of the entry at `index`.
    pub fn value(&self, index: usize) -> (res: &V)
        requires
            index < self@.len(),
        ensures
            *res == self@[index as int].1,
    {
        &self.entries[index].1
    }

    /// The entries in order, given up by the map.
    pub fn into_entries(self) -> (res: Vec<(String, V)>)
        ensures
            res@.len() == self@.len(),
            forall|i: int|
                0 <= i < res@.len() ==> (#[trigger] res@[i]).0@ == self@[i].0 && res@[i].1
                    == self@[i].1,
    {
        self.entries
    }

    /// The position of the entry with the given key, if there is one.
    pub fn position(&self, key: &String) -> (res: Option<usize>)
        ensures
            match res {
                Some(i) => i < self@.len() && self@[i as int].0 == key@ && index_of(self@, key@)
                    == Some(i as int),
                None => index_of(self@, key@) is None,
            },
    {
        proof {
            use_type_invariant(self);
        }
        let mut i: usize = 0;
        while i < self.entries.len()
            invariant
                0 <= i <= self.entries.len(),
                self@.len() == self.entries@.len(),
                distinct_keys(self@),
                forall|j: int| 0 <= j < i ==> (#[trigger] self@[j]).0 != key@,
            decreases self.entries.len() - i,
        {
            if self.entries[i].0 == *key {
                proof {
                    assert(self@[i as int].0 == key@);
                    let k: int = choose|k: int| 0 <= k < self@.len() && (#[trigger] self@[k]).0 == key@;
                    assert(k == i);
                }
                return Some(i);
            }
            i += 1;
        }
        None
    }

    /// Binds `key` to `value`. A key that is already present keeps its
    /// position and gives back the value it had; a new key goes to the end.
    pub fn insert(&mut self, key: String, value: V) -> (res: Option<V>)
        ensures
            distinct_keys(final(self)@),
            match index_of(old(self)@, key@) {
                Some(i) => final(self)@ == old(self)@.update(i, (key@, value)) && res == Some(
                    old(self)@[i].1,
                ),
                None => final(self)@ == old(self)@.push((key@, value)) && res is None,
            },
    {
        proof {
            use_type_invariant(&*self);
        }
        let ghost before = self@;
        let found = self.position(&key);
        let mut entries: Vec<(String, V)> = Vec::new();
        std::mem::swap(&mut self.entries, &mut entries);
        let res = match found {
            Some(i) => {
                let mut slot = (key, value);
                std::mem::swap(&mut entries[i], &mut slot);
                Some(slot.1)
            },
            None => {
                entries.push((key, value));
                None
            },
        };
        proof {
            let after = Seq::new(entries@.len(), |i: int| (entries@[i].0@, entries@[i].1));
            match found {
                Some(i) => {
                    assert(after =~= before.update(i as int, (key@, value)));
                },
                None => {
                    assert(after =~= before.push((key@, value)));
                },
            }
            assert(distinct_keys(after));
        }
        std::mem::swap(&mut self.entries, &mut entries);
        res
    }
}

} // verus!
