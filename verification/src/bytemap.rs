use crate::bytes::same_bytes;
use vstd::prelude::*;

verus! {

/// A finite map from byte strings to values, kept in the order in which
/// its keys first came. No key occurs twice: inserting under a key that is
/// present replaces the value that was there.
#[derive(Debug)]
pub struct ByteMap<V> {
    keys: Vec<Vec<u8>>,
    values: Vec<V>,
}

impl<V: View> View for ByteMap<V> {
    type V = Map<Seq<u8>, V::V>;

    closed spec fn view(&self) -> Map<Seq<u8>, V::V> {
        Map::new(
            |key: Seq<u8>| self.key_seq().contains(key),
            |key: Seq<u8>| self.values[self.key_seq().index_of(key)]@,
        )
    }
}

impl<V: View> ByteMap<V> {
    /// The keys in the order in which they came.
    pub closed spec fn key_seq(&self) -> Seq<Seq<u8>> {
        Seq::new(self.keys.len() as nat, |i: int| self.keys[i]@)
    }

    /// The values, each at the position of its key in [`Self::key_seq`].
    pub closed spec fn value_seq(&self) -> Seq<V::V> {
        Seq::new(self.values.len() as nat, |i: int| self.values[i]@)
    }

    /// Every key has its value, and no key occurs twice.
    pub closed spec fn wf(&self) -> bool {
        &&& self.keys.len() == self.values.len()
        &&& self.key_seq().no_duplicates()
    }

    /// How the map follows from its keys and values.
    pub proof fn lemma_view(&self)
        requires
            self.wf(),
        ensures
            self.key_seq().len() == self.value_seq().len(),
            self.key_seq().no_duplicates(),
            self@.dom() == self.key_seq().to_set(),
            self@.dom().finite(),
            self@.len() == self.key_seq().len(),
            forall|i: int|
                0 <= i < self.key_seq().len() ==> self@.contains_key(#[trigger] self.key_seq()[i])
                    && self@[self.key_seq()[i]] == self.value_seq()[i],
    {
        let keys = self.key_seq();
        assert(self@.dom() =~= keys.to_set());
        vstd::seq_lib::seq_to_set_is_finite(keys);
        keys.unique_seq_to_set();
        assert forall|i: int| 0 <= i < keys.len() implies self@.contains_key(#[trigger] keys[i])
            && self@[keys[i]] == self.value_seq()[i] by {
            assert(keys.contains(keys[i]));
            let j = keys.index_of(keys[i]);
            assert(0 <= j < keys.len() && keys[j] == keys[i]);
            assert(j == i);
        }
    }

    pub fn new() -> (map: Self)
        ensures
            map.wf(),
            map@ == Map::<Seq<u8>, V::V>::empty(),
            map.key_seq() == Seq::<Seq<u8>>::empty(),
    {
        let map = ByteMap { keys: Vec::new(), values: Vec::new() };
        assert(map.key_seq() =~= Seq::<Seq<u8>>::empty());
        assert(map@ =~= Map::<Seq<u8>, V::V>::empty());
        map
    }

    /// Number of keys.
    pub fn len(&self) -> (n: usize)
        requires
            self.wf(),
        ensures
            n == self@.len(),
            n == self.key_seq().len(),
    {
        proof {
            self.lemma_view();
        }
        self.keys.len()
    }

    pub fn is_empty(&self) -> (empty: bool)
        requires
            self.wf(),
        ensures
            empty == (self@.len() == 0),
    {
        self.len() == 0
    }

    /// Where `key` stands among the keys, if it is one of them.
    pub fn position(&self, key: &Vec<u8>) -> (found: Option<usize>)
        requires
            self.wf(),
        ensures
            match found {
                Some(i) => i < self.key_seq().len() && self.key_seq()[i as int] == key@,
                None => !self.key_seq().contains(key@),
            },
            found is Some == self@.contains_key(key@),
    {
        let mut i: usize = 0;
        while i < self.keys.len()
            invariant
                i <= self.keys.len(),
                forall|j: int| 0 <= j < i ==> self.key_seq()[j] != key@,
            decreases self.keys.len() - i,
        {
            if same_bytes(&self.keys[i], key) {
                assert(self.key_seq()[i as int] == key@);
                assert(self.key_seq().contains(key@));
                return Some(i);
            }
            i += 1;
        }
        None
    }

    pub fn contains_key(&self, key: &Vec<u8>) -> (present: bool)
        requires
            self.wf(),
        ensures
            present == self@.contains_key(key@),
    {
        self.position(key).is_some()
    }

    /// The value under `key`, if there is one.
    pub fn get(&self, key: &Vec<u8>) -> (value: Option<&V>)
        requires
            self.wf(),
        ensures
            match value {
                Some(v) => self@.contains_key(key@) && self@[key@] == v@,
                None => !self@.contains_key(key@),
            },
    {
        match self.position(key) {
            Some(i) => {
                proof {
                    self.lemma_view();
                    assert(self.value_seq()[i as int] == self.values[i as int]@);
                }
                Some(&self.values[i])
            },
            None => None,
        }
    }

    /// The key at position `i`, counting from the first key that came.
    pub fn key_at(&self, i: usize) -> (key: &Vec<u8>)
        requires
            self.wf(),
            i < self.key_seq().len(),
        ensures
            key@ == self.key_seq()[i as int],
    {
        &self.keys[i]
    }

    /// The value at position `i`: the one under the key at that position.
    pub fn value_at(&self, i: usize) -> (value: &V)
        requires
            self.wf(),
            i < self.key_seq().len(),
        ensures
            value@ == self.value_seq()[i as int],
            value@ == self@[self.key_seq()[i as int]],
    {
        proof {
            self.lemma_view();
        }
        &self.values[i]
    }

    /// Puts `value` under `key`, in place of any value that was there.
    pub fn insert(&mut self, key: Vec<u8>, value: V)
        requires
            old(self).wf(),
        ensures
            final(self).wf(),
            final(self)@ == old(self)@.insert(key@, value@),
            final(self).key_seq() == (if old(self)@.contains_key(key@) {
                old(self).key_seq()
            } else {
                old(self).key_seq().push(key@)
            }),
    {
        let ghost before = *self;
        proof {
            before.lemma_view();
        }
        match self.position(&key) {
            Some(i) => {
                self.values.set(i, value);
                proof {
                    assert(self.key_seq() =~= before.key_seq());
                    self.lemma_view();
                    assert(self.value_seq() =~= before.value_seq().update(i as int, value@));
                    assert forall|k: Seq<u8>| self@.contains_key(k) implies #[trigger] self@[k]
                        == before@.insert(key@, value@)[k] by {
                        let j = self.key_seq().index_of(k);
                        assert(self.key_seq().contains(k));
                        assert(0 <= j < self.key_seq().len() && self.key_seq()[j] == k);
                    }
                    assert(self@ =~= before@.insert(key@, value@));
                }
            },
            None => {
                self.keys.push(key);
                self.values.push(value);
                proof {
                    assert(self.key_seq() =~= before.key_seq().push(key@));
                    assert(self.value_seq() =~= before.value_seq().push(value@));
                    assert(self.key_seq().no_duplicates());
                    self.lemma_view();
                    let after = before@.insert(key@, value@);
                    assert forall|k: Seq<u8>| #[trigger] after.dom().contains(k) implies self@.dom().contains(k)
                        && self@[k] == after[k] by {
                        if k == key@ {
                            let last = self.key_seq().len() - 1;
                            assert(self.key_seq()[last] == k);
                        } else {
                            let j = before.key_seq().index_of(k);
                            assert(before.key_seq().contains(k));
                            assert(0 <= j < before.key_seq().len() && before.key_seq()[j] == k);
                            assert(self.key_seq()[j] == k);
                        }
                    }
                    assert forall|k: Seq<u8>| #[trigger] self@.dom().contains(k) implies after.dom().contains(k) by {
                        let j = self.key_seq().index_of(k);
                        assert(self.key_seq().contains(k));
                        assert(0 <= j < self.key_seq().len() && self.key_seq()[j] == k);
                        if j < before.key_seq().len() {
                            assert(before.key_seq()[j] == k);
                            assert(before.key_seq().contains(k));
                        }
                    }
                    assert(self@.dom() =~= after.dom());
                    assert(self@ =~= before@.insert(key@, value@));
                }
            },
        }
    }
}

} // verus!
