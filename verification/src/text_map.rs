//! A map keyed by text that keeps its entries in the order in which their
//! keys first came in.

use vstd::prelude::*;
use vstd::string::*;

verus! {

/// Whether `i` is the first position of `key` in `keys`.
pub open spec fn is_first_position(keys: Seq<Seq<char>>, key: Seq<char>, i: int) -> bool {
    &&& 0 <= i < keys.len()
    &&& keys[i] == key
    &&& forall|j: int| 0 <= j < i ==> keys[j] != key
}

/// The first position of `key` in `keys`, where it occurs.
pub open spec fn position(keys: Seq<Seq<char>>, key: Seq<char>) -> int {
    choose|i: int| is_first_position(keys, key, i)
}

/// A key that occurs in `keys` has a first position.
pub proof fn lemma_position(keys: Seq<Seq<char>>, key: Seq<char>)
    requires
        keys.contains(key),
    ensures
        is_first_position(keys, key, position(keys, key)),
    decreases keys.len(),
{
    let k = choose|k: int| 0 <= k < keys.len() && keys[k] == key;
    if exists|j: int| 0 <= j < k && keys[j] == key {
        let front = keys.take(k);
        let j = choose|j: int| 0 <= j < k && keys[j] == key;
        assert(front[j] == key);
        lemma_position(front, key);
        let p = position(front, key);
        assert(is_first_position(keys, key, p)) by {
            assert(front[p] == keys[p]);
            assert forall|m: int| 0 <= m < p implies keys[m] != key by {
                assert(front[m] == keys[m]);
            }
        }
    } else {
        assert(is_first_position(keys, key, k));
    }
}

/// A map from text to `V`, kept as a list of entries. Where a key stands
/// more than once, its first entry counts; the map's own functions never
/// bring a key in twice.
pub struct TextMap<V> {
    entries: Vec<(String, V)>,
}

impl<V> View for TextMap<V> {
    type V = Map<Seq<char>, V>;

    open spec fn view(&self) -> Map<Seq<char>, V> {
        Map::new(
            |k: Seq<char>| self.key_seq().contains(k),
            |k: Seq<char>| self.value_seq()[position(self.key_seq(), k)],
        )
    }
}

impl<V> TextMap<V> {
    /// The keys, in insertion order.
    pub closed spec fn key_seq(&self) -> Seq<Seq<char>> {
        Seq::new(self.entries@.len(), |i: int| self.entries@[i].0@)
    }

    /// The values, each at the position of its key.
    pub closed spec fn value_seq(&self) -> Seq<V> {
        Seq::new(self.entries@.len(), |i: int| self.entries@[i].1)
    }

    /// No key occurs twice.
    pub open spec fn well_formed(&self) -> bool {
        self.key_seq().no_duplicates()
    }

    /// Keys and values pair up, and in a well-formed map each key is bound
    /// to the value at its position.
    pub proof fn lemma_shape(&self)
        ensures
            self.key_seq().len() == self.value_seq().len(),
            self.well_formed() ==> forall|i: int|
                0 <= i < self.key_seq().len() ==> self@.contains_pair(
                    #[trigger] self.key_seq()[i],
                    self.value_seq()[i],
                ),
    {
        if self.well_formed() {
            assert forall|i: int| 0 <= i < self.key_seq().len() implies self@.contains_pair(
                #[trigger] self.key_seq()[i],
                self.value_seq()[i],
            ) by {
                lemma_position(self.key_seq(), self.key_seq()[i]);
            }
        }
    }

    /// A well-formed map binds as many keys as it has entries.
    pub proof fn lemma_count(&self)
        requires
            self.well_formed(),
        ensures
            self@.dom().finite(),
            self@.dom().len() == self.key_seq().len(),
    {
        let keys = self.key_seq();
        vstd::seq_lib::seq_to_set_is_finite(keys);
        keys.unique_seq_to_set();
        assert(self@.dom() =~= keys.to_set());
    }

    /// An empty map.
    pub fn new() -> (m: Self)
        ensures
            m.key_seq().len() == 0,
            m.value_seq().len() == 0,
            m@ == Map::<Seq<char>, V>::empty(),
            m.well_formed(),
    {
        let m = TextMap { entries: Vec::new() };
        assert(m@ =~= Map::<Seq<char>, V>::empty());
        m
    }

    /// The number of entries.
    pub fn len(&self) -> (n: usize)
        ensures
            n == self.key_seq().len(),
            n == self.value_seq().len(),
    {
        self.entries.len()
    }

    /// The first position of `key` among the keys, if it is one.
    fn find(&self, key: &String) -> (r: Option<usize>)
        ensures
            match r {
                Some(i) => is_first_position(self.key_seq(), key@, i as int) && i == position(self.key_seq(), key@),
                None => !self.key_seq().contains(key@),
            },
    {
        let mut i: usize = 0;
        while i < self.entries.len()
            invariant
                i <= self.entries.len(),
                forall|j: int| 0 <= j < i ==> self.key_seq()[j] != key@,
            decreases self.entries.len() - i,
        {
            if self.entries[i].0 == *key {
                assert(is_first_position(self.key_seq(), key@, i as int));
                assert(self.key_seq().contains(key@));
                proof {
                    lemma_position(self.key_seq(), key@);
                }
                return Some(i);
            }
            i += 1;
        }
        None
    }

    /// Binds `key` to `value`: in place where the key is bound already, as a
    /// new last entry otherwise.
    pub fn insert(&mut self, key: String, value: V)
        ensures
            final(self)@ == old(self)@.insert(key@, value),
            final(self)@.dom() == old(self)@.dom().insert(key@),
            final(self)@.dom().contains(key@),
            final(self)@[key@] == value,
            forall|k: Seq<char>| k != key@ && old(self)@.dom().contains(k) ==> #[trigger] final(self)@[k] == old(
                self,
            )@[k],
            old(self).key_seq().contains(key@) ==> final(self).key_seq() == old(self).key_seq()
                && final(self).value_seq() == old(self).value_seq().update(
                position(old(self).key_seq(), key@),
                value,
            ),
            !old(self).key_seq().contains(key@) ==> final(self).key_seq() == old(self).key_seq().push(key@)
                && final(self).value_seq() == old(self).value_seq().push(value),
            old(self).well_formed() ==> final(self).well_formed(),
    {
        let ghost keys0 = self.key_seq();
        let ghost values0 = self.value_seq();
        match self.find(&key) {
            Some(i) => {
                self.entries.set(i, (key, value));
                assert(self.key_seq() =~= keys0);
                assert(self.value_seq() =~= values0.update(i as int, value));
                assert(self@ =~= old(self)@.insert(key@, value)) by {
                    assert forall|k: Seq<char>| keys0.contains(k) implies #[trigger] self@[k] == old(self)@.insert(
                        key@,
                        value,
                    )[k] by {
                        lemma_position(keys0, k);
                    }
                }
            },
            None => {
                self.entries.push((key, value));
                let ghost keys1 = self.key_seq();
                assert(keys1 =~= keys0.push(key@));
                assert(self.value_seq() =~= values0.push(value));
                assert(self@ =~= old(self)@.insert(key@, value)) by {
                    assert forall|k: Seq<char>| keys1.contains(k) <==> (keys0.contains(k) || k == key@) by {
                        if keys0.contains(k) {
                            let p = choose|p: int| 0 <= p < keys0.len() && keys0[p] == k;
                            assert(keys1[p] == k);
                        }
                        if k == key@ {
                            assert(keys1[keys0.len() as int] == k);
                        }
                        if keys1.contains(k) {
                            let p = choose|p: int| 0 <= p < keys1.len() && keys1[p] == k;
                            if p < keys0.len() {
                                assert(keys0[p] == k);
                            }
                        }
                    }
                    assert forall|k: Seq<char>| keys1.contains(k) implies #[trigger] self@[k] == old(self)@.insert(
                        key@,
                        value,
                    )[k] by {
                        lemma_position(keys1, k);
                        let p = position(keys1, k);
                        if k == key@ {
                            if p < keys0.len() {
                                assert(keys0[p] == k);
                            }
                        } else {
                            assert(keys0[p] == k);
                            lemma_position(keys0, k);
                            let q = position(keys0, k);
                            assert(keys1[q] == k);
                            assert(p == q) by {
                                if p < q {
                                    assert(keys0[p] == k);
                                } else if q < p {
                                    assert(keys1[q] == k);
                                }
                            }
                        }
                    }
                }
            },
        }
    }

    /// The value that `key` is bound to, if any.
    pub fn get(&self, key: &str) -> (r: Option<&V>)
        ensures
            match r {
                Some(v) => self@.dom().contains(key@) && *v == self@[key@],
                None => !self@.dom().contains(key@),
            },
    {
        let k = String::from_str(key);
        match self.find(&k) {
            Some(i) => Some(&self.entries[i].1),
            None => None,
        }
    }

    /// The key of entry `i`, counted in insertion order.
    pub fn key_at(&self, i: usize) -> (k: &String)
        requires
            i < self.key_seq().len(),
        ensures
            k@ == self.key_seq()[i as int],
    {
        &self.entries[i].0
    }

    /// The value of entry `i`, counted in insertion order.
    pub fn value_at(&self, i: usize) -> (v: &V)
        requires
            i < self.value_seq().len(),
        ensures
            *v == self.value_seq()[i as int],
    {
        &self.entries[i].1
    }
}

} // verus!
