//! A map with string keys, kept in the order of its keys.

use vstd::prelude::*;

use crate::order::{precedes, precedes_is_a_total_order, text_precedes, text_rank};
use crate::text::{chars_of, same_text};

verus! {

/// A map from strings, sorted by key, each key once.
#[derive(Debug)]
pub struct TextMap<V> {
    entries: Vec<(String, V)>,
}

impl<V> View for TextMap<V> {
    type V = Map<Seq<char>, V>;

    closed spec fn view(&self) -> Map<Seq<char>, V> {
        Map::new(
            |key: Seq<char>| exists|i: int| 0 <= i < self.entries@.len() && (#[trigger] self.entries@[i]).0@ == key,
            |key: Seq<char>|
                self.entries@[choose|i: int| 0 <= i < self.entries@.len() && (#[trigger] self.entries@[i]).0@ == key].1,
        )
    }
}

impl<V> TextMap<V> {
    /// The keys in the order in which the map holds them.
    pub closed spec fn keys(&self) -> Seq<Seq<char>> {
        self.entries@.map_values(|entry: (String, V)| entry.0@)
    }

    /// Each key comes before the ones after it.
    pub open spec fn wf(&self) -> bool {
        forall|i: int, j: int|
            #![trigger self.keys()[i], self.keys()[j]]
            0 <= i < j < self.keys().len() ==> precedes(text_rank(self.keys()[i]), text_rank(self.keys()[j]))
    }

    proof fn keys_are_unique(&self)
        requires
            self.wf(),
        ensures
            forall|i: int, j: int|
                #![trigger self.entries@[i], self.entries@[j]]
                0 <= i < self.entries@.len() && 0 <= j < self.entries@.len()
                    && self.entries@[i].0@ == self.entries@[j].0@ ==> i == j,
    {
        assert forall|i: int, j: int|
            #![trigger self.entries@[i], self.entries@[j]]
            0 <= i < self.entries@.len() && 0 <= j < self.entries@.len() && self.entries@[i].0@ == self.entries@[j].0@
            implies i == j by {
            let r = text_rank(self.entries@[i].0@);
            precedes_is_a_total_order(r, r, r);
            assert(self.keys()[i] == self.entries@[i].0@);
            assert(self.keys()[j] == self.entries@[j].0@);
        }
    }

    /// The keys of the map are those that it lists, and it lists each once.
    pub proof fn keys_are_the_domain(&self)
        requires
            self.wf(),
        ensures
            forall|key: Seq<char>| self@.contains_key(key) <==> self.keys().contains(key),
            self.keys().no_duplicates(),
    {
        self.keys_are_unique();
        assert forall|key: Seq<char>| self@.contains_key(key) implies self.keys().contains(key) by {
            let i = choose|i: int| 0 <= i < self.entries@.len() && (#[trigger] self.entries@[i]).0@ == key;
            assert(self.keys()[i] == key);
        }
        assert forall|key: Seq<char>| self.keys().contains(key) implies self@.contains_key(key) by {
            let i = choose|i: int| 0 <= i < self.keys().len() && self.keys()[i] == key;
            assert(self.entries@[i].0@ == key);
        }
        assert forall|i: int, j: int| 0 <= i < j < self.keys().len() implies self.keys()[i] != self.keys()[j] by {
            assert(self.entries@[i].0@ == self.keys()[i]);
            assert(self.entries@[j].0@ == self.keys()[j]);
        }
    }

    pub fn new() -> (map: Self)
        ensures
            map.wf(),
            map@ == Map::<Seq<char>, V>::empty(),
    {
        let map = TextMap { entries: Vec::new() };
        assert(map@ =~= Map::<Seq<char>, V>::empty());
        map
    }

    /// How many keys there are.
    pub fn len(&self) -> (n: usize)
        requires
            self.wf(),
        ensures
            n == self.keys().len(),
            n == self@.dom().len(),
            self@.dom().finite(),
    {
        proof {
            self.keys_are_the_domain();
            self.keys().unique_seq_to_set();
            assert(self@.dom() =~= self.keys().to_set());
        }
        self.entries.len()
    }

    /// The first place whose key does not come before the given one.
    fn place_of(&self, key: &str) -> (place: usize)
        requires
            self.wf(),
        ensures
            place <= self.entries@.len(),
            forall|i: int| 0 <= i < place ==> precedes(text_rank((#[trigger] self.entries@[i]).0@), text_rank(key@)),
            forall|i: int|
                place <= i < self.entries@.len() ==> !precedes(text_rank((#[trigger] self.entries@[i]).0@), text_rank(key@)),
            self@.contains_key(key@) <==> place < self.entries@.len() && self.entries@[place as int].0@ == key@,
            self@.contains_key(key@) ==> self@[key@] == self.entries@[place as int].1,
    {
        let wanted = chars_of(key);
        let mut i: usize = 0;
        while i < self.entries.len() && text_precedes(&chars_of(&self.entries[i].0), &wanted)
            invariant
                i <= self.entries@.len(),
                wanted@ == key@,
                forall|k: int| 0 <= k < i ==> precedes(text_rank((#[trigger] self.entries@[k]).0@), text_rank(key@)),
            decreases self.entries.len() - i,
        {
            i = i + 1;
        }
        proof {
            self.keys_are_unique();
            let r = text_rank(key@);
            assert forall|k: int| i <= k < self.entries@.len() implies
                !precedes(text_rank((#[trigger] self.entries@[k]).0@), r) by {
                let x = text_rank(self.entries@[i as int].0@);
                let y = text_rank(self.entries@[k].0@);
                assert(self.keys()[i as int] == self.entries@[i as int].0@);
                assert(self.keys()[k] == self.entries@[k].0@);
                precedes_is_a_total_order(x, y, r);
            }
            if self@.contains_key(key@) {
                let k = choose|k: int| 0 <= k < self.entries@.len() && (#[trigger] self.entries@[k]).0@ == key@;
                precedes_is_a_total_order(r, r, r);
                assert(k >= i);
                if k > i {
                    let x = text_rank(self.entries@[i as int].0@);
                    assert(self.keys()[i as int] == self.entries@[i as int].0@);
                    assert(self.keys()[k] == self.entries@[k].0@);
                    assert(precedes(x, r));
                }
            }
            if i < self.entries@.len() && self.entries@[i as int].0@ == key@ {
                assert(self@.contains_key(key@));
            }
        }
        i
    }

    pub fn get(&self, key: &str) -> (value: Option<&V>)
        requires
            self.wf(),
        ensures
            match value {
                Some(v) => self@.contains_key(key@) && *v == self@[key@],
                None => !self@.contains_key(key@),
            },
    {
        let place: usize = self.place_of(key);
        if place < self.entries.len() && same_text(&self.entries[place].0, key) {
            Some(&self.entries[place].1)
        } else {
            None
        }
    }

    pub fn contains_key(&self, key: &str) -> (found: bool)
        requires
            self.wf(),
        ensures
            found == self@.contains_key(key@),
    {
        self.get(key).is_some()
    }

    /// Sets the value of a key, whether it was there or not.
    pub fn insert(&mut self, key: String, value: V)
        requires
            old(self).wf(),
        ensures
            final(self).wf(),
            final(self)@ == old(self)@.insert(key@, value),
    {
        let ghost before = *self;
        let place: usize = self.place_of(&key);
        proof {
            self.keys_are_unique();
        }
        if place < self.entries.len() && same_text(&self.entries[place].0, &key) {
            self.entries[place].1 = value;
            proof {
                assert(self.keys() =~= before.keys());
                self.keys_are_unique();
                assert forall|k: Seq<char>| self@.contains_key(k) == before@.insert(key@, value).contains_key(k) by {
                    self.keys_are_the_domain();
                    before.keys_are_the_domain();
                    assert(before.keys()[place as int] == key@);
                    assert(self.keys().contains(key@));
                    assert(before.keys().contains(k) == self.keys().contains(k));
                    assert(before@.contains_key(k) == before.keys().contains(k));
                    assert(self@.contains_key(k) == self.keys().contains(k));
                }
                assert forall|k: Seq<char>| self@.contains_key(k) implies self@[k] == before@.insert(key@, value)[k] by {
                    let i = choose|i: int| 0 <= i < self.entries@.len() && (#[trigger] self.entries@[i]).0@ == k;
                    assert(before.entries@[i].0@ == k);
                }
                assert(self@ =~= before@.insert(key@, value));
            }
        } else {
            let ghost key_view = key@;
            self.entries.insert(place, (key, value));
            proof {
                let r = text_rank(key_view);
                assert(self.keys() =~= before.keys().insert(place as int, key_view));
                assert forall|i: int, j: int|
                    #![trigger self.keys()[i], self.keys()[j]]
                    0 <= i < j < self.keys().len() implies precedes(text_rank(self.keys()[i]), text_rank(self.keys()[j])) by {
                    if i == place {
                        assert(self.keys()[j] == before.keys()[j - 1]);
                        let y = text_rank(before.entries@[j - 1].0@);
                        assert(!precedes(y, r));
                        assert(y != r) by {
                            ranks_tell_strings_apart(before.entries@[j - 1].0@, key_view);
                            assert(before.entries@[j - 1].0@ != key_view);
                        }
                        precedes_is_a_total_order(r, y, r);
                    } else if j == place {
                        assert(self.keys()[i] == before.keys()[i]);
                        assert(before.entries@[i].0@ == before.keys()[i]);
                    } else {
                        let a = if i < place { i } else { i - 1 };
                        let b = if j < place { j } else { j - 1 };
                        assert(self.keys()[i] == before.keys()[a]);
                        assert(self.keys()[j] == before.keys()[b]);
                    }
                }
                self.keys_are_unique();
                self.keys_are_the_domain();
                before.keys_are_the_domain();
                assert forall|k: Seq<char>| self@.contains_key(k) == before@.insert(key_view, value).contains_key(k) by {
                    if k == key_view {
                        assert(self.keys()[place as int] == k);
                    } else if self.keys().contains(k) {
                        let i = choose|i: int| 0 <= i < self.keys().len() && self.keys()[i] == k;
                        let a = if i < place { i } else { i - 1 };
                        assert(before.keys()[a] == k);
                    } else if before.keys().contains(k) {
                        let a = choose|a: int| 0 <= a < before.keys().len() && before.keys()[a] == k;
                        let i = if a < place { a } else { a + 1 };
                        assert(self.keys()[i] == k);
                    }
                }
                assert forall|k: Seq<char>| self@.contains_key(k) implies self@[k] == before@.insert(key_view, value)[k] by {
                    let i = choose|i: int| 0 <= i < self.entries@.len() && (#[trigger] self.entries@[i]).0@ == k;
                    if i != place {
                        let a = if i < place { i } else { i - 1 };
                        assert(before.entries@[a] == self.entries@[i]);
                        assert(before.entries@[a].0@ == k);
                        assert(before.keys()[a] == k);
                        assert(k != key_view) by {
                            assert(self.entries@[place as int].0@ == key_view);
                        }
                    }
                }
                assert(self@ =~= before@.insert(key_view, value));
            }
        }
    }

    /// Takes a key out, with its value.
    pub fn remove(&mut self, key: &str) -> (value: Option<V>)
        requires
            old(self).wf(),
        ensures
            final(self).wf(),
            final(self)@ == old(self)@.remove(key@),
            match value {
                Some(v) => old(self)@.contains_key(key@) && v == old(self)@[key@],
                None => !old(self)@.contains_key(key@),
            },
    {
        let ghost before = *self;
        let place: usize = self.place_of(key);
        proof {
            self.keys_are_unique();
        }
        if place < self.entries.len() && same_text(&self.entries[place].0, key) {
            let entry = self.entries.remove(place);
            proof {
                assert(self.keys() =~= before.keys().remove(place as int));
                assert forall|i: int, j: int|
                    #![trigger self.keys()[i], self.keys()[j]]
                    0 <= i < j < self.keys().len() implies precedes(text_rank(self.keys()[i]), text_rank(self.keys()[j])) by {
                    let a = if i < place { i } else { i + 1 };
                    let b = if j < place { j } else { j + 1 };
                    assert(self.keys()[i] == before.keys()[a]);
                    assert(self.keys()[j] == before.keys()[b]);
                }
                self.keys_are_unique();
                self.keys_are_the_domain();
                before.keys_are_the_domain();
                assert forall|k: Seq<char>| self@.contains_key(k) == before@.remove(key@).contains_key(k) by {
                    if self.keys().contains(k) {
                        let i = choose|i: int| 0 <= i < self.keys().len() && self.keys()[i] == k;
                        let a = if i < place { i } else { i + 1 };
                        assert(before.keys()[a] == k);
                        assert(before.entries@[a].0@ == k);
                        assert(before.entries@[place as int].0@ == key@);
                    }
                    if k != key@ && before.keys().contains(k) {
                        let a = choose|a: int| 0 <= a < before.keys().len() && before.keys()[a] == k;
                        let i = if a < place { a } else { a - 1 };
                        assert(before.entries@[a].0@ == k);
                        assert(self.keys()[i] == k);
                    }
                }
                assert forall|k: Seq<char>| self@.contains_key(k) implies self@[k] == before@.remove(key@)[k] by {
                    let i = choose|i: int| 0 <= i < self.entries@.len() && (#[trigger] self.entries@[i]).0@ == k;
                    let a = if i < place { i } else { i + 1 };
                    assert(before.entries@[a] == self.entries@[i]);
                    assert(before.keys()[a] == k);
                }
                assert(self@ =~= before@.remove(key@));
            }
            Some(entry.1)
        } else {
            assert(self@ =~= before@.remove(key@));
            None
        }
    }
}

/// Strings with the same rank are the same.
pub proof fn ranks_tell_strings_apart(a: Seq<char>, b: Seq<char>)
    ensures
        text_rank(a) == text_rank(b) ==> a == b,
{
    if text_rank(a) == text_rank(b) {
        assert(a.len() == text_rank(a).len() && b.len() == text_rank(b).len());
        assert forall|i: int| 0 <= i < a.len() implies a[i] == b[i] by {
            assert(text_rank(a)[i] == a[i] as int);
            assert(text_rank(b)[i] == b[i] as int);
        }
        assert(a =~= b);
    }
}

/// What was set under a key is found there, and what stands under another key stays.
pub proof fn a_set_value_is_found<V>(map: &mut TextMap<V>, key: String, value: V, other: &str, found: Option<&V>)
    requires
        call_ensures(TextMap::<V>::insert, (map, key, value), ()),
        call_ensures(TextMap::<V>::get, (&*final(map), other), found),
    ensures
        other@ == key@ ==> (found matches Some(v) && *v == value),
        other@ != key@ ==> (found is Some <==> old(map)@.contains_key(other@)) && (found matches Some(v) ==> *v
            == old(map)@[other@]),
{
}

/// A key that was taken out is not found any more, and its value was handed out.
pub proof fn a_removed_key_is_gone<V>(map: &mut TextMap<V>, key: &str, value: Option<V>)
    requires
        call_ensures(TextMap::<V>::remove, (map, key), value),
    ensures
        !final(map)@.contains_key(key@),
        value is Some <==> old(map)@.contains_key(key@),
        value matches Some(v) ==> v == old(map)@[key@],
{
}

} // verus!
