//! A key-value store with string keys: what the engine asks of the
//! persistence it runs on.

use vstd::prelude::*;

verus! {

/// The mapping that a list of key-value slots stands for. Where a key
/// occurs twice, its first slot counts.
pub open spec fn slots_map<V: DeepView>(slots: Seq<(String, V)>) -> Map<Seq<char>, V::V>
    decreases slots.len(),
{
    if slots.len() == 0 {
        Map::empty()
    } else {
        let earlier = slots_map(slots.drop_last());
        if earlier.dom().contains(slots.last().0@) {
            earlier
        } else {
            earlier.insert(slots.last().0@, slots.last().1.deep_view())
        }
    }
}

/// Slot `i` is the first slot of `slots` with key `key`.
pub open spec fn first_slot<V>(slots: Seq<(String, V)>, key: Seq<char>, i: int) -> bool {
    &&& 0 <= i < slots.len()
    &&& slots[i].0@ == key
    &&& forall|j: int| 0 <= j < i ==> slots[j].0@ != key
}

/// No slot of `slots` has key `key`.
pub open spec fn no_slot<V>(slots: Seq<(String, V)>, key: Seq<char>) -> bool {
    forall|j: int| 0 <= j < slots.len() ==> slots[j].0@ != key
}

proof fn lemma_absent<V: DeepView>(slots: Seq<(String, V)>, key: Seq<char>)
    requires
        no_slot(slots, key),
    ensures
        !slots_map(slots).dom().contains(key),
    decreases slots.len(),
{
    if slots.len() > 0 {
        assert(slots[slots.len() - 1].0@ != key);
        lemma_absent(slots.drop_last(), key);
    }
}

proof fn lemma_present<V: DeepView>(slots: Seq<(String, V)>, key: Seq<char>, i: int)
    requires
        first_slot(slots, key, i),
    ensures
        slots_map(slots).dom().contains(key),
        slots_map(slots)[key] == slots[i].1.deep_view(),
    decreases slots.len(),
{
    let earlier = slots.drop_last();
    if i == slots.len() - 1 {
        lemma_absent(earlier, key);
    } else {
        assert(first_slot(earlier, key, i));
        lemma_present(earlier, key, i);
    }
}

proof fn lemma_replace<V: DeepView>(slots: Seq<(String, V)>, key: String, value: V, i: int)
    requires
        first_slot(slots, key@, i),
    ensures
        slots_map(slots.update(i, (key, value))) == slots_map(slots).insert(
            key@,
            value.deep_view(),
        ),
    decreases slots.len(),
{
    let after = slots.update(i, (key, value));
    let earlier = slots.drop_last();
    if i == slots.len() - 1 {
        assert(after.drop_last() =~= earlier);
        lemma_absent(earlier, key@);
        assert(slots_map(after) =~= slots_map(slots).insert(key@, value.deep_view()));
    } else {
        assert(first_slot(earlier, key@, i));
        assert(after.drop_last() =~= earlier.update(i, (key, value)));
        lemma_replace(earlier, key, value, i);
        lemma_present(earlier, key@, i);
        assert(slots_map(after) =~= slots_map(slots).insert(key@, value.deep_view()));
    }
}

proof fn lemma_append<V: DeepView>(slots: Seq<(String, V)>, key: String, value: V)
    requires
        no_slot(slots, key@),
    ensures
        slots_map(slots.push((key, value))) == slots_map(slots).insert(key@, value.deep_view()),
{
    lemma_absent(slots, key@);
    assert(slots.push((key, value)).drop_last() =~= slots);
}

/// A store of values under string keys.
pub struct KeyedStore<V> {
    slots: Vec<(String, V)>,
}

impl<V: DeepView> View for KeyedStore<V> {
    type V = Map<Seq<char>, V::V>;

    closed spec fn view(&self) -> Map<Seq<char>, V::V> {
        slots_map(self.slots@)
    }
}

impl<V: DeepView> KeyedStore<V> {
    /// A store that holds nothing.
    pub fn new() -> (store: Self)
        ensures
            store@ == Map::<Seq<char>, V::V>::empty(),
    {
        KeyedStore { slots: Vec::new() }
    }

    /// The first slot with key `key`, if there is one.
    fn find(&self, key: &String) -> (found: Option<usize>)
        ensures
            match found {
                Some(i) => first_slot(self.slots@, key@, i as int),
                None => no_slot(self.slots@, key@),
            },
    {
        let mut i: usize = 0;
        while i < self.slots.len()
            invariant
                i <= self.slots.len(),
                forall|j: int| 0 <= j < i ==> self.slots[j].0@ != key@,
            decreases self.slots.len() - i,
        {
            if self.slots[i].0 == *key {
                return Some(i);
            }
            i += 1;
        }
        None
    }

    /// The value stored under `key`, if there is one.
    pub fn get(&self, key: &String) -> (value: Option<&V>)
        ensures
            match value {
                Some(v) => self@.dom().contains(key@) && self@[key@] == v.deep_view(),
                None => !self@.dom().contains(key@),
            },
    {
        match self.find(key) {
            Some(i) => {
                proof {
                    lemma_present(self.slots@, key@, i as int);
                }
                Some(&self.slots[i].1)
            },
            None => {
                proof {
                    lemma_absent(self.slots@, key@);
                }
                None
            },
        }
    }

    /// Stores `value` under `key`, in place of what was stored there.
    pub fn set(&mut self, key: String, value: V)
        ensures
            final(self)@ == old(self)@.insert(key@, value.deep_view()),
    {
        match self.find(&key) {
            Some(i) => {
                proof {
                    lemma_replace(self.slots@, key, value, i as int);
                }
                self.slots[i] = (key, value);
            },
            None => {
                proof {
                    lemma_append(self.slots@, key, value);
                }
                self.slots.push((key, value));
            },
        }
    }
}

} // verus!
