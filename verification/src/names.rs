//! A dense numbering of distinct names.

use vstd::hash_map::StringHashMap;
use vstd::prelude::*;

verus! {

/// Distinct names, numbered `0, 1, 2, ..` in the order in which they were added.
///
/// The names are kept twice: in a vector, so that a slot leads to its name, and
/// in a hash map, so that a name leads to its slot without a search.
pub struct NameIndex {
    names: Vec<String>,
    slots: StringHashMap<usize>,
}

impl View for NameIndex {
    type V = Seq<Seq<char>>;

    /// The names, each at the position of its slot.
    closed spec fn view(&self) -> Seq<Seq<char>> {
        self.names@.map_values(|name: String| name@)
    }
}

impl NameIndex {
    /// The vector and the hash map describe the same numbering.
    pub closed spec fn wf(&self) -> bool {
        &&& forall|i: int|
            0 <= i < self.names@.len() ==> {
                &&& self.slots@.contains_key(#[trigger] self.names@[i]@)
                &&& self.slots@[self.names@[i]@] == i
            }
        &&& forall|name: Seq<char>| #[trigger]
            self.slots@.contains_key(name) ==> {
                &&& self.slots@[name] < self.names@.len()
                &&& self.names@[self.slots@[name] as int]@ == name
            }
    }

    /// No name has two slots.
    pub proof fn lemma_distinct(&self)
        requires
            self.wf(),
        ensures
            self@.no_duplicates(),
    {
        assert forall|i: int, j: int|
            0 <= i < self@.len() && 0 <= j < self@.len() && i != j implies self@[i] != self@[j] by {
        }
    }

    /// An index without names.
    pub fn new() -> (index: NameIndex)
        ensures
            index.wf(),
            index@ == Seq::<Seq<char>>::empty(),
    {
        let index = NameIndex { names: Vec::new(), slots: StringHashMap::new() };
        index
    }

    /// The number of names.
    pub fn len(&self) -> (n: usize)
        ensures
            n == self@.len(),
    {
        self.names.len()
    }

    /// The slot of `name`, if it has one.
    pub fn find(&self, name: &str) -> (slot: Option<usize>)
        requires
            self.wf(),
        ensures
            match slot {
                Some(i) => i < self@.len() && self@[i as int] == name@,
                None => !self@.contains(name@),
            },
    {
        match self.slots.get(name) {
            Some(i) => Some(*i),
            None => {
                assert forall|i: int| 0 <= i < self@.len() implies self@[i] != name@ by {
                }
                None
            },
        }
    }

    /// The name in slot `i`.
    pub fn name(&self, i: usize) -> (name: &String)
        requires
            i < self@.len(),
        ensures
            name@ == self@[i as int],
    {
        &self.names[i]
    }

    /// All names, in the order of their slots.
    pub fn names(&self) -> (names: &Vec<String>)
        ensures
            names@.len() == self@.len(),
            forall|i: int| 0 <= i < names@.len() ==> (#[trigger] names@[i])@ == self@[i],
    {
        &self.names
    }

    /// Gives `name`, which has no slot yet, the next free slot.
    pub fn push(&mut self, name: String) -> (slot: usize)
        requires
            old(self).wf(),
            !old(self)@.contains(name@),
        ensures
            final(self).wf(),
            final(self)@ == old(self)@.push(name@),
            slot == old(self)@.len(),
    {
        let slot = self.names.len();
        let key = name.clone();
        self.slots.insert(key, slot);
        self.names.push(name);
        proof {
            assert forall|i: int| 0 <= i < self.names@.len() implies {
                &&& self.slots@.contains_key(#[trigger] self.names@[i]@)
                &&& self.slots@[self.names@[i]@] == i
            } by {
                if i < slot {
                    assert(old(self)@.contains(old(self)@[i]));
                }
            }
            assert forall|other: Seq<char>| #[trigger]
                self.slots@.contains_key(other) implies {
                &&& self.slots@[other] < self.names@.len()
                &&& self.names@[self.slots@[other] as int]@ == other
            } by {
                if other != name@ {
                }
            }
        }
        slot
    }
}

} // verus!
