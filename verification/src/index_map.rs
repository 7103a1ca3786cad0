use crate::omf_vec::OmfVec;
use vstd::prelude::*;

verus! {

/// Maps the indices used inside one object module to linker-level indices.
/// Unlike an `OmfVec`, index 0 ("no such entry") is valid and maps to 0.
pub struct IndexMap {
    indices: OmfVec<usize>,
}

impl View for IndexMap {
    type V = Seq<usize>;

    closed spec fn view(&self) -> Seq<usize> {
        self.indices@
    }
}

impl IndexMap {
    /// Whether `index` is 0 or names an entry of a map holding `s`.
    pub open spec fn valid_index(s: Seq<usize>, index: int) -> bool {
        0 <= index <= s.len()
    }

    /// The linker-level index that the object-level `index` stands for.
    pub open spec fn lookup(s: Seq<usize>, index: int) -> usize {
        if index == 0 {
            0
        } else {
            s[index - 1]
        }
    }

    pub fn new() -> (m: IndexMap)
        ensures
            m@ == Seq::<usize>::empty(),
    {
        IndexMap { indices: OmfVec::new() }
    }

    /// Records the linker-level `index` and returns the object-level index
    /// that now maps to it.
    pub fn add(&mut self, index: usize) -> (local: usize)
        ensures
            final(self)@ == old(self)@.push(index),
            local == old(self)@.len() + 1,
    {
        self.indices.add(index)
    }

    pub fn len(&self) -> (n: usize)
        ensures
            n == self@.len(),
    {
        self.indices.len()
    }

    pub fn get(&self, index: usize) -> (global: usize)
        requires
            Self::valid_index(self@, index as int),
        ensures
            global == Self::lookup(self@, index as int),
    {
        if index == 0 {
            0
        } else {
            *self.indices.get(index)
        }
    }

    pub fn is_valid_index(&self, index: usize) -> (b: bool)
        ensures
            b == Self::valid_index(self@, index as int),
    {
        index == 0 || self.indices.is_valid_index(index)
    }
}

} // verus!
