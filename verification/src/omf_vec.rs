use vstd::prelude::*;

verus! {

/// Collections in OMF are 1-based, with index 0 meaning "no such element".
/// `OmfVec` is a growable sequence addressed by such indices.
pub struct OmfVec<T> {
    data: Vec<T>,
}

impl<T> View for OmfVec<T> {
    type V = Seq<T>;

    closed spec fn view(&self) -> Seq<T> {
        self.data@
    }
}

/// A cursor over an `OmfVec`, yielding the elements in index order.
pub struct Iter<'a, T> {
    vec: &'a OmfVec<T>,
    index: usize,
}

impl<'a, T> Iter<'a, T> {
    /// The elements the cursor ranges over.
    pub closed spec fn elements(&self) -> Seq<T> {
        self.vec@
    }

    /// How many elements have been yielded so far.
    pub closed spec fn position(&self) -> int {
        self.index as int
    }

    pub closed spec fn wf(&self) -> bool {
        self.index <= self.vec@.len()
    }

    pub fn next(&mut self) -> (r: Option<&'a T>)
        requires
            old(self).wf(),
        ensures
            final(self).wf(),
            final(self).elements() == old(self).elements(),
            match r {
                Some(item) => {
                    &&& old(self).position() < old(self).elements().len()
                    &&& *item == old(self).elements()[old(self).position()]
                    &&& final(self).position() == old(self).position() + 1
                },
                None => {
                    &&& old(self).position() >= old(self).elements().len()
                    &&& final(self).position() == old(self).position()
                },
            },
    {
        if self.index < self.vec.len() {
            self.index += 1;
            Some(self.vec.get(self.index))
        } else {
            None
        }
    }
}

impl<T> OmfVec<T> {
    /// Whether `index` names an element of a collection holding `s`.
    pub open spec fn valid_index(s: Seq<T>, index: int) -> bool {
        0 < index <= s.len()
    }

    pub fn new() -> (v: OmfVec<T>)
        ensures
            v@ == Seq::<T>::empty(),
    {
        OmfVec { data: Vec::new() }
    }

    pub fn push(&mut self, value: T)
        ensures
            final(self)@ == old(self)@.push(value),
    {
        self.data.push(value);
    }

    /// Like `push`, but returns the index of the element just added.
    pub fn add(&mut self, value: T) -> (index: usize)
        ensures
            final(self)@ == old(self)@.push(value),
            index == old(self)@.len() + 1,
    {
        self.data.push(value);
        self.data.len()
    }

    pub fn len(&self) -> (n: usize)
        ensures
            n == self@.len(),
    {
        self.data.len()
    }

    pub fn is_valid_index(&self, index: usize) -> (b: bool)
        ensures
            b == Self::valid_index(self@, index as int),
    {
        index > 0 && index <= self.len()
    }

    /// The element at the 1-based `index`.
    pub fn get(&self, index: usize) -> (r: &T)
        requires
            Self::valid_index(self@, index as int),
        ensures
            *r == self@[index - 1],
    {
        &self.data[index - 1]
    }

    /// Replace the element at the 1-based `index`.
    pub fn set(&mut self, index: usize, value: T)
        requires
            Self::valid_index(old(self)@, index as int),
        ensures
            final(self)@ == old(self)@.update(index - 1, value),
    {
        self.data.set(index - 1, value);
    }

    /// The element at the 1-based `index`, for changing it in place.
    pub fn get_mut(&mut self, index: usize) -> (r: &mut T)
        requires
            Self::valid_index(old(self)@, index as int),
        ensures
            *r == old(self)@[index - 1],
            final(self)@ == old(self)@.update(index - 1, *final(r)),
    {
        &mut self.data[index - 1]
    }

    pub fn iter(&self) -> (it: Iter<'_, T>)
        ensures
            it.wf(),
            it.elements() == self@,
            it.position() == 0,
    {
        Iter { vec: self, index: 0 }
    }
}

} // verus!
