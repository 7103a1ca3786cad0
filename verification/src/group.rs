use vstd::prelude::*;

verus! {

/// A named set of segments that share a frame at run time. Members are
/// linker-level segment indices, kept in the order they were first added.
pub struct Group {
    pub name: usize,
    pub members: Vec<usize>,
    pub base: usize,
}

/// A group as a mathematical value.
pub struct GroupView {
    pub name: usize,
    pub members: Seq<usize>,
    pub base: usize,
}

impl View for Group {
    type V = GroupView;

    open spec fn view(&self) -> GroupView {
        GroupView { name: self.name, members: self.members@, base: self.base }
    }
}

/// A cursor over the members of a group, in insertion order.
pub struct Iter<'a> {
    vec: &'a [usize],
    index: usize,
}

impl<'a> Iter<'a> {
    pub closed spec fn elements(&self) -> Seq<usize> {
        self.vec@
    }

    pub closed spec fn position(&self) -> int {
        self.index as int
    }

    pub closed spec fn wf(&self) -> bool {
        self.index <= self.vec@.len()
    }

    pub fn next(&mut self) -> (r: Option<usize>)
        requires
            old(self).wf(),
        ensures
            final(self).wf(),
            final(self).elements() == old(self).elements(),
            match r {
                Some(item) => {
                    &&& old(self).position() < old(self).elements().len()
                    &&& item == old(self).elements()[old(self).position()]
                    &&& final(self).position() == old(self).position() + 1
                },
                None => {
                    &&& old(self).position() >= old(self).elements().len()
                    &&& final(self).position() == old(self).position()
                },
            },
    {
        if self.index < self.vec.len() {
            let value = self.vec[self.index];
            self.index += 1;
            Some(value)
        } else {
            None
        }
    }
}

impl Group {
    /// What `members` becomes when `index` is added to it.
    pub open spec fn with_member(members: Seq<usize>, index: usize) -> Seq<usize> {
        if members.contains(index) {
            members
        } else {
            members.push(index)
        }
    }

    pub fn new(name: usize) -> (g: Group)
        ensures
            g.name == name,
            g.base == 0,
            g.members@ == Seq::<usize>::empty(),
    {
        Group { name, members: Vec::new(), base: 0 }
    }

    pub fn has(&self, index: usize) -> (b: bool)
        ensures
            b == self.members@.contains(index),
    {
        let mut i: usize = 0;
        while i < self.members.len()
            invariant
                i <= self.members@.len(),
                forall|j: int| 0 <= j < i ==> self.members@[j] != index,
            decreases self.members@.len() - i,
        {
            if self.members[i] == index {
                return true;
            }
            i += 1;
        }
        false
    }

    /// Adds a segment to the group unless it is already a member.
    pub fn add(&mut self, index: usize)
        ensures
            final(self).members@ == Self::with_member(old(self).members@, index),
            final(self).name == old(self).name,
            final(self).base == old(self).base,
    {
        if !self.has(index) {
            self.members.push(index);
        }
    }

    /// The number of member segments.
    pub fn len(&self) -> (n: usize)
        ensures
            n == self.members@.len(),
    {
        self.members.len()
    }

    /// The member at position `i` of the insertion order, counted from 0.
    pub fn member(&self, i: usize) -> (m: usize)
        requires
            i < self.members@.len(),
        ensures
            m == self.members@[i as int],
    {
        self.members[i]
    }

    pub fn iter(&self) -> (it: Iter<'_>)
        ensures
            it.wf(),
            it.elements() == self.members@,
            it.position() == 0,
    {
        Iter { vec: self.members.as_slice(), index: 0 }
    }
}

/// Adding members never introduces a duplicate.
pub proof fn lemma_with_member_no_duplicates(members: Seq<usize>, index: usize)
    requires
        members.no_duplicates(),
    ensures
        Group::with_member(members, index).no_duplicates(),
        Group::with_member(members, index).contains(index),
        forall|m: usize| members.contains(m) ==> Group::with_member(members, index).contains(m),
{
    let r = Group::with_member(members, index);
    if !members.contains(index) {
        assert(r[members.len() as int] == index);
        assert forall|m: usize| members.contains(m) implies r.contains(m) by {
            let i = choose|i: int| 0 <= i < members.len() && members[i] == m;
            assert(r[i] == m);
        }
    }
}

} // verus!
