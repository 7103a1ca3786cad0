use crate::omf_vec::OmfVec;
use vstd::prelude::*;
use vstd::string::*;

verus! {

/// The linker-global table of interned names. Names are numbered from 1 in
/// the order they were added; index 0 stands for "no name".
pub struct LNames {
    names: OmfVec<String>,
}

impl View for LNames {
    type V = Seq<Seq<char>>;

    closed spec fn view(&self) -> Seq<Seq<char>> {
        Seq::new(self.names@.len(), |i: int| self.names@[i]@)
    }
}

impl LNames {
    /// The name that `index` stands for in a table holding `s`.
    pub open spec fn name_at(s: Seq<Seq<char>>, index: int) -> Seq<char> {
        if index == 0 {
            Seq::empty()
        } else {
            s[index - 1]
        }
    }

    /// The 1-based index of the first occurrence of `name` in `s`, or 0.
    pub open spec fn position_of(s: Seq<Seq<char>>, name: Seq<char>) -> int
        decreases s.len(),
    {
        if s.len() == 0 {
            0
        } else if Self::position_of(s.drop_last(), name) != 0 {
            Self::position_of(s.drop_last(), name)
        } else if s.last() == name {
            s.len() as int
        } else {
            0
        }
    }

    /// `position_of` is 0 exactly when the name is absent; otherwise it is
    /// the least index holding the name.
    pub proof fn lemma_position_of(s: Seq<Seq<char>>, name: Seq<char>)
        ensures
            0 <= Self::position_of(s, name) <= s.len(),
            Self::position_of(s, name) == 0 <==> !s.contains(name),
            Self::position_of(s, name) != 0 ==> s[Self::position_of(s, name) - 1] == name,
            forall|i: int|
                0 <= i < Self::position_of(s, name) - 1 ==> s[i] != name,
        decreases s.len(),
    {
        if s.len() > 0 {
            let t = s.drop_last();
            Self::lemma_position_of(t, name);
            if Self::position_of(t, name) != 0 {
                assert(s[Self::position_of(t, name) - 1] == name);
                assert forall|i: int| 0 <= i < Self::position_of(t, name) - 1 implies s[i]
                    != name by {
                    assert(t[i] == s[i]);
                }
            } else if s.last() == name {
                assert(s[s.len() - 1] == name);
                assert forall|i: int| 0 <= i < s.len() - 1 implies s[i] != name by {
                    assert(t[i] == s[i]);
                }
            } else {
                assert forall|i: int| 0 <= i < s.len() implies s[i] != name by {
                    if i < s.len() - 1 {
                        assert(t[i] == s[i]);
                    }
                }
            }
        }
    }

    pub fn new() -> (t: LNames)
        ensures
            t@ == Seq::<Seq<char>>::empty(),
    {
        let t = LNames { names: OmfVec::new() };
        assert(t@ =~= Seq::<Seq<char>>::empty());
        t
    }

    /// Appends `name` and returns its index, whether or not it is already
    /// in the table.
    pub fn add(&mut self, name: &str) -> (index: usize)
        ensures
            final(self)@ == old(self)@.push(name@),
            index == old(self)@.len() + 1,
    {
        let index = self.names.add(name.to_owned());
        assert(self@ =~= old(self)@.push(name@));
        index
    }

    /// Returns the index of the first entry equal to `name` (compared
    /// case-sensitively), appending `name` first if there is none.
    pub fn find_or_add(&mut self, name: &str) -> (index: usize)
        ensures
            Self::position_of(old(self)@, name@) != 0 ==> final(self)@ == old(self)@ && index
                == Self::position_of(old(self)@, name@),
            Self::position_of(old(self)@, name@) == 0 ==> final(self)@ == old(self)@.push(name@)
                && index == old(self)@.len() + 1,
    {
        let wanted = name.to_owned();
        let n = self.names.len();
        let mut i: usize = 0;
        while i < n
            invariant
                i <= n,
                n == self.names@.len(),
                wanted@ == name@,
                *self == *old(self),
                Self::position_of(self@.take(i as int), name@) == 0,
            decreases n - i,
        {
            if *self.names.get(i + 1) == wanted {
                proof {
                    let t = self@.take(i + 1);
                    assert(t.drop_last() =~= self@.take(i as int));
                    assert(t.last() == name@);
                    Self::lemma_found_prefix(self@, i as int + 1, name@);
                }
                return i + 1;
            }
            proof {
                let t = self@.take(i + 1);
                assert(t.drop_last() =~= self@.take(i as int));
            }
            i += 1;
        }
        proof {
            assert(self@.take(n as int) =~= self@);
        }
        self.add(name)
    }

    /// Once a prefix of `s` contains `name`, the position in `s` is the
    /// position in that prefix.
    proof fn lemma_found_prefix(s: Seq<Seq<char>>, k: int, name: Seq<char>)
        requires
            0 <= k <= s.len(),
            Self::position_of(s.take(k), name) != 0,
        ensures
            Self::position_of(s, name) == Self::position_of(s.take(k), name),
        decreases s.len() - k,
    {
        if k < s.len() {
            let t = s.take(k + 1);
            assert(t.drop_last() =~= s.take(k));
            Self::lemma_found_prefix(s, k + 1, name);
        } else {
            assert(s.take(k) =~= s);
        }
    }

    pub fn len(&self) -> (n: usize)
        ensures
            n == self@.len(),
    {
        self.names.len()
    }

    pub fn get(&self, index: usize) -> (name: &str)
        requires
            0 <= index <= self@.len(),
        ensures
            name@ == Self::name_at(self@, index as int),
    {
        if index == 0 {
            let empty = "";
            proof {
                reveal_strlit("");
                assert(empty@ =~= Seq::<char>::empty());
            }
            empty
        } else {
            self.names.get(index).as_str()
        }
    }
}

} // verus!
