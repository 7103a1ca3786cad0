use crate::group::{Group, GroupView};
use crate::lnames::LNames;
use crate::omf_vec::OmfVec;
use crate::segment::{SegName, Segment};
use crate::seq_search::{first_index, lemma_first_index_is};
use crate::symbols::{SymbolTable, Symbols};
use vstd::prelude::*;
use vstd::string::*;

verus! {

/// A segmented 16:16 pointer.
#[derive(Clone, Copy, Debug, PartialEq, Eq, Structural)]
pub struct FarPtr {
    pub seg: u16,
    pub offset: u16,
}

impl FarPtr {
    /// The linear address a far pointer stands for: the segment shifted left
    /// by four bits, plus the offset.
    pub open spec fn linear(self) -> int {
        self.seg as int * 16 + self.offset as int
    }

    pub fn new(seg: u16, offset: u16) -> (p: FarPtr)
        ensures
            p == (FarPtr { seg, offset }),
    {
        FarPtr { seg, offset }
    }

    /// The far null pointer.
    pub fn null() -> (p: FarPtr)
        ensures
            p == (FarPtr { seg: 0, offset: 0 }),
    {
        FarPtr::new(0, 0)
    }

    pub fn to_linear(&self) -> (a: usize)
        ensures
            a == self.linear(),
    {
        (self.seg as usize) * 16 + self.offset as usize
    }
}

/// A condition worth reporting that does not stop the link.
#[derive(Clone, Copy, Debug, PartialEq, Eq, Structural)]
pub enum Warning {
    /// A SEGDEF asked for absolute alignment, which is accepted but not
    /// honoured.
    AbsoluteSegment,
    /// A GRPDEF lists a segment that already belongs to another group.
    SegmentInSeveralGroups { segment: usize },
    /// The target of a segment-relative fixup is not within 64 KiB above
    /// its frame.
    FixupOverflow,
    /// The location of a fixup lies outside of the image; nothing was
    /// patched.
    FixupOutsideImage { location: usize },
    /// The location or the target of a self-relative fixup is not within
    /// 64 KiB above the frame.
    FixupOutsideFrame { location: usize, frame: u16 },
    /// The program has no stack segment.
    NoStack,
    /// No module named an entry point.
    NoEntryPoint,
}

/// The linker-global state as a mathematical value.
#[verifier::ext_equal]
pub struct LinkStateView {
    pub lnames: Seq<Seq<char>>,
    pub segments: Seq<Segment>,
    pub groups: Seq<GroupView>,
    pub symbols: Symbols,
    pub segment_order: Seq<usize>,
    pub entry: Option<FarPtr>,
    pub warnings: Seq<Warning>,
    pub unresolved: Seq<Seq<char>>,
}

/// Linker-global data: the interned names, the combined segments and the
/// groups (all numbered from 1), the symbol table, the order in which the
/// segments are placed, the entry point, and what was found worth reporting
/// on the way.
pub struct LinkState {
    pub lnames: LNames,
    pub segments: OmfVec<Segment>,
    pub groups: OmfVec<Group>,
    pub symbols: SymbolTable,
    pub segment_order: Vec<usize>,
    pub entry: Option<FarPtr>,
    pub warnings: Vec<Warning>,
    pub unresolved: Vec<String>,
}

impl View for LinkState {
    type V = LinkStateView;

    open spec fn view(&self) -> LinkStateView {
        LinkStateView {
            lnames: self.lnames@,
            segments: self.segments@,
            groups: Seq::new(self.groups@.len(), |i: int| self.groups@[i]@),
            symbols: self.symbols@,
            segment_order: self.segment_order@,
            entry: self.entry,
            warnings: self.warnings@,
            unresolved: Seq::new(self.unresolved@.len(), |i: int| self.unresolved@[i]@),
        }
    }
}

impl LinkStateView {
    /// The display form of a segment name: `name.class.overlay`.
    pub open spec fn segname(self, name: SegName) -> Seq<char> {
        LNames::name_at(self.lnames, name.nameidx as int) + seq!['.'] + LNames::name_at(
            self.lnames,
            name.classidx as int,
        ) + seq!['.'] + LNames::name_at(self.lnames, name.ovlyidx as int)
    }

    /// The index of the first segment named `name`, or 0.
    pub open spec fn segment_named(self, name: SegName) -> int {
        first_index(self.segments, |s: Segment| s.name == name)
    }

    /// The index of the first group whose name is `name`, or 0.
    pub open spec fn group_named(self, name: usize) -> int {
        first_index(self.groups, |g: GroupView| g.name == name)
    }

    /// Whether the three indices of `name` stand for names.
    pub open spec fn names_valid(self, name: SegName) -> bool {
        &&& name.nameidx <= self.lnames.len()
        &&& name.classidx <= self.lnames.len()
        &&& name.ovlyidx <= self.lnames.len()
    }
}

impl LinkState {
    /// No symbol name has more than one entry, and no segment exceeds
    /// 64 KiB.
    pub open spec fn wf(&self) -> bool {
        &&& self.symbols.wf()
        &&& forall|i: int| 0 <= i < self.segments@.len() ==> (#[trigger] self.segments@[i]).wf()
    }

    pub fn new() -> (s: LinkState)
        ensures
            s.wf(),
            s@ == (LinkStateView {
                lnames: Seq::empty(),
                segments: Seq::empty(),
                groups: Seq::empty(),
                symbols: Seq::empty(),
                segment_order: Seq::empty(),
                entry: None,
                warnings: Seq::empty(),
                unresolved: Seq::empty(),
            }),
    {
        let s = LinkState {
            lnames: LNames::new(),
            segments: OmfVec::new(),
            groups: OmfVec::new(),
            symbols: SymbolTable::new(),
            segment_order: Vec::new(),
            entry: None,
            warnings: Vec::new(),
            unresolved: Vec::new(),
        };
        assert(s@.groups =~= Seq::empty());
        assert(s@.unresolved =~= Seq::empty());
        s
    }

    /// Turns a segment name into text, using the global names table.
    pub fn segname(&self, segname: &SegName) -> (text: String)
        requires
            self@.names_valid(*segname),
        ensures
            text@ == self@.segname(*segname),
    {
        let mut text = self.lnames.get(segname.nameidx).to_owned();
        let dot = ".";
        proof {
            reveal_strlit(".");
            assert(dot@ =~= seq!['.']);
        }
        text.append(dot);
        text.append(self.lnames.get(segname.classidx));
        text.append(dot);
        text.append(self.lnames.get(segname.ovlyidx));
        text
    }

    /// The index of the first segment whose name triple equals `segname`.
    pub fn get_segment_named(&mut self, segname: &SegName) -> (r: Option<usize>)
        ensures
            *final(self) == *old(self),
            match r {
                Some(i) => i == old(self)@.segment_named(*segname) && i != 0,
                None => old(self)@.segment_named(*segname) == 0,
            },
    {
        let ghost pred = |s: Segment| s.name == *segname;
        let n = self.segments.len();
        let mut i: usize = 0;
        while i < n
            invariant
                i <= n,
                n == self.segments@.len(),
                *self == *old(self),
                pred == (|s: Segment| s.name == *segname),
                forall|j: int| 0 <= j < i ==> !pred(#[trigger] self.segments@[j]),
            decreases n - i,
        {
            if self.segments.get(i + 1).name == *segname {
                proof {
                    lemma_first_index_is(self.segments@, pred, i + 1);
                }
                return Some(i + 1);
            }
            i += 1;
        }
        proof {
            lemma_first_index_is(self.segments@, pred, 0);
        }
        None
    }

    /// The index of the first group whose name is `grpname`.
    pub fn get_group_named(&mut self, grpname: usize) -> (r: Option<usize>)
        ensures
            *final(self) == *old(self),
            match r {
                Some(i) => i == old(self)@.group_named(grpname) && i != 0,
                None => old(self)@.group_named(grpname) == 0,
            },
    {
        let ghost pred = |g: GroupView| g.name == grpname;
        let n = self.groups.len();
        let mut i: usize = 0;
        while i < n
            invariant
                i <= n,
                n == self.groups@.len(),
                *self == *old(self),
                pred == (|g: GroupView| g.name == grpname),
                forall|j: int| 0 <= j < i ==> !pred(#[trigger] self@.groups[j]),
            decreases n - i,
        {
            if self.groups.get(i + 1).name == grpname {
                proof {
                    assert(self@.groups[i as int] == self.groups@[i as int]@);
                    lemma_first_index_is(self@.groups, pred, i + 1);
                }
                return Some(i + 1);
            }
            proof {
                assert(self@.groups[i as int] == self.groups@[i as int]@);
            }
            i += 1;
        }
        proof {
            lemma_first_index_is(self@.groups, pred, 0);
        }
        None
    }
}

} // verus!
