use crate::index_map::IndexMap;
use crate::omf_vec::OmfVec;
use crate::pass2::{FrameThread, TargetThread, ThreadState};
use crate::segment::SegDef;
use vstd::prelude::*;

verus! {

/// An object module as a mathematical value.
#[verifier::ext_equal]
pub struct ObjectView {
    pub data: Option<Seq<u8>>,
    pub name: Seq<char>,
    pub lnames: Seq<usize>,
    pub segdefs: Seq<SegDef>,
    pub grpdefs: Seq<usize>,
    pub extdefs: Seq<Seq<char>>,
    pub target_threads: Seq<TargetThread>,
    pub frame_threads: Seq<FrameThread>,
}

/// What was collected from one object module: its bytes, its name, the maps
/// from its own name and group indices to the linker's, its segment
/// definitions, its external names, and the fixup threads in effect.
pub struct Object {
    pub data: Option<Vec<u8>>,
    pub name: String,
    pub lnames: IndexMap,
    pub segdefs: OmfVec<SegDef>,
    pub grpdefs: IndexMap,
    pub extdefs: OmfVec<String>,
    pub fixup_threads: ThreadState,
}

impl View for Object {
    type V = ObjectView;

    open spec fn view(&self) -> ObjectView {
        ObjectView {
            data: match self.data {
                Some(d) => Some(d@),
                None => None,
            },
            name: self.name@,
            lnames: self.lnames@,
            segdefs: self.segdefs@,
            grpdefs: self.grpdefs@,
            extdefs: Seq::new(self.extdefs@.len(), |i: int| self.extdefs@[i]@),
            target_threads: self.fixup_threads.target_threads@,
            frame_threads: self.fixup_threads.frame_threads@,
        }
    }
}

impl ObjectView {
    /// An object of which nothing is known but its bytes.
    pub open spec fn empty(data: Option<Seq<u8>>) -> ObjectView {
        ObjectView {
            data,
            name: Seq::empty(),
            lnames: Seq::empty(),
            segdefs: Seq::empty(),
            grpdefs: Seq::empty(),
            extdefs: Seq::empty(),
            target_threads: Seq::new(
                4,
                |i: int| TargetThread { target_type: None, target_index: 0 },
            ),
            frame_threads: Seq::new(4, |i: int| FrameThread { frame_type: None, frame_index: 0 }),
        }
    }
}

impl Object {
    pub open spec fn wf(&self) -> bool {
        self.fixup_threads.wf()
    }

    /// An empty object without bytes.
    pub fn new() -> (o: Object)
        ensures
            o.wf(),
            o@ == ObjectView::empty(None),
    {
        let o = Object {
            data: None,
            name: String::new(),
            lnames: IndexMap::new(),
            segdefs: OmfVec::new(),
            grpdefs: IndexMap::new(),
            extdefs: OmfVec::new(),
            fixup_threads: ThreadState::new(),
        };
        assert(o@.extdefs =~= Seq::empty());
        assert(o@.target_threads =~= ObjectView::empty(None).target_threads);
        assert(o@.frame_threads =~= ObjectView::empty(None).frame_threads);
        o
    }

    /// An empty object around the bytes of a module.
    pub fn from_bytes(data: Vec<u8>) -> (o: Object)
        ensures
            o.wf(),
            o@ == ObjectView::empty(Some(data@)),
    {
        let o = Object {
            data: Some(data),
            name: String::new(),
            lnames: IndexMap::new(),
            segdefs: OmfVec::new(),
            grpdefs: IndexMap::new(),
            extdefs: OmfVec::new(),
            fixup_threads: ThreadState::new(),
        };
        assert(o@.extdefs =~= Seq::empty());
        assert(o@.target_threads =~= ObjectView::empty(None).target_threads);
        assert(o@.frame_threads =~= ObjectView::empty(None).frame_threads);
        o
    }
}

} // verus!
