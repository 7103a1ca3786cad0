//! Pass 2: the data of the object modules is copied into the image, the
//! fixups are applied to it, and the executable is put together.

use crate::dosexe::{DosExe, DosExeView, Relocation};
use crate::linker_error::{located_text, LinkerError, Message};
use crate::linkstate::{FarPtr, LinkState, LinkStateView, Warning};
use crate::object::{Object, ObjectView};
use crate::pass1::{intern, is_located, pass1_handles, Failure};
use crate::resolve::{object_views, objects_wf};
use crate::segment::SegName;
use crate::record::{
    frame_error, frame_length, frame_ok, frame_payload, read_byte, read_counted_bytes,
    read_index, read_word, unhandled_text, Record, RecordType,
};
use crate::symbols::{symbol_of, Symbol};
use vstd::arithmetic::div_mod::{lemma_add_mod_noop_right, lemma_mod_mod};
use vstd::prelude::*;
use vstd::slice::*;

verus! {

/// How the target of a fixup is named.
#[derive(Debug, PartialEq, Eq, Structural, Clone, Copy)]
pub enum TargetType {
    SEGDEF,
    GRPDEF,
    EXTDEF,
    Frame,
}

impl TargetType {
    /// The target method that a method number stands for.
    pub open spec fn decode(b: u8) -> Option<TargetType> {
        if b == 0 {
            Some(TargetType::SEGDEF)
        } else if b == 1 {
            Some(TargetType::GRPDEF)
        } else if b == 2 {
            Some(TargetType::EXTDEF)
        } else if b == 3 {
            Some(TargetType::Frame)
        } else {
            None
        }
    }

    pub fn from_byte(b: u8) -> (r: Result<TargetType, LinkerError>)
        ensures
            match r {
                Ok(t) => Self::decode(b) == Some(t),
                Err(_) => Self::decode(b) is None,
            },
    {
        if b == 0 {
            Ok(TargetType::SEGDEF)
        } else if b == 1 {
            Ok(TargetType::GRPDEF)
        } else if b == 2 {
            Ok(TargetType::EXTDEF)
        } else if b == 3 {
            Ok(TargetType::Frame)
        } else {
            Err(Message::new("invalid target type: ").hex(b as usize, 2).error())
        }
    }
}

/// A latched target: a method and the index it applies to.
#[derive(Debug, PartialEq, Eq, Structural, Clone, Copy)]
pub struct TargetThread {
    pub target_type: Option<TargetType>,
    pub target_index: usize,
}

impl TargetThread {
    pub fn new() -> (t: TargetThread)
        ensures
            t == (TargetThread { target_type: None, target_index: 0 }),
    {
        TargetThread { target_type: None, target_index: 0 }
    }
}

/// How the frame of a fixup is named.
#[derive(Debug, PartialEq, Eq, Structural, Clone, Copy)]
pub enum FrameType {
    SEGDEF,
    GRPDEF,
    EXTDEF,
    ExplicitFrame,
    SegOfPrevData,
    FromTarget,
}

impl FrameType {
    /// The frame method that a method number stands for.
    pub open spec fn decode(b: u8) -> Option<FrameType> {
        if b == 0 {
            Some(FrameType::SEGDEF)
        } else if b == 1 {
            Some(FrameType::GRPDEF)
        } else if b == 2 {
            Some(FrameType::EXTDEF)
        } else if b == 3 {
            Some(FrameType::ExplicitFrame)
        } else if b == 4 {
            Some(FrameType::SegOfPrevData)
        } else if b == 5 {
            Some(FrameType::FromTarget)
        } else {
            None
        }
    }

    /// Whether the method is followed by an index.
    pub open spec fn has_index(self) -> bool {
        self == FrameType::SEGDEF || self == FrameType::GRPDEF || self == FrameType::EXTDEF
    }

    pub fn from_byte(b: u8) -> (r: Result<FrameType, LinkerError>)
        ensures
            match r {
                Ok(t) => Self::decode(b) == Some(t),
                Err(_) => Self::decode(b) is None,
            },
    {
        if b == 0 {
            Ok(FrameType::SEGDEF)
        } else if b == 1 {
            Ok(FrameType::GRPDEF)
        } else if b == 2 {
            Ok(FrameType::EXTDEF)
        } else if b == 3 {
            Ok(FrameType::ExplicitFrame)
        } else if b == 4 {
            Ok(FrameType::SegOfPrevData)
        } else if b == 5 {
            Ok(FrameType::FromTarget)
        } else {
            Err(Message::new("invalid frame type: ").hex(b as usize, 2).error())
        }
    }
}

/// A latched frame: a method and the index it applies to.
#[derive(Debug, PartialEq, Eq, Structural, Clone, Copy)]
pub struct FrameThread {
    pub frame_type: Option<FrameType>,
    pub frame_index: usize,
}

impl FrameThread {
    pub fn new() -> (t: FrameThread)
        ensures
            t == (FrameThread { frame_type: None, frame_index: 0 }),
    {
        FrameThread { frame_type: None, frame_index: 0 }
    }
}

/// The four target threads and the four frame threads of one object module.
pub struct ThreadState {
    pub target_threads: Vec<TargetThread>,
    pub frame_threads: Vec<FrameThread>,
}

impl ThreadState {
    pub open spec fn wf(&self) -> bool {
        self.target_threads@.len() == 4 && self.frame_threads@.len() == 4
    }

    pub fn new() -> (t: ThreadState)
        ensures
            t.wf(),
            forall|i: int|
                0 <= i < 4 ==> #[trigger] t.target_threads@[i] == (TargetThread {
                    target_type: None,
                    target_index: 0,
                }),
            forall|i: int|
                0 <= i < 4 ==> #[trigger] t.frame_threads@[i] == (FrameThread {
                    frame_type: None,
                    frame_index: 0,
                }),
    {
        let mut target_threads = Vec::new();
        let mut frame_threads = Vec::new();
        for i in 0..4
            invariant
                target_threads@.len() == i,
                frame_threads@.len() == i,
                forall|j: int|
                    0 <= j < i ==> #[trigger] target_threads@[j] == (TargetThread {
                        target_type: None,
                        target_index: 0,
                    }),
                forall|j: int|
                    0 <= j < i ==> #[trigger] frame_threads@[j] == (FrameThread {
                        frame_type: None,
                        frame_index: 0,
                    }),
        {
            target_threads.push(TargetThread::new());
            frame_threads.push(FrameThread::new());
        }
        ThreadState { target_threads, frame_threads }
    }
}

/// What a fixup patches at its location.
#[derive(Debug, PartialEq, Eq, Structural, Clone, Copy)]
pub enum Locat {
    LowOrderByte,
    Offset16,
    Segment16,
    FarPointer,
}

impl Locat {
    /// The location type that a LOCAT type field stands for.
    pub open spec fn decode(w: u16) -> Option<Locat> {
        if w == 0 {
            Some(Locat::LowOrderByte)
        } else if w == 1 || w == 5 {
            Some(Locat::Offset16)
        } else if w == 2 {
            Some(Locat::Segment16)
        } else if w == 3 {
            Some(Locat::FarPointer)
        } else {
            None
        }
    }

    /// The name of the location type.
    pub open spec fn name_text(self) -> Seq<char> {
        match self {
            Locat::LowOrderByte => "LowOrderByte"@,
            Locat::Offset16 => "Offset16"@,
            Locat::Segment16 => "Segment16"@,
            Locat::FarPointer => "FarPointer"@,
        }
    }

    /// The name of the location type, for messages.
    pub fn name(self) -> (n: &'static str)
        ensures
            n@ == self.name_text(),
    {
        match self {
            Locat::LowOrderByte => "LowOrderByte",
            Locat::Offset16 => "Offset16",
            Locat::Segment16 => "Segment16",
            Locat::FarPointer => "FarPointer",
        }
    }

    pub fn new(w: u16) -> (r: Result<Locat, LinkerError>)
        ensures
            match r {
                Ok(l) => Self::decode(w) == Some(l),
                Err(_) => Self::decode(w) is None,
            },
    {
        if w == 0 {
            Ok(Locat::LowOrderByte)
        } else if w == 1 || w == 5 {
            Ok(Locat::Offset16)
        } else if w == 2 {
            Ok(Locat::Segment16)
        } else if w == 3 {
            Ok(Locat::FarPointer)
        } else {
            Err(Message::new("invalid location type: ").hex(w as usize, 4).error())
        }
    }
}

/// The most recent data region placed by an LEDATA or LIDATA record.
#[derive(Debug, PartialEq, Eq, Structural, Clone, Copy)]
pub struct LastDataRegion {
    pub frame: u16,
    pub base: usize,
    pub length: usize,
}

/// The frame of a linear address: its paragraph number, in 16 bits.
pub open spec fn frame_of(linear: int) -> u16 {
    ((linear / 16) % 0x10000) as u16
}

fn frame_number(linear: usize) -> (f: u16)
    ensures
        f == frame_of(linear as int),
{
    ((linear / 16) % 0x10000) as u16
}

/// The linear address of the segment that holds the object's segment
/// definition `segidx`.
pub open spec fn segdef_base(st: LinkStateView, obj: ObjectView, segidx: int) -> Option<usize> {
    if !(0 < segidx <= obj.segdefs.len()) {
        None
    } else if !(0 < obj.segdefs[segidx - 1].segidx <= st.segments.len()) {
        None
    } else {
        Some(st.segments[obj.segdefs[segidx - 1].segidx - 1].base)
    }
}

/// The linear address of the group that the object knows as `grpidx`.
pub open spec fn grpdef_base(st: LinkStateView, obj: ObjectView, grpidx: int) -> Option<usize> {
    if !(0 < grpidx <= obj.grpdefs.len()) {
        None
    } else if !(0 < obj.grpdefs[grpidx - 1] <= st.groups.len()) {
        None
    } else {
        Some(st.groups[obj.grpdefs[grpidx - 1] - 1].base)
    }
}

/// The public symbol that the object's external `extidx` names.
pub open spec fn extdef_symbol(st: LinkStateView, obj: ObjectView, extidx: int) -> Option<
    crate::symbols::PublicSymbol,
> {
    if !(0 < extidx <= obj.extdefs.len()) {
        None
    } else {
        match symbol_of(st.symbols, obj.extdefs[extidx - 1]) {
            Some(Symbol::Public(public)) => Some(public),
            _ => None,
        }
    }
}

/// The linear address of the object's external `extidx`: the offset of an
/// absolute symbol, else the address of its segment plus its offset.
pub open spec fn extdef_base(st: LinkStateView, obj: ObjectView, extidx: int) -> Option<usize> {
    match extdef_symbol(st, obj, extidx) {
        Some(public) => if public.segment == 0 {
            Some(public.offset as usize)
        } else if public.segment > st.segments.len() {
            None
        } else if st.segments[public.segment - 1].base + public.offset > usize::MAX {
            None
        } else {
            Some((st.segments[public.segment - 1].base + public.offset) as usize)
        },
        None => None,
    }
}

/// The frame of the object's external `extidx`: the frame of an absolute
/// symbol, else the frame of its group, else that of its segment.
pub open spec fn extdef_frame(st: LinkStateView, obj: ObjectView, extidx: int) -> Option<u16> {
    match extdef_symbol(st, obj, extidx) {
        Some(public) => if public.segment == 0 {
            Some(public.frame)
        } else if public.group != 0 {
            if public.group > st.groups.len() {
                None
            } else {
                Some(frame_of(st.groups[public.group - 1].base as int))
            }
        } else if public.segment > st.segments.len() {
            None
        } else {
            Some(frame_of(st.segments[public.segment - 1].base as int))
        },
        None => None,
    }
}

/// Given the index of a segdef, returns the linear base of the containing
/// segment.
pub fn fixup_segdef_base(state: &LinkState, obj: &Object, segidx: usize) -> (r: Result<
    usize,
    LinkerError,
>)
    ensures
        match r {
            Ok(base) => segdef_base(state@, obj@, segidx as int) == Some(base),
            Err(_) => segdef_base(state@, obj@, segidx as int) is None,
        },
{
    if !obj.segdefs.is_valid_index(segidx) {
        Err(Message::new("invalid segdef index ").dec(segidx).str(" in fixup").error())
    } else {
        let segidx = obj.segdefs.get(segidx).segidx;
        if !state.segments.is_valid_index(segidx) {
            Err(LinkerError::new("segdef names a segment that does not exist"))
        } else {
            Ok(state.segments.get(segidx).base)
        }
    }
}

/// Given the index of a segdef, returns the canonic frame of the containing
/// segment.
pub fn fixup_segdef_frame(state: &LinkState, obj: &Object, segidx: usize) -> (r: Result<
    u16,
    LinkerError,
>)
    ensures
        match r {
            Ok(frame) => segdef_base(state@, obj@, segidx as int) is Some && frame == frame_of(
                segdef_base(state@, obj@, segidx as int)->0 as int,
            ),
            Err(_) => segdef_base(state@, obj@, segidx as int) is None,
        },
{
    let linear = fixup_segdef_base(state, obj, segidx)?;
    Ok(frame_number(linear))
}

/// Given the index of a grpdef, returns the linear base of the group.
pub fn fixup_grpdef_base(state: &LinkState, obj: &Object, grpidx: usize) -> (r: Result<
    usize,
    LinkerError,
>)
    ensures
        match r {
            Ok(base) => grpdef_base(state@, obj@, grpidx as int) == Some(base),
            Err(_) => grpdef_base(state@, obj@, grpidx as int) is None,
        },
{
    if grpidx == 0 || !obj.grpdefs.is_valid_index(grpidx) {
        Err(Message::new("invalid group index ").dec(grpidx).str(" in fixup").error())
    } else {
        let grpidx = obj.grpdefs.get(grpidx);
        if !state.groups.is_valid_index(grpidx) {
            Err(LinkerError::new("grpdef names a group that does not exist"))
        } else {
            Ok(state.groups.get(grpidx).base)
        }
    }
}

/// Given the index of a grpdef, returns the canonic frame of the group.
pub fn fixup_grpdef_frame(state: &LinkState, obj: &Object, grpidx: usize) -> (r: Result<
    u16,
    LinkerError,
>)
    ensures
        match r {
            Ok(frame) => grpdef_base(state@, obj@, grpidx as int) is Some && frame == frame_of(
                grpdef_base(state@, obj@, grpidx as int)->0 as int,
            ),
            Err(_) => grpdef_base(state@, obj@, grpidx as int) is None,
        },
{
    let linear = fixup_grpdef_base(state, obj, grpidx)?;
    Ok(frame_number(linear))
}

/// The public symbol that an external of the object names.
fn fixup_extdef_symbol(state: &LinkState, obj: &Object, extidx: usize) -> (r: Result<
    crate::symbols::PublicSymbol,
    LinkerError,
>)
    ensures
        match r {
            Ok(public) => extdef_symbol(state@, obj@, extidx as int) == Some(public),
            Err(_) => extdef_symbol(state@, obj@, extidx as int) is None,
        },
{
    if !obj.extdefs.is_valid_index(extidx) {
        Err(Message::new("invalid external index ").dec(extidx).str(" in fixup").error())
    } else {
        let symname = obj.extdefs.get(extidx);
        assert(obj@.extdefs[extidx - 1] == symname@);
        match state.symbols.get(symname.as_str()) {
            Some(Symbol::Public(public)) => Ok(public),
            Some(Symbol::Common(_)) => Err(
                Message::new(symname.as_str()).str(
                    ": COMDEF records are not yet implemented.",
                ).error(),
            ),
            Some(Symbol::Undefined) => Err(
                Message::new(symname.as_str()).str(": symbol undefined in pass 2.").error(),
            ),
            None => Err(
                Message::new(symname.as_str()).str(": symbol does not exist in pass 2.").error(),
            ),
        }
    }
}

/// Given the index of an extdef, returns the associated canonic frame.
pub fn fixup_extdef_frame(state: &LinkState, obj: &Object, extidx: usize) -> (r: Result<
    u16,
    LinkerError,
>)
    ensures
        match r {
            Ok(frame) => extdef_frame(state@, obj@, extidx as int) == Some(frame),
            Err(_) => extdef_frame(state@, obj@, extidx as int) is None,
        },
{
    let public = fixup_extdef_symbol(state, obj, extidx)?;
    if public.segment == 0 {
        Ok(public.frame)
    } else if public.group != 0 {
        if !state.groups.is_valid_index(public.group) {
            Err(LinkerError::new("symbol names a group that does not exist"))
        } else {
            Ok(frame_number(state.groups.get(public.group).base))
        }
    } else if !state.segments.is_valid_index(public.segment) {
        Err(LinkerError::new("symbol names a segment that does not exist"))
    } else {
        Ok(frame_number(state.segments.get(public.segment).base))
    }
}

/// Given the index of an extdef, returns the associated linear address.
pub fn fixup_extdef_base(state: &LinkState, obj: &Object, extidx: usize) -> (r: Result<
    usize,
    LinkerError,
>)
    ensures
        match r {
            Ok(base) => extdef_base(state@, obj@, extidx as int) == Some(base),
            Err(_) => extdef_base(state@, obj@, extidx as int) is None,
        },
{
    let public = fixup_extdef_symbol(state, obj, extidx)?;
    if public.segment == 0 {
        Ok(public.offset as usize)
    } else if !state.segments.is_valid_index(public.segment) {
        Err(LinkerError::new("symbol names a segment that does not exist"))
    } else {
        match state.segments.get(public.segment).base.checked_add(public.offset as usize) {
            Some(base) => Ok(base),
            None => Err(LinkerError::new("symbol lies outside of the address space")),
        }
    }
}

/// The linear address of the data that a record places at `offset` of the
/// object's segment definition `segidx`: the address of the segment, plus
/// the place of the object's part in it, plus the offset. The data must lie
/// within the object's part.
pub open spec fn data_base(
    st: LinkStateView,
    obj: ObjectView,
    segidx: int,
    offset: int,
    datalen: int,
) -> Option<usize> {
    if !(0 < segidx <= obj.segdefs.len()) {
        None
    } else if offset >= obj.segdefs[segidx - 1].length || offset + datalen > obj.segdefs[segidx
        - 1].length {
        None
    } else {
        match segdef_base(st, obj, segidx) {
            Some(base) => if obj.segdefs[segidx - 1].base + base + offset > usize::MAX {
                None
            } else {
                Some((obj.segdefs[segidx - 1].base + base + offset) as usize)
            },
            None => None,
        }
    }
}

/// Computes the linear base address of a location given by the index of an
/// object file SEGDEF, and an offset into that segment.
pub fn base_of_obj_seg_offset(
    obj: &Object,
    segidx: usize,
    offset: usize,
    state: &LinkState,
    datalen: usize,
    rectype: &str,
) -> (r: Result<usize, LinkerError>)
    ensures
        match r {
            Ok(base) => data_base(state@, obj@, segidx as int, offset as int, datalen as int)
                == Some(base),
            Err(_) => data_base(state@, obj@, segidx as int, offset as int, datalen as int)
                is None,
        },
{
    if !obj.segdefs.is_valid_index(segidx) {
        return Err(
            Message::new("invalid segidx ").dec(segidx).str(" in ").str(rectype).str(
                " record.",
            ).error(),
        );
    }
    let segdef = obj.segdefs.get(segidx);
    if offset >= segdef.length || datalen > segdef.length - offset {
        return Err(
            Message::new("invalid data range ").hex(offset, 5).str("H..").hex(
                offset.saturating_add(datalen),
                5,
            ).str("H in ").str(rectype).str(" record.").error(),
        );
    }
    let base = fixup_segdef_base(state, obj, segidx)?;
    match segdef.base.checked_add(base) {
        Some(sum) => match sum.checked_add(offset) {
            Some(linear) => Ok(linear),
            None => Err(LinkerError::new("data lies outside of the address space")),
        },
        None => Err(LinkerError::new("data lies outside of the address space")),
    }
}

/// What a thread subrecord does: bit 6 of its first byte tells a frame
/// thread from a target thread, bits 0 and 1 give the number of the thread,
/// bits 2 to 4 the method. The methods that refer to a segment, a group or
/// an external are followed by an index. The method and the index are
/// latched in the thread. The result pairs the object with the position
/// after the subrecord.
pub open spec fn thread_subrecord(obj: ObjectView, b0: u8, payload: Seq<u8>, pos: int) -> Option<
    (ObjectView, int),
> {
    let thread = (b0 % 4) as int;
    if (b0 / 64) % 2 == 1 {
        match FrameType::decode((b0 / 4) % 8) {
            Some(frame_type) => {
                let index = if frame_type.has_index() {
                    read_index(payload, pos)
                } else {
                    Some((0usize, pos))
                };
                match index {
                    Some((frame_index, next)) => Some(
                        (
                            ObjectView {
                                frame_threads: obj.frame_threads.update(
                                    thread,
                                    FrameThread { frame_type: Some(frame_type), frame_index },
                                ),
                                ..obj
                            },
                            next,
                        ),
                    ),
                    None => None,
                }
            },
            None => None,
        }
    } else {
        match TargetType::decode((b0 / 4) % 4) {
            Some(target_type) => if target_type == TargetType::Frame {
                None
            } else {
                match read_index(payload, pos) {
                    Some((target_index, next)) => Some(
                        (
                            ObjectView {
                                target_threads: obj.target_threads.update(
                                    thread,
                                    TargetThread { target_type: Some(target_type), target_index },
                                ),
                                ..obj
                            },
                            next,
                        ),
                    ),
                    None => None,
                }
            },
            None => None,
        }
    }
}

/// Processes a thread subrecord of a FIXUPP.
pub fn pass2_fixupp_thread(rec: &mut Record, obj: &mut Object, b0: u8) -> (r: Result<
    (),
    LinkerError,
>)
    requires
        old(rec).wf(),
        old(obj).wf(),
    ensures
        final(rec).wf(),
        final(rec).data@ == old(rec).data@,
        final(obj)@ == (ObjectView {
            target_threads: final(obj)@.target_threads,
            frame_threads: final(obj)@.frame_threads,
            ..old(obj)@
        }),
        final(obj).wf(),
        r is Err ==> *final(obj) == *old(obj),
        match r {
            Ok(_) => thread_subrecord(old(obj)@, b0, old(rec).data@, old(rec).next as int) == Some(
                (final(obj)@, final(rec).next as int),
            ),
            Err(_) => thread_subrecord(old(obj)@, b0, old(rec).data@, old(rec).next as int)
                is None,
        },
{
    let is_frame_thread = (b0 / 64) % 2 == 1;
    let thread = (b0 % 4) as usize;
    if is_frame_thread {
        let frame_type = FrameType::from_byte((b0 / 4) % 8)?;
        let frame_index = match frame_type {
            FrameType::SEGDEF | FrameType::GRPDEF | FrameType::EXTDEF => rec.index()?,
            _ => 0,
        };
        obj.fixup_threads.frame_threads.set(
            thread,
            FrameThread { frame_type: Some(frame_type), frame_index },
        );
    } else {
        let target_type = TargetType::from_byte((b0 / 4) % 4)?;
        let target_index = match target_type {
            TargetType::Frame => {
                return Err(LinkerError::new("TargetType::Frame is not supported."));
            },
            _ => rec.index()?,
        };
        obj.fixup_threads.target_threads.set(
            thread,
            TargetThread { target_type: Some(target_type), target_index },
        );
    }
    Ok(())
}

/// How a fixup names its frame and its target.
#[derive(Debug, PartialEq, Eq, Structural, Clone, Copy)]
pub struct FixupMethods {
    pub frame_type: FrameType,
    /// The index that the frame method applies to; for an explicit frame,
    /// the frame itself.
    pub frame_index: usize,
    pub target_type: TargetType,
    pub target_index: usize,
    pub target_disp: u16,
}

/// The frame part of the fixup data that starts with the byte `fixdat`: with
/// bit 7 set, what frame thread number bits 4 and 5 has latched; else the
/// method in bits 4 to 6, followed by an index or by an explicit frame.
pub open spec fn fixup_frame_method(obj: ObjectView, fixdat: u8, payload: Seq<u8>, pos: int)
    -> Option<(FrameType, usize, int)> {
    if fixdat / 128 == 1 {
        let thread = obj.frame_threads[((fixdat / 16) % 4) as int];
        match thread.frame_type {
            Some(frame_type) => Some((frame_type, thread.frame_index, pos)),
            None => None,
        }
    } else {
        match FrameType::decode((fixdat / 16) % 8) {
            Some(frame_type) => if frame_type.has_index() {
                match read_index(payload, pos) {
                    Some((index, next)) => Some((frame_type, index, next)),
                    None => None,
                }
            } else if frame_type == FrameType::ExplicitFrame {
                match read_word(payload, pos) {
                    Some((frame, next)) => Some((frame_type, frame as usize, next)),
                    None => None,
                }
            } else {
                Some((frame_type, 0usize, pos))
            },
            None => None,
        }
    }
}

/// The target part of the fixup data that starts with the byte `fixdat`:
/// with bit 3 set, what target thread number bits 0 and 1 has latched; else
/// the method in bits 0 and 1, followed by an index. A target that is a
/// frame is not supported.
pub open spec fn fixup_target_method(obj: ObjectView, fixdat: u8, payload: Seq<u8>, pos: int)
    -> Option<(TargetType, usize, int)> {
    if (fixdat / 8) % 2 == 1 {
        let thread = obj.target_threads[(fixdat % 4) as int];
        match thread.target_type {
            Some(target_type) => Some((target_type, thread.target_index, pos)),
            None => None,
        }
    } else {
        match TargetType::decode(fixdat % 4) {
            Some(target_type) => if target_type == TargetType::Frame {
                None
            } else {
                match read_index(payload, pos) {
                    Some((index, next)) => Some((target_type, index, next)),
                    None => None,
                }
            },
            None => None,
        }
    }
}

/// The fixup data read from `pos`: the FIXDAT byte, the frame part, the
/// target part and, unless bit 2 of the FIXDAT byte is set, the target
/// displacement.
pub open spec fn fixup_methods(obj: ObjectView, payload: Seq<u8>, pos: int) -> Option<
    (FixupMethods, int),
> {
    match read_byte(payload, pos) {
        Some((fixdat, pos1)) => match fixup_frame_method(obj, fixdat, payload, pos1) {
            Some((frame_type, frame_index, pos2)) => match fixup_target_method(
                obj,
                fixdat,
                payload,
                pos2,
            ) {
                Some((target_type, target_index, pos3)) => {
                    let disp = if (fixdat / 4) % 2 == 0 {
                        read_word(payload, pos3)
                    } else {
                        Some((0u16, pos3))
                    };
                    match disp {
                        Some((target_disp, pos4)) => Some(
                            (
                                FixupMethods {
                                    frame_type,
                                    frame_index,
                                    target_type,
                                    target_index,
                                    target_disp,
                                },
                                pos4,
                            ),
                        ),
                        None => None,
                    }
                },
                None => None,
            },
            None => None,
        },
        None => None,
    }
}

/// Reads the fixup data of a fixup or of a start address.
fn pass2_fixup_methods(rec: &mut Record, obj: &Object) -> (r: Result<FixupMethods, LinkerError>)
    requires
        old(rec).wf(),
        obj.wf(),
    ensures
        final(rec).wf(),
        final(rec).data@ == old(rec).data@,
        match r {
            Ok(m) => fixup_methods(obj@, old(rec).data@, old(rec).next as int) == Some(
                (m, final(rec).next as int),
            ),
            Err(_) => fixup_methods(obj@, old(rec).data@, old(rec).next as int) is None,
        },
{
    let fixdat = rec.byte()?;
    let is_frame_thread = fixdat / 128 == 1;
    let is_target_thread = (fixdat / 8) % 2 == 1;
    let has_target_disp = (fixdat / 4) % 2 == 0;
    // Frame data
    let (frame_type, frame_index) = if is_frame_thread {
        let threadidx = ((fixdat / 16) % 4) as usize;
        let thread = obj.fixup_threads.frame_threads[threadidx];
        match thread.frame_type {
            Some(frame_type) => (frame_type, thread.frame_index),
            None => {
                return Err(
                    Message::new("use of undefined frame thread ").dec(threadidx).error(),
                );
            },
        }
    } else {
        let frame_type = FrameType::from_byte((fixdat / 16) % 8)?;
        let frame_index = match frame_type {
            FrameType::SEGDEF | FrameType::GRPDEF | FrameType::EXTDEF => rec.index()?,
            FrameType::ExplicitFrame => rec.word()? as usize,
            _ => 0,
        };
        (frame_type, frame_index)
    };
    // Target data
    let (target_type, target_index) = if is_target_thread {
        let threadidx = (fixdat % 4) as usize;
        let thread = obj.fixup_threads.target_threads[threadidx];
        match thread.target_type {
            Some(target_type) => (target_type, thread.target_index),
            None => {
                return Err(
                    Message::new("use of undefined target thread ").dec(threadidx).error(),
                );
            },
        }
    } else {
        let target_type = TargetType::from_byte(fixdat % 4)?;
        let target_index = match target_type {
            TargetType::Frame => {
                return Err(LinkerError::new("TargetType::Frame is not supported."));
            },
            _ => rec.index()?,
        };
        (target_type, target_index)
    };
    let target_disp = if has_target_disp {
        rec.word()?
    } else {
        0
    };
    Ok(FixupMethods { frame_type, frame_index, target_type, target_index, target_disp })
}

/// The frame that goes with a target: that of the segment, of the group or
/// of the external that the target names.
pub open spec fn target_frame(
    st: LinkStateView,
    obj: ObjectView,
    target_type: TargetType,
    index: int,
) -> Option<u16> {
    match target_type {
        TargetType::SEGDEF => match segdef_base(st, obj, index) {
            Some(base) => Some(frame_of(base as int)),
            None => None,
        },
        TargetType::GRPDEF => match grpdef_base(st, obj, index) {
            Some(base) => Some(frame_of(base as int)),
            None => None,
        },
        TargetType::EXTDEF => extdef_frame(st, obj, index),
        TargetType::Frame => None,
    }
}

/// The frame of a fixup: that of a segment, of a group or of an external;
/// the frame that the fixup gives; the frame of the address of the data
/// placed last; or the frame that goes with the target.
pub open spec fn fixup_frame(
    st: LinkStateView,
    obj: ObjectView,
    lastdata: LastDataRegion,
    m: FixupMethods,
) -> Option<u16> {
    match m.frame_type {
        FrameType::SEGDEF => target_frame(st, obj, TargetType::SEGDEF, m.frame_index as int),
        FrameType::GRPDEF => target_frame(st, obj, TargetType::GRPDEF, m.frame_index as int),
        FrameType::EXTDEF => target_frame(st, obj, TargetType::EXTDEF, m.frame_index as int),
        FrameType::ExplicitFrame => Some((m.frame_index % 0x10000) as u16),
        FrameType::SegOfPrevData => Some(frame_of(lastdata.base as int)),
        FrameType::FromTarget => target_frame(st, obj, m.target_type, m.target_index as int),
    }
}

/// The linear address of the target of a fixup, before the displacement: a
/// segment definition stands for the start of the object's part of the
/// segment, a group for its address, an external for the address of its
/// symbol.
pub open spec fn target_base(
    st: LinkStateView,
    obj: ObjectView,
    target_type: TargetType,
    index: int,
) -> Option<int> {
    match target_type {
        TargetType::SEGDEF => match segdef_base(st, obj, index) {
            Some(base) => Some(base + obj.segdefs[index - 1].base),
            None => None,
        },
        TargetType::GRPDEF => match grpdef_base(st, obj, index) {
            Some(base) => Some(base as int),
            None => None,
        },
        TargetType::EXTDEF => match extdef_base(st, obj, index) {
            Some(base) => Some(base as int),
            None => None,
        },
        TargetType::Frame => None,
    }
}

/// The linear address of the target of a fixup, which the machine must be
/// able to hold.
pub open spec fn fixup_target(st: LinkStateView, obj: ObjectView, m: FixupMethods) -> Option<
    usize,
> {
    match target_base(st, obj, m.target_type, m.target_index as int) {
        Some(base) => if base + m.target_disp > usize::MAX {
            None
        } else {
            Some((base + m.target_disp) as usize)
        },
        None => None,
    }
}

/// The frame and the target address of the fixup data read from `pos`, and
/// the position after it.
pub open spec fn fixup_data(
    st: LinkStateView,
    obj: ObjectView,
    lastdata: LastDataRegion,
    payload: Seq<u8>,
    pos: int,
) -> Option<(u16, usize, int)> {
    match fixup_methods(obj, payload, pos) {
        Some((m, next)) => match (fixup_frame(st, obj, lastdata, m), fixup_target(st, obj, m)) {
            (Some(frame), Some(target)) => Some((frame, target, next)),
            _ => None,
        },
        None => None,
    }
}

fn frame_for_target(state: &LinkState, obj: &Object, target_type: TargetType, index: usize) -> (r:
    Result<u16, LinkerError>)
    ensures
        match r {
            Ok(frame) => target_frame(state@, obj@, target_type, index as int) == Some(frame),
            Err(_) => target_frame(state@, obj@, target_type, index as int) is None,
        },
{
    match target_type {
        TargetType::SEGDEF => fixup_segdef_frame(state, obj, index),
        TargetType::GRPDEF => fixup_grpdef_frame(state, obj, index),
        TargetType::EXTDEF => fixup_extdef_frame(state, obj, index),
        TargetType::Frame => Err(LinkerError::new("TargetType::Frame is not supported.")),
    }
}

/// Reads the fixup data of a fixup or of a start address, and computes the
/// frame and the target address that it stands for.
pub fn pass2_fixup_data(
    rec: &mut Record,
    state: &LinkState,
    obj: &Object,
    lastdata: &LastDataRegion,
) -> (r: Result<(u16, usize), LinkerError>)
    requires
        old(rec).wf(),
        obj.wf(),
    ensures
        final(rec).wf(),
        final(rec).data@ == old(rec).data@,
        match r {
            Ok((frame, target)) => fixup_data(
                state@,
                obj@,
                *lastdata,
                old(rec).data@,
                old(rec).next as int,
            ) == Some((frame, target, final(rec).next as int)),
            Err(_) => fixup_data(state@, obj@, *lastdata, old(rec).data@, old(rec).next as int)
                is None,
        },
{
    let m = pass2_fixup_methods(rec, obj)?;
    // Compute the frame.
    let fbval = match m.frame_type {
        FrameType::SEGDEF => fixup_segdef_frame(state, obj, m.frame_index)?,
        FrameType::GRPDEF => fixup_grpdef_frame(state, obj, m.frame_index)?,
        FrameType::EXTDEF => fixup_extdef_frame(state, obj, m.frame_index)?,
        FrameType::ExplicitFrame => (m.frame_index % 0x10000) as u16,
        FrameType::SegOfPrevData => frame_number(lastdata.base),
        FrameType::FromTarget => frame_for_target(state, obj, m.target_type, m.target_index)?,
    };
    // Compute the target.
    let base = match m.target_type {
        TargetType::SEGDEF => {
            let base = fixup_segdef_base(state, obj, m.target_index)?;
            let segdef = obj.segdefs.get(m.target_index);
            match base.checked_add(segdef.base) {
                Some(sum) => sum,
                None => {
                    return Err(LinkerError::new("fixup target lies outside of the address space"));
                },
            }
        },
        TargetType::GRPDEF => fixup_grpdef_base(state, obj, m.target_index)?,
        TargetType::EXTDEF => fixup_extdef_base(state, obj, m.target_index)?,
        TargetType::Frame => {
            return Err(LinkerError::new("TargetType::Frame is not supported."));
        },
    };
    match base.checked_add(m.target_disp as usize) {
        Some(target) => Ok((fbval, target)),
        None => Err(LinkerError::new("fixup target lies outside of the address space")),
    }
}

/// The word that the image holds at `at`, low byte first.
pub open spec fn word_at(image: Seq<u8>, at: int) -> int {
    image[at] as int + 256 * image[at + 1] as int
}

/// The image with `v` added to the word at `at`; the sum wraps around at 16
/// bits.
pub open spec fn with_word_added(image: Seq<u8>, at: int, v: int) -> Seq<u8> {
    let sum = (word_at(image, at) + v) % 0x10000;
    image.update(at, (sum % 256) as u8).update(at + 1, (sum / 256) as u8)
}

/// The image with `v` added to the byte at `at`; the sum wraps around at 8
/// bits.
pub open spec fn with_byte_added(image: Seq<u8>, at: int, v: int) -> Seq<u8> {
    image.update(at, ((image[at] as int + v) % 256) as u8)
}

/// `a - b`, wrapped around at 16 bits.
fn low_word(a: usize, b: usize) -> (w: u16)
    ensures
        w == (a - b) % 0x10000,
{
    let x = a % 0x10000;
    let y = b % 0x10000;
    if x >= y {
        (x - y) as u16
    } else {
        (x + 0x10000 - y) as u16
    }
}

fn add_word(image: &mut Vec<u8>, at: usize, v: u16, Ghost(exact): Ghost<int>)
    requires
        at + 2 <= old(image).len(),
        v == exact % 0x10000,
    ensures
        final(image)@ == with_word_added(old(image)@, at as int, exact),
{
    let curr = (image[at] as u16) + (image[at + 1] as u16) * 256;
    let next = curr.wrapping_add(v);
    assert(next == (word_at(image@, at as int) + exact) % 0x10000) by {
        lemma_add_mod_noop_right(curr as int, exact, 0x10000);
    }
    image.set(at, (next % 256) as u8);
    image.set(at + 1, (next / 256) as u8);
}

fn add_byte(image: &mut Vec<u8>, at: usize, v: u16, Ghost(exact): Ghost<int>)
    requires
        at < old(image).len(),
        v == exact % 0x10000,
    ensures
        final(image)@ == with_byte_added(old(image)@, at as int, exact),
{
    let curr = image[at];
    let low = (v % 256) as u8;
    assert(low == exact % 256) by {
        lemma_mod_mod(exact, 256, 256);
    }
    let next = curr.wrapping_add(low);
    assert(next == (curr as int + exact) % 256) by {
        lemma_add_mod_noop_right(curr as int, exact, 256);
    }
    image.set(at, next);
}

/// What the fixups have made of the image so far: the image, the
/// relocations for the loader, and the warnings.
#[verifier::ext_equal]
pub struct Patched {
    pub image: Seq<u8>,
    pub relocs: Seq<Relocation>,
    pub warnings: Seq<Warning>,
}

/// The number of bytes that a fixup of a location type changes.
pub open spec fn width_of(loctype: Locat) -> int {
    match loctype {
        Locat::LowOrderByte => 1,
        Locat::Offset16 => 2,
        Locat::Segment16 => 2,
        Locat::FarPointer => 4,
    }
}

/// The relocation for the segment word at `location`: its address as a far
/// pointer in the frame of the data placed last.
pub open spec fn relocation_at(lastdata: LastDataRegion, location: int) -> Relocation {
    Relocation {
        seg: lastdata.frame,
        offset: ((location - lastdata.frame * 16) % 0x10000) as u16,
    }
}

/// Whether `v` is an offset within a frame.
pub open spec fn in_frame(v: int) -> bool {
    0 <= v <= 0xffff
}

/// What a segment-relative fixup does at `location`: the offset of the
/// target in the frame is added to a byte, to a word, or to the offset word
/// of a far pointer; the frame is added to a segment word, or to the segment
/// word of a far pointer, for which the loader gets a relocation. An offset
/// that does not fit in 16 bits leaves a warning. A location that does not
/// lie in the image leaves a warning, and the image as it was.
pub open spec fn segment_relative(
    p: Patched,
    lastdata: LastDataRegion,
    loctype: Locat,
    location: usize,
    frame: u16,
    target: usize,
) -> Patched {
    let foval = target - frame * 16;
    let warnings = if in_frame(foval) {
        p.warnings
    } else {
        p.warnings.push(Warning::FixupOverflow)
    };
    if location + width_of(loctype) > p.image.len() {
        Patched { warnings: warnings.push(Warning::FixupOutsideImage { location }), ..p }
    } else {
        match loctype {
            Locat::LowOrderByte => Patched {
                image: with_byte_added(p.image, location as int, foval),
                warnings,
                ..p
            },
            Locat::Offset16 => Patched {
                image: with_word_added(p.image, location as int, foval),
                warnings,
                ..p
            },
            Locat::Segment16 => Patched {
                image: with_word_added(p.image, location as int, frame as int),
                relocs: p.relocs.push(relocation_at(lastdata, location as int)),
                warnings,
            },
            Locat::FarPointer => Patched {
                image: with_word_added(
                    with_word_added(p.image, location as int, foval),
                    location + 2,
                    frame as int,
                ),
                relocs: p.relocs.push(relocation_at(lastdata, location + 2)),
                warnings,
            },
        }
    }
}

/// What a self-relative fixup does at `location`: the distance from the end
/// of the word at the location to the target is added to that word. Other
/// location types cannot be fixed up in this way. A location or a target
/// outside of the frame leaves a warning. A location that does not lie in
/// the image leaves a warning, and the image as it was.
pub open spec fn self_relative(
    p: Patched,
    loctype: Locat,
    location: usize,
    frame: u16,
    target: usize,
) -> Option<Patched> {
    let warnings = if in_frame(location - frame * 16) && in_frame(target - frame * 16) {
        p.warnings
    } else {
        p.warnings.push(Warning::FixupOutsideFrame { location, frame })
    };
    if loctype != Locat::Offset16 {
        None
    } else if location + 2 > p.image.len() {
        Some(Patched { warnings: warnings.push(Warning::FixupOutsideImage { location }), ..p })
    } else {
        Some(
            Patched {
                image: with_word_added(p.image, location as int, target - (location + 2)),
                warnings,
                ..p
            },
        )
    }
}

/// What the fixup subrecord that starts with the byte `b0` does. Its first
/// two bytes make up a word, high byte first: bit 14 tells a
/// segment-relative fixup from a self-relative one, bits 10 to 13 give the
/// location type, bits 0 to 9 the offset of the location in the data placed
/// last. The fixup data follows. The result pairs the outcome with the
/// position after the subrecord.
pub open spec fn fixup_subrecord(
    st: LinkStateView,
    obj: ObjectView,
    lastdata: LastDataRegion,
    p: Patched,
    b0: u8,
    payload: Seq<u8>,
    pos: int,
) -> Option<(Patched, int)> {
    match read_byte(payload, pos) {
        Some((b1, pos1)) => {
            let locat = b0 as int * 256 + b1 as int;
            match Locat::decode(((locat / 1024) % 16) as u16) {
                Some(loctype) => if lastdata.base + locat % 1024 > usize::MAX {
                    None
                } else {
                    let location = (lastdata.base + locat % 1024) as usize;
                    match fixup_data(st, obj, lastdata, payload, pos1) {
                        Some((frame, target, next)) => if (locat / 0x4000) % 2 == 1 {
                            Some(
                                (
                                    segment_relative(p, lastdata, loctype, location, frame, target),
                                    next,
                                ),
                            )
                        } else {
                            match self_relative(p, loctype, location, frame, target) {
                                Some(q) => Some((q, next)),
                                None => None,
                            }
                        },
                        None => None,
                    }
                },
                None => None,
            }
        },
        None => None,
    }
}

/// A segment-relative fixup of a segment word or of a far pointer, at a
/// location in the image, adds exactly one relocation; every other fixup
/// adds none.
pub proof fn lemma_fixup_relocations(
    p: Patched,
    lastdata: LastDataRegion,
    loctype: Locat,
    location: usize,
    frame: u16,
    target: usize,
)
    ensures
        segment_relative(p, lastdata, loctype, location, frame, target).relocs.len()
            == p.relocs.len() + if (loctype == Locat::Segment16 || loctype == Locat::FarPointer)
            && location + width_of(loctype) <= p.image.len() {
            1int
        } else {
            0int
        },
        self_relative(p, loctype, location, frame, target) is Some ==> self_relative(
            p,
            loctype,
            location,
            frame,
            target,
        )->0.relocs == p.relocs,
{
}

/// A fixup changes no byte of the image but those at its location.
pub proof fn lemma_fixup_changes(
    p: Patched,
    lastdata: LastDataRegion,
    loctype: Locat,
    location: usize,
    frame: u16,
    target: usize,
    i: int,
)
    requires
        0 <= i < p.image.len(),
        !(location <= i < location + width_of(loctype)),
    ensures
        segment_relative(p, lastdata, loctype, location, frame, target).image.len()
            == p.image.len(),
        segment_relative(p, lastdata, loctype, location, frame, target).image[i] == p.image[i],
        self_relative(p, loctype, location, frame, target) is Some ==> self_relative(
            p,
            loctype,
            location,
            frame,
            target,
        )->0.image.len() == p.image.len() && self_relative(
            p,
            loctype,
            location,
            frame,
            target,
        )->0.image[i] == p.image[i],
{
}

/// The image, the relocations and the warnings as one value.
pub open spec fn patched(state: &LinkState, image: &Vec<u8>, relocs: &Vec<Relocation>) -> Patched {
    Patched { image: image@, relocs: relocs@, warnings: state@.warnings }
}

/// Applies a segment-relative fixup.
fn apply_segment_relative(
    state: &mut LinkState,
    image: &mut Vec<u8>,
    relocs: &mut Vec<Relocation>,
    lastdata: &LastDataRegion,
    loctype: Locat,
    imageptr: usize,
    fbval: u16,
    target: usize,
)
    ensures
        final(state)@ == (LinkStateView { warnings: final(state)@.warnings, ..old(state)@ }),
        final(state).wf() == old(state).wf(),
        final(image)@.len() == old(image)@.len(),
        patched(final(state), final(image), final(relocs)) == segment_relative(
            patched(old(state), old(image), old(relocs)),
            *lastdata,
            loctype,
            imageptr,
            fbval,
            target,
        ),
{
    let frame_base = (fbval as usize) * 16;
    let len = image.len();
    if target < frame_base || target - frame_base > 0xffff {
        state.warnings.push(Warning::FixupOverflow);
    }
    let foval = low_word(target, frame_base);
    let ghost exact = target - frame_base;
    match loctype {
        Locat::Offset16 => {
            if imageptr > len || len - imageptr < 2 {
                state.warnings.push(Warning::FixupOutsideImage { location: imageptr });
            } else {
                add_word(image, imageptr, foval, Ghost(exact));
            }
        },
        Locat::Segment16 => {
            if imageptr > len || len - imageptr < 2 {
                state.warnings.push(Warning::FixupOutsideImage { location: imageptr });
            } else {
                add_word(image, imageptr, fbval, Ghost(fbval as int));
                relocs.push(
                    Relocation {
                        seg: lastdata.frame,
                        offset: low_word(imageptr, (lastdata.frame as usize) * 16),
                    },
                );
            }
        },
        Locat::FarPointer => {
            if imageptr > len || len - imageptr < 4 {
                state.warnings.push(Warning::FixupOutsideImage { location: imageptr });
            } else {
                add_word(image, imageptr, foval, Ghost(exact));
                add_word(image, imageptr + 2, fbval, Ghost(fbval as int));
                relocs.push(
                    Relocation {
                        seg: lastdata.frame,
                        offset: low_word(imageptr + 2, (lastdata.frame as usize) * 16),
                    },
                );
            }
        },
        Locat::LowOrderByte => {
            if imageptr >= len {
                state.warnings.push(Warning::FixupOutsideImage { location: imageptr });
            } else {
                add_byte(image, imageptr, foval, Ghost(exact));
            }
        },
    }
}

/// Applies a self-relative fixup.
fn apply_self_relative(
    state: &mut LinkState,
    image: &mut Vec<u8>,
    relocs: &Vec<Relocation>,
    loctype: Locat,
    imageptr: usize,
    fbval: u16,
    target: usize,
) -> (r: Result<(), LinkerError>)
    ensures
        final(state)@ == (LinkStateView { warnings: final(state)@.warnings, ..old(state)@ }),
        final(state).wf() == old(state).wf(),
        final(image)@.len() == old(image)@.len(),
        r is Err ==> *final(state) == *old(state) && final(image)@ == old(image)@,
        match r {
            Ok(_) => self_relative(
                patched(old(state), old(image), relocs),
                loctype,
                imageptr,
                fbval,
                target,
            ) == Some(patched(final(state), final(image), relocs)),
            Err(_) => self_relative(
                patched(old(state), old(image), relocs),
                loctype,
                imageptr,
                fbval,
                target,
            ) is None,
        },
{
    match loctype {
        Locat::Offset16 => {},
        _ => {
            return Err(
                LinkerError::with_detail(
                    "invalid self-relative fixup location type ",
                    loctype.name(),
                ),
            );
        },
    }
    let frame_base = (fbval as usize) * 16;
    let len = image.len();
    let location_ok = imageptr >= frame_base && imageptr - frame_base <= 0xffff;
    let target_ok = target >= frame_base && target - frame_base <= 0xffff;
    if !(location_ok && target_ok) {
        state.warnings.push(Warning::FixupOutsideFrame { location: imageptr, frame: fbval });
    }
    if imageptr > len || len - imageptr < 2 {
        state.warnings.push(Warning::FixupOutsideImage { location: imageptr });
    } else {
        let disp = low_word(target, imageptr + 2);
        add_word(image, imageptr, disp, Ghost(target - (imageptr + 2)));
    }
    Ok(())
}

/// Processes a fixup subrecord of a FIXUPP. A subrecord that is rejected
/// changes nothing.
pub fn pass2_fixupp_fixup(
    rec: &mut Record,
    state: &mut LinkState,
    obj: &Object,
    image: &mut Vec<u8>,
    b0: u8,
    lastdata: &LastDataRegion,
    relocs: &mut Vec<Relocation>,
) -> (r: Result<(), LinkerError>)
    requires
        old(rec).wf(),
        obj.wf(),
    ensures
        final(rec).wf(),
        final(rec).data@ == old(rec).data@,
        final(state)@ == (LinkStateView { warnings: final(state)@.warnings, ..old(state)@ }),
        final(state).wf() == old(state).wf(),
        final(image)@.len() == old(image)@.len(),
        r is Err ==> *final(state) == *old(state),
        r is Err ==> final(image)@ == old(image)@,
        r is Err ==> final(relocs)@ == old(relocs)@,
        match r {
            Ok(_) => fixup_subrecord(
                old(state)@,
                obj@,
                *lastdata,
                patched(old(state), old(image), old(relocs)),
                b0,
                old(rec).data@,
                old(rec).next as int,
            ) == Some((patched(final(state), final(image), final(relocs)), final(rec).next as int)),
            Err(_) => fixup_subrecord(
                old(state)@,
                obj@,
                *lastdata,
                patched(old(state), old(image), old(relocs)),
                b0,
                old(rec).data@,
                old(rec).next as int,
            ) is None,
        },
{
    // Fixup location.
    let b1 = rec.byte()?;
    let locat: u16 = (b0 as u16) * 256 + (b1 as u16);
    let is_segment_rel = (locat / 0x4000) % 2 == 1;
    let loctype = Locat::new((locat / 1024) % 16)?;
    let imageptr = match lastdata.base.checked_add((locat % 1024) as usize) {
        Some(at) => at,
        None => {
            return Err(LinkerError::new("fixup location lies outside of the address space"));
        },
    };
    let (fbval, target) = pass2_fixup_data(rec, state, obj, lastdata)?;
    // Compute the fixup.
    if is_segment_rel {
        apply_segment_relative(state, image, relocs, lastdata, loctype, imageptr, fbval, target);
        Ok(())
    } else {
        apply_self_relative(state, image, relocs, loctype, imageptr, fbval, target)
    }
}

/// A link state without what pass 2 adds to it: the tables that pass 1 has
/// built.
pub open spec fn tables(st: LinkStateView) -> LinkStateView {
    LinkStateView { warnings: Seq::empty(), entry: None, ..st }
}

/// What pass 2 looks up in the link state is looked up in its tables.
pub proof fn lemma_fixup_tables(
    st: LinkStateView,
    obj: ObjectView,
    lastdata: LastDataRegion,
    payload: Seq<u8>,
    pos: int,
)
    ensures
        fixup_data(st, obj, lastdata, payload, pos) == fixup_data(
            tables(st),
            obj,
            lastdata,
            payload,
            pos,
        ),
{
}

/// What the subrecord at `pos` of a FIXUPP record does: a thread subrecord
/// (with bit 7 of its first byte clear) latches a method, a fixup subrecord
/// (with bit 7 set) changes the image.
#[verifier::opaque]
pub open spec fn fixupp_subrecord(
    st: LinkStateView,
    obj: ObjectView,
    lastdata: LastDataRegion,
    p: Patched,
    payload: Seq<u8>,
    pos: int,
) -> Option<(ObjectView, Patched, int)> {
    match read_byte(payload, pos) {
        Some((b0, pos1)) => if b0 < 0x80 {
            match thread_subrecord(obj, b0, payload, pos1) {
                Some((latched, next)) => Some((latched, p, next)),
                None => None,
            }
        } else {
            match fixup_subrecord(st, obj, lastdata, p, b0, payload, pos1) {
                Some((q, next)) => Some((obj, q, next)),
                None => None,
            }
        },
        None => None,
    }
}

/// What a FIXUPP record does from `pos` on: its subrecords take effect one
/// after the other.
pub open spec fn fixupp_record(
    st: LinkStateView,
    obj: ObjectView,
    lastdata: LastDataRegion,
    p: Patched,
    payload: Seq<u8>,
    pos: int,
) -> Option<(ObjectView, Patched)>
    decreases payload.len() - pos,
{
    if pos >= payload.len() {
        Some((obj, p))
    } else {
        match fixupp_subrecord(st, obj, lastdata, p, payload, pos) {
            Some((latched, q, next)) => if pos < next <= payload.len() {
                fixupp_record(st, latched, lastdata, q, payload, next)
            } else {
                None
            },
            None => None,
        }
    }
}

/// What a FIXUPP record has made of the object and of the image when it
/// ends or fails: the subrecords before the one that fails have taken
/// effect, that one and those after it have not.
pub open spec fn fixupp_left(
    st: LinkStateView,
    obj: ObjectView,
    lastdata: LastDataRegion,
    p: Patched,
    payload: Seq<u8>,
    pos: int,
) -> (ObjectView, Patched)
    decreases payload.len() - pos,
{
    if pos >= payload.len() {
        (obj, p)
    } else {
        match fixupp_subrecord(st, obj, lastdata, p, payload, pos) {
            Some((latched, q, next)) => if pos < next <= payload.len() {
                fixupp_left(st, latched, lastdata, q, payload, next)
            } else {
                (obj, p)
            },
            None => (obj, p),
        }
    }
}

/// Handles one subrecord of a FIXUPP record.
fn pass2_fixupp_subrecord(
    rec: &mut Record,
    state: &mut LinkState,
    obj: &mut Object,
    image: &mut Vec<u8>,
    lastdata: &LastDataRegion,
    relocs: &mut Vec<Relocation>,
) -> (r: Result<(), LinkerError>)
    requires
        old(rec).wf(),
        old(obj).wf(),
    ensures
        final(rec).wf(),
        final(rec).data@ == old(rec).data@,
        final(rec).next > old(rec).next || r is Err,
        final(obj)@ == (ObjectView {
            target_threads: final(obj)@.target_threads,
            frame_threads: final(obj)@.frame_threads,
            ..old(obj)@
        }),
        final(obj).wf(),
        final(state)@ == (LinkStateView { warnings: final(state)@.warnings, ..old(state)@ }),
        final(state).wf() == old(state).wf(),
        final(image)@.len() == old(image)@.len(),
        r is Err ==> *final(state) == *old(state),
        r is Err ==> *final(obj) == *old(obj),
        r is Err ==> final(image)@ == old(image)@,
        r is Err ==> final(relocs)@ == old(relocs)@,
        match r {
            Ok(_) => fixupp_subrecord(
                tables(old(state)@),
                old(obj)@,
                *lastdata,
                patched(old(state), old(image), old(relocs)),
                old(rec).data@,
                old(rec).next as int,
            ) == Some(
                (
                    final(obj)@,
                    patched(final(state), final(image), final(relocs)),
                    final(rec).next as int,
                ),
            ),
            Err(_) => fixupp_subrecord(
                tables(old(state)@),
                old(obj)@,
                *lastdata,
                patched(old(state), old(image), old(relocs)),
                old(rec).data@,
                old(rec).next as int,
            ) is None,
        },
{
    reveal(fixupp_subrecord);
    let b0 = rec.byte()?;
    if b0 < 0x80 {
        pass2_fixupp_thread(rec, obj, b0)
    } else {
        proof {
            lemma_fixup_subrecord_tables(
                state@,
                obj@,
                *lastdata,
                patched(state, image, relocs),
                b0,
                rec.data@,
                rec.next as int,
            );
        }
        pass2_fixupp_fixup(rec, state, obj, image, b0, lastdata, relocs)
    }
}

/// Handles a FIXUPP record, which applies relocation changes to the final
/// image. Where a subrecord is rejected, those before it have taken effect.
pub fn pass2_fixupp(
    rec: &mut Record,
    state: &mut LinkState,
    obj: &mut Object,
    image: &mut Vec<u8>,
    lastdata: &LastDataRegion,
    relocs: &mut Vec<Relocation>,
) -> (r: Result<(), LinkerError>)
    requires
        old(rec).wf(),
        old(obj).wf(),
    ensures
        final(rec).wf(),
        final(rec).data@ == old(rec).data@,
        final(obj)@ == (ObjectView {
            target_threads: final(obj)@.target_threads,
            frame_threads: final(obj)@.frame_threads,
            ..old(obj)@
        }),
        final(obj).wf(),
        final(state)@ == (LinkStateView { warnings: final(state)@.warnings, ..old(state)@ }),
        final(state).wf() == old(state).wf(),
        final(image)@.len() == old(image)@.len(),
        (final(obj)@, patched(final(state), final(image), final(relocs))) == fixupp_left(
            tables(old(state)@),
            old(obj)@,
            *lastdata,
            patched(old(state), old(image), old(relocs)),
            old(rec).data@,
            old(rec).next as int,
        ),
        match r {
            Ok(_) => fixupp_record(
                tables(old(state)@),
                old(obj)@,
                *lastdata,
                patched(old(state), old(image), old(relocs)),
                old(rec).data@,
                old(rec).next as int,
            ) == Some((final(obj)@, patched(final(state), final(image), final(relocs)))),
            Err(_) => fixupp_record(
                tables(old(state)@),
                old(obj)@,
                *lastdata,
                patched(old(state), old(image), old(relocs)),
                old(rec).data@,
                old(rec).next as int,
            ) is None,
        },
{
    while !rec.end()
        invariant
            rec.wf(),
            obj@ == (ObjectView {
                target_threads: obj@.target_threads,
                frame_threads: obj@.frame_threads,
                ..old(obj)@
            }),
            obj.wf(),
            rec.data@ == old(rec).data@,
            state@ == (LinkStateView { warnings: state@.warnings, ..old(state)@ }),
            state.wf() == old(state).wf(),
            image@.len() == old(image)@.len(),
            fixupp_left(
                tables(old(state)@),
                obj@,
                *lastdata,
                patched(state, image, relocs),
                rec.data@,
                rec.next as int,
            ) == fixupp_left(
                tables(old(state)@),
                old(obj)@,
                *lastdata,
                patched(old(state), old(image), old(relocs)),
                old(rec).data@,
                old(rec).next as int,
            ),
            fixupp_record(
                tables(old(state)@),
                obj@,
                *lastdata,
                patched(state, image, relocs),
                rec.data@,
                rec.next as int,
            ) == fixupp_record(
                tables(old(state)@),
                old(obj)@,
                *lastdata,
                patched(old(state), old(image), old(relocs)),
                old(rec).data@,
                old(rec).next as int,
            ),
        decreases rec.data@.len() - rec.next,
    {
        assert(tables(state@) == tables(old(state)@));
        pass2_fixupp_subrecord(rec, state, obj, image, lastdata, relocs)?;
    }
    Ok(())
}

/// What a fixup subrecord looks up in the link state is looked up in its
/// tables.
pub proof fn lemma_fixup_subrecord_tables(
    st: LinkStateView,
    obj: ObjectView,
    lastdata: LastDataRegion,
    p: Patched,
    b0: u8,
    payload: Seq<u8>,
    pos: int,
)
    ensures
        fixup_subrecord(st, obj, lastdata, p, b0, payload, pos) == fixup_subrecord(
            tables(st),
            obj,
            lastdata,
            p,
            b0,
            payload,
            pos,
        ),
{
    match read_byte(payload, pos) {
        Some((_, pos1)) => {
            lemma_fixup_tables(st, obj, lastdata, payload, pos1);
        },
        None => {},
    }
}

/// What a MODEND record does: where bits 7 and 6 of its first byte mark the
/// main module and a start address, the fixup data that follows gives the
/// entry point of the program, as the frame and the offset of the target in
/// it, which must fit in 16 bits. A program has one entry point only.
pub open spec fn modend_record(
    st: LinkStateView,
    obj: ObjectView,
    lastdata: LastDataRegion,
    entry: Option<FarPtr>,
    payload: Seq<u8>,
    pos: int,
) -> Option<Option<FarPtr>> {
    match read_byte(payload, pos) {
        Some((modtype, pos1)) => if modtype / 128 == 1 && (modtype / 64) % 2 == 1 {
            if entry is Some {
                None
            } else {
                match fixup_data(st, obj, lastdata, payload, pos1) {
                    Some((frame, target, _)) => if in_frame(target - frame * 16) {
                        Some(Some(FarPtr { seg: frame, offset: (target - frame * 16) as u16 }))
                    } else {
                        None
                    },
                    None => None,
                }
            }
        } else {
            Some(entry)
        },
        None => Some(entry),
    }
}

/// Handles a MODEND record, which potentially includes the program's start
/// address. A start address that is rejected leaves the entry point as it
/// was.
pub fn pass2_modend(
    rec: &mut Record,
    state: &mut LinkState,
    obj: &Object,
    lastdata: &LastDataRegion,
) -> (r: Result<(), LinkerError>)
    requires
        old(rec).wf(),
        obj.wf(),
    ensures
        final(rec).wf(),
        final(rec).data@ == old(rec).data@,
        final(state)@ == (LinkStateView { entry: final(state)@.entry, ..old(state)@ }),
        final(state).wf() == old(state).wf(),
        r is Err ==> *final(state) == *old(state),
        match r {
            Ok(_) => modend_record(
                tables(old(state)@),
                obj@,
                *lastdata,
                old(state)@.entry,
                old(rec).data@,
                old(rec).next as int,
            ) == Some(final(state)@.entry),
            Err(_) => modend_record(
                tables(old(state)@),
                obj@,
                *lastdata,
                old(state)@.entry,
                old(rec).data@,
                old(rec).next as int,
            ) is None,
        },
{
    if !rec.end() {
        let modtype = rec.byte()?;
        let is_main = modtype / 128 == 1;
        let has_start = (modtype / 64) % 2 == 1;
        if is_main && has_start {
            if state.entry.is_some() {
                return Err(LinkerError::new("program has multiple entry points."));
            } else {
                proof {
                    lemma_fixup_tables(state@, obj@, *lastdata, rec.data@, rec.next as int);
                }
                let (fbval, target) = pass2_fixup_data(rec, state, obj, lastdata)?;
                let frame_base = (fbval as usize) * 16;
                if target < frame_base || target - frame_base > 0xffff {
                    return Err(LinkerError::new("fixup overflow in MODEND start address."));
                }
                state.entry = Some(FarPtr { seg: fbval, offset: (target - frame_base) as u16 });
            }
        }
    }
    Ok(())
}

/// The image with `data` at `base`.
pub open spec fn with_data(image: Seq<u8>, base: int, data: Seq<u8>) -> Seq<u8> {
    Seq::new(
        image.len(),
        |i: int|
            if base <= i < base + data.len() {
                data[i - base]
            } else {
                image[i]
            },
    )
}

/// What placing `data` at `offset` of the object's segment definition
/// `segidx` does: the data, which must lie in the image, is copied into it,
/// and becomes the data placed last, whose frame is that of its address.
pub open spec fn data_placed(
    st: LinkStateView,
    obj: ObjectView,
    image: Seq<u8>,
    segidx: usize,
    offset: usize,
    data: Seq<u8>,
) -> Option<(Seq<u8>, LastDataRegion)> {
    match data_base(st, obj, segidx as int, offset as int, data.len() as int) {
        Some(base) => if base + data.len() > image.len() {
            None
        } else {
            Some(
                (
                    with_data(image, base as int, data),
                    LastDataRegion {
                        frame: frame_of(base as int),
                        base,
                        length: data.len() as usize,
                    },
                ),
            )
        },
        None => None,
    }
}

/// Copies `data` to its place in the image.
fn place_data(
    state: &LinkState,
    obj: &Object,
    image: &mut Vec<u8>,
    lastdata: &mut LastDataRegion,
    segidx: usize,
    offset: usize,
    data: &[u8],
    rectype: &str,
) -> (r: Result<(), LinkerError>)
    ensures
        final(image)@.len() == old(image)@.len(),
        match r {
            Ok(_) => data_placed(tables(state@), obj@, old(image)@, segidx, offset, data@) == Some(
                (final(image)@, *final(lastdata)),
            ),
            Err(_) => data_placed(tables(state@), obj@, old(image)@, segidx, offset, data@) is None
                && final(image)@ == old(image)@ && *final(lastdata) == *old(lastdata),
        },
{
    let count = data.len();
    let base = base_of_obj_seg_offset(obj, segidx, offset, state, count, rectype)?;
    let frame = frame_number(base);
    if base > image.len() || image.len() - base < count {
        return Err(LinkerError::with_detail("data lies outside of the image in record ", rectype));
    }
    let mut i: usize = 0;
    while i < count
        invariant
            i <= count,
            count == data@.len(),
            base + count <= image.len(),
            image@.len() == old(image)@.len(),
            image@ == with_data(old(image)@, base as int, data@.take(i as int)),
        decreases count - i,
    {
        image.set(base + i, data[i]);
        i += 1;
        assert(image@ =~= with_data(old(image)@, base as int, data@.take(i as int)));
    }
    assert(data@.take(count as int) =~= data@);
    *lastdata = LastDataRegion { frame, base, length: count };
    Ok(())
}

/// What an LEDATA record does: it places the data that follows its segment
/// index and its offset.
pub open spec fn ledata_record(
    st: LinkStateView,
    obj: ObjectView,
    image: Seq<u8>,
    payload: Seq<u8>,
    pos: int,
) -> Option<(Seq<u8>, LastDataRegion)> {
    match read_index(payload, pos) {
        Some((segidx, pos1)) => match read_word(payload, pos1) {
            Some((offset, pos2)) => data_placed(
                st,
                obj,
                image,
                segidx,
                offset as usize,
                payload.subrange(pos2, payload.len() as int),
            ),
            None => None,
        },
        None => None,
    }
}

/// Handles an LEDATA record, which contains literal data to be copied into
/// the final executable.
pub fn pass2_ledata(
    rec: &mut Record,
    state: &LinkState,
    obj: &Object,
    image: &mut Vec<u8>,
    lastdata: &mut LastDataRegion,
) -> (r: Result<(), LinkerError>)
    requires
        old(rec).wf(),
    ensures
        final(rec).wf(),
        final(rec).data@ == old(rec).data@,
        final(image)@.len() == old(image)@.len(),
        match r {
            Ok(_) => ledata_record(
                tables(state@),
                obj@,
                old(image)@,
                old(rec).data@,
                old(rec).next as int,
            ) == Some((final(image)@, *final(lastdata))),
            Err(_) => ledata_record(
                tables(state@),
                obj@,
                old(image)@,
                old(rec).data@,
                old(rec).next as int,
            ) is None && final(image)@ == old(image)@ && *final(lastdata) == *old(lastdata),
        },
{
    let segidx = rec.index()?;
    let offset = rec.word()?;
    let data = rec.rest();
    place_data(state, obj, image, lastdata, segidx, offset as usize, data, "LEDATA")
}

/// `bytes`, `n` times over.
pub open spec fn repeated(bytes: Seq<u8>, n: nat) -> Seq<u8>
    decreases n,
{
    if n == 0 {
        Seq::empty()
    } else {
        repeated(bytes, (n - 1) as nat) + bytes
    }
}

/// The bytes that iterated data stands for, and the position after the
/// iterated data.
pub struct Expansion {
    pub bytes: Seq<u8>,
    pub next: int,
}

/// The expansion of the iterated data block at `pos`: a repeat count, a
/// block count and a content, which is a counted byte array where the block
/// count is 0, and that many nested blocks otherwise. The block stands for
/// its content, repeated. The result pairs the expansion with the position
/// after the block.
pub open spec fn lidata_block(payload: Seq<u8>, pos: int) -> Option<Expansion>
    decreases payload.len() - pos, 0nat,
{
    match read_word(payload, pos) {
        Some((repeat, pos1)) => match read_word(payload, pos1) {
            Some((count, pos2)) => {
                let content = if count == 0 {
                    match read_counted_bytes(payload, pos2) {
                        Some((bytes, next)) => Some(Expansion { bytes, next }),
                        None => None,
                    }
                } else {
                    lidata_blocks(payload, pos2, count as nat)
                };
                match content {
                    Some(content) => Some(
                        Expansion {
                            bytes: repeated(content.bytes, repeat as nat),
                            next: content.next,
                        },
                    ),
                    None => None,
                }
            },
            None => None,
        },
        None => None,
    }
}

/// The expansion of `n` iterated data blocks in a row, from `pos` on.
pub open spec fn lidata_blocks(payload: Seq<u8>, pos: int, n: nat) -> Option<Expansion>
    decreases payload.len() - pos, n + 1,
{
    if n == 0 {
        Some(Expansion { bytes: Seq::empty(), next: pos })
    } else {
        match lidata_block(payload, pos) {
            Some(first) => if pos < first.next <= payload.len() {
                match lidata_blocks(payload, first.next, (n - 1) as nat) {
                    Some(rest) => Some(
                        Expansion { bytes: first.bytes + rest.bytes, next: rest.next },
                    ),
                    None => None,
                }
            } else {
                None
            },
            None => None,
        }
    }
}

/// A block ends after the place at which it starts.
proof fn lemma_block_advances(payload: Seq<u8>, pos: int)
    requires
        lidata_block(payload, pos) is Some,
    ensures
        pos + 4 <= lidata_block(payload, pos)->0.next <= payload.len(),
    decreases payload.len() - pos, 0nat,
{
    let pos2 = pos + 4;
    let count = match read_word(payload, pos + 2) {
        Some((count, _)) => count,
        None => 0,
    };
    if count != 0 {
        lemma_blocks_advance(payload, pos2, count as nat);
    }
}

proof fn lemma_blocks_advance(payload: Seq<u8>, pos: int, n: nat)
    requires
        lidata_blocks(payload, pos, n) is Some,
    ensures
        n > 0 ==> pos <= lidata_blocks(payload, pos, n)->0.next <= payload.len(),
        n == 0 ==> lidata_blocks(payload, pos, n)->0.next == pos,
    decreases payload.len() - pos, n + 1,
{
    if n > 0 {
        lemma_block_advances(payload, pos);
        let pos1 = lidata_block(payload, pos)->0.next;
        lemma_blocks_advance(payload, pos1, (n - 1) as nat);
    }
}

/// Appends `bytes` to `v`.
fn append_bytes(v: &mut Vec<u8>, bytes: &[u8])
    ensures
        final(v)@ == old(v)@ + bytes@,
{
    let mut i: usize = 0;
    while i < bytes.len()
        invariant
            i <= bytes@.len(),
            v@ == old(v)@ + bytes@.take(i as int),
        decreases bytes@.len() - i,
    {
        v.push(bytes[i]);
        i += 1;
        assert(v@ =~= old(v)@ + bytes@.take(i as int));
    }
    assert(bytes@.take(i as int) =~= bytes@);
}

/// Expands an LIDATA block (recursively) into the accumulator vector of
/// bytes.
pub fn accum_lidata(rec: &mut Record, accum: &mut Vec<u8>) -> (r: Result<(), LinkerError>)
    requires
        old(rec).wf(),
    ensures
        final(rec).wf(),
        final(rec).data@ == old(rec).data@,
        final(rec).next >= old(rec).next,
        match r {
            Ok(_) => match lidata_block(old(rec).data@, old(rec).next as int) {
                Some(block) => block.next == final(rec).next && final(accum)@ == old(accum)@
                    + block.bytes,
                None => false,
            },
            Err(_) => lidata_block(old(rec).data@, old(rec).next as int) is None,
        },
    decreases old(rec).data@.len() - old(rec).next, 0nat,
{
    // A block is: 2 bytes of repeat count, 2 bytes of block count, and
    // content. If the block count is zero, then the content is a counted
    // byte array. If the block count is non-zero, then the content is that
    // many nested blocks.
    let repeat_count = rec.word()? as usize;
    let block_count = rec.word()? as usize;
    let mut iterbytes: Vec<u8> = Vec::new();
    if block_count == 0 {
        let bytes = rec.counted_bytes()?;
        append_bytes(&mut iterbytes, bytes);
    } else {
        accum_blocks(rec, &mut iterbytes, block_count)?;
    }
    assert(iterbytes@ =~= Seq::<u8>::empty() + iterbytes@);
    let mut n: usize = 0;
    while n < repeat_count
        invariant
            n <= repeat_count,
            accum@ == old(accum)@ + repeated(iterbytes@, n as nat),
        decreases repeat_count - n,
    {
        append_bytes(accum, iterbytes.as_slice());
        n += 1;
        assert(accum@ =~= old(accum)@ + repeated(iterbytes@, n as nat));
    }
    Ok(())
}

/// Expands `n` LIDATA blocks in a row into the accumulator vector of bytes.
fn accum_blocks(rec: &mut Record, accum: &mut Vec<u8>, n: usize) -> (r: Result<(), LinkerError>)
    requires
        old(rec).wf(),
    ensures
        final(rec).wf(),
        final(rec).data@ == old(rec).data@,
        final(rec).next >= old(rec).next,
        match r {
            Ok(_) => match lidata_blocks(old(rec).data@, old(rec).next as int, n as nat) {
                Some(blocks) => blocks.next == final(rec).next && final(accum)@ == old(accum)@
                    + blocks.bytes,
                None => false,
            },
            Err(_) => lidata_blocks(old(rec).data@, old(rec).next as int, n as nat) is None,
        },
    decreases old(rec).data@.len() - old(rec).next, n + 1,
{
    if n == 0 {
        assert(accum@ =~= old(accum)@ + Seq::<u8>::empty());
        return Ok(());
    }
    let ghost start = rec.next as int;
    accum_lidata(rec, accum)?;
    proof {
        lemma_block_advances(rec.data@, start);
    }
    let ghost first = accum@;
    accum_blocks(rec, accum, n - 1)?;
    proof {
        let first = lidata_block(rec.data@, start)->0;
        let rest = lidata_blocks(rec.data@, first.next, (n - 1) as nat)->0;
        assert(accum@ =~= old(accum)@ + (first.bytes + rest.bytes));
    }
    Ok(())
}

/// The expansion of the iterated data blocks from `pos` to the end of the
/// record.
pub open spec fn lidata_blocks_to_end(payload: Seq<u8>, pos: int) -> Option<Seq<u8>>
    decreases payload.len() - pos,
{
    if pos >= payload.len() {
        Some(Seq::empty())
    } else {
        match lidata_block(payload, pos) {
            Some(block) => if pos < block.next <= payload.len() {
                match lidata_blocks_to_end(payload, block.next) {
                    Some(rest) => Some(block.bytes + rest),
                    None => None,
                }
            } else {
                None
            },
            None => None,
        }
    }
}

/// What an LIDATA record does: it places the expansion of the blocks that
/// follow its segment index and its offset.
pub open spec fn lidata_record(
    st: LinkStateView,
    obj: ObjectView,
    image: Seq<u8>,
    payload: Seq<u8>,
    pos: int,
) -> Option<(Seq<u8>, LastDataRegion)> {
    match read_index(payload, pos) {
        Some((segidx, pos1)) => match read_word(payload, pos1) {
            Some((offset, pos2)) => match lidata_blocks_to_end(payload, pos2) {
                Some(data) => if data.len() > usize::MAX {
                    None
                } else {
                    data_placed(st, obj, image, segidx, offset as usize, data)
                },
                None => None,
            },
            None => None,
        },
        None => None,
    }
}

/// Handles expanding and installing iterated data.
pub fn pass2_lidata(
    rec: &mut Record,
    state: &LinkState,
    obj: &Object,
    image: &mut Vec<u8>,
    lastdata: &mut LastDataRegion,
) -> (r: Result<(), LinkerError>)
    requires
        old(rec).wf(),
    ensures
        final(rec).wf(),
        final(rec).data@ == old(rec).data@,
        final(image)@.len() == old(image)@.len(),
        match r {
            Ok(_) => lidata_record(
                tables(state@),
                obj@,
                old(image)@,
                old(rec).data@,
                old(rec).next as int,
            ) == Some((final(image)@, *final(lastdata))),
            Err(_) => lidata_record(
                tables(state@),
                obj@,
                old(image)@,
                old(rec).data@,
                old(rec).next as int,
            ) is None && final(image)@ == old(image)@ && *final(lastdata) == *old(lastdata),
        },
{
    let segidx = rec.index()?;
    let offset = rec.word()? as usize;
    let mut data: Vec<u8> = Vec::new();
    let ghost blocks = rec.next as int;
    assert(data@ + Seq::<u8>::empty() =~= data@);
    while !rec.end()
        invariant
            rec.wf(),
            rec.data@ == old(rec).data@,
            blocks <= rec.next,
            *lastdata == *old(lastdata),
            *image == *old(image),
            read_index(old(rec).data@, old(rec).next as int) == Some((segidx, blocks - 2)),
            read_word(old(rec).data@, blocks - 2) == Some((offset as u16, blocks)),
            match lidata_blocks_to_end(rec.data@, rec.next as int) {
                Some(rest) => lidata_blocks_to_end(rec.data@, blocks) == Some(data@ + rest),
                None => lidata_blocks_to_end(rec.data@, blocks) is None,
            },
        decreases rec.data@.len() - rec.next,
    {
        let ghost before = data@;
        let ghost start = rec.next as int;
        accum_lidata(rec, &mut data)?;
        proof {
            lemma_block_advances(rec.data@, start);
            let bytes = lidata_block(rec.data@, start)->0.bytes;
            match lidata_blocks_to_end(rec.data@, rec.next as int) {
                Some(rest) => {
                    assert(before + (bytes + rest) =~= (before + bytes) + rest);
                },
                None => {},
            }
        }
    }
    assert(data@ + Seq::<u8>::empty() =~= data@);
    place_data(state, obj, image, lastdata, segidx, offset, data.as_slice(), "LIDATA")
}

/// What pass 2 has come to within one object module.
#[verifier::ext_equal]
pub struct Pass2View {
    pub obj: ObjectView,
    pub patched: Patched,
    pub entry: Option<FarPtr>,
    pub lastdata: LastDataRegion,
    pub highwater: usize,
}

/// The end of the data placed last, or the high-water mark where that is
/// higher.
pub open spec fn raised(highwater: usize, lastdata: LastDataRegion) -> usize {
    if lastdata.base + lastdata.length > highwater {
        (lastdata.base + lastdata.length) as usize
    } else {
        highwater
    }
}

/// What one record of type `ty` does in pass 2. The records that pass 1 has
/// dealt with are passed over; record types that have no place in an object
/// module are an error.
#[verifier::opaque]
pub open spec fn pass2_record(ty: RecordType, st: LinkStateView, s: Pass2View, payload: Seq<u8>)
    -> Option<Pass2View> {
    match ty {
        RecordType::THEADR
        | RecordType::EXTDEF
        | RecordType::COMENT
        | RecordType::PUBDEF
        | RecordType::LNAMES
        | RecordType::SEGDEF
        | RecordType::GRPDEF => Some(s),
        RecordType::LEDATA => match ledata_record(st, s.obj, s.patched.image, payload, 0) {
            Some((image, lastdata)) => Some(
                Pass2View { patched: Patched { image, ..s.patched }, lastdata, ..s },
            ),
            None => None,
        },
        RecordType::LIDATA => match lidata_record(st, s.obj, s.patched.image, payload, 0) {
            Some((image, lastdata)) => Some(
                Pass2View { patched: Patched { image, ..s.patched }, lastdata, ..s },
            ),
            None => None,
        },
        RecordType::FIXUPP => match fixupp_record(st, s.obj, s.lastdata, s.patched, payload, 0) {
            Some((obj, patched)) => Some(Pass2View { obj, patched, ..s }),
            None => None,
        },
        RecordType::MODEND => match modend_record(st, s.obj, s.lastdata, s.entry, payload, 0) {
            Some(entry) => Some(Pass2View { entry, ..s }),
            None => None,
        },
        _ => None,
    }
}

/// What the records of a module do in pass 2, from the record at `start` on,
/// up to and including the MODEND record, or to the end of the bytes. After
/// each record the high-water mark is raised to the end of the data placed
/// last.
pub open spec fn pass2_records(st: LinkStateView, s: Pass2View, data: Seq<u8>, start: int)
    -> Option<Pass2View>
    decreases data.len() - start,
{
    if start >= data.len() {
        Some(s)
    } else if start < 0 || !frame_ok(data.skip(start)) {
        None
    } else {
        let ty = RecordType::decode(data[start])->0;
        match pass2_record(ty, st, s, frame_payload(data.skip(start))) {
            Some(s2) => {
                let s3 = Pass2View { highwater: raised(s2.highwater, s2.lastdata), ..s2 };
                if ty == RecordType::MODEND {
                    Some(s3)
                } else {
                    pass2_records(st, s3, data, start + frame_length(data.skip(start)) + 3)
                }
            },
            None => None,
        }
    }
}

/// What one record of type `ty` leaves behind in pass 2, whether the
/// record is taken or rejected. A rejected record leaves everything as it
/// was, but for a FIXUPP record: the subrecords before the one at fault have
/// been applied.
#[verifier::opaque]
pub open spec fn pass2_record_left(
    ty: RecordType,
    st: LinkStateView,
    s: Pass2View,
    payload: Seq<u8>,
) -> Pass2View {
    match ty {
        RecordType::FIXUPP => {
            let (obj, patched) = fixupp_left(st, s.obj, s.lastdata, s.patched, payload, 0);
            Pass2View { obj, patched, ..s }
        },
        _ => match pass2_record(ty, st, s, payload) {
            Some(s2) => s2,
            None => s,
        },
    }
}

/// What the records of a module leave behind in pass 2, from the record at
/// `start` on: what pass 2 has come to after the MODEND record, at the end
/// of the bytes, or after the first record that is broken or rejected.
pub open spec fn pass2_left(st: LinkStateView, s: Pass2View, data: Seq<u8>, start: int)
    -> Pass2View
    decreases data.len() - start,
{
    if start >= data.len() || start < 0 || !frame_ok(data.skip(start)) {
        s
    } else {
        let ty = RecordType::decode(data[start])->0;
        let s2 = pass2_record_left(ty, st, s, frame_payload(data.skip(start)));
        if pass2_record(ty, st, s, frame_payload(data.skip(start))) is Some {
            let s3 = Pass2View { highwater: raised(s2.highwater, s2.lastdata), ..s2 };
            if ty == RecordType::MODEND {
                s3
            } else {
                pass2_left(st, s3, data, start + frame_length(data.skip(start)) + 3)
            }
        } else {
            s2
        }
    }
}

/// What pass 2 has come to, as one value.
pub open spec fn pass2_view(
    state: &LinkState,
    obj: &Object,
    image: &Vec<u8>,
    relocs: &Vec<Relocation>,
    lastdata: LastDataRegion,
    highwater: usize,
) -> Pass2View {
    Pass2View {
        obj: obj@,
        patched: patched(state, image, relocs),
        entry: state@.entry,
        lastdata,
        highwater,
    }
}

/// Handles one record of an object module in pass 2.
fn pass2_dispatch(
    rec: &mut Record,
    state: &mut LinkState,
    obj: &mut Object,
    image: &mut Vec<u8>,
    relocs: &mut Vec<Relocation>,
    lastdata: &mut LastDataRegion,
    Ghost(highwater): Ghost<usize>,
) -> (r: Result<(), LinkerError>)
    requires
        old(rec).wf(),
        old(rec).next == 0,
        old(obj).wf(),
        old(lastdata).base + old(lastdata).length <= old(image).len(),
    ensures
        final(obj)@ == (ObjectView {
            target_threads: final(obj)@.target_threads,
            frame_threads: final(obj)@.frame_threads,
            ..old(obj)@
        }),
        final(obj).wf(),
        final(state).wf() == old(state).wf(),
        tables(final(state)@) == tables(old(state)@),
        final(image)@.len() == old(image)@.len(),
        final(lastdata).base + final(lastdata).length <= final(image).len(),
        !pass2_handles(old(rec).rectype) ==> r is Err && r->Err_0.message() == unhandled_text(
            old(rec).rectype.name_text(),
        ),
        pass2_record_left(
            old(rec).rectype,
            tables(old(state)@),
            pass2_view(old(state), old(obj), old(image), old(relocs), *old(lastdata), highwater),
            old(rec).data@,
        ) == pass2_view(
            final(state),
            final(obj),
            final(image),
            final(relocs),
            *final(lastdata),
            highwater,
        ),
        match r {
            Ok(_) => pass2_record(
                old(rec).rectype,
                tables(old(state)@),
                pass2_view(old(state), old(obj), old(image), old(relocs), *old(lastdata), highwater),
                old(rec).data@,
            ) == Some(
                pass2_view(
                    final(state),
                    final(obj),
                    final(image),
                    final(relocs),
                    *final(lastdata),
                    highwater,
                ),
            ),
            Err(_) => pass2_record(
                old(rec).rectype,
                tables(old(state)@),
                pass2_view(old(state), old(obj), old(image), old(relocs), *old(lastdata), highwater),
                old(rec).data@,
            ) is None,
        },
{
    reveal(pass2_record);
    reveal(pass2_record_left);
    match rec.rectype {
        // Records already processed in pass 1
        RecordType::THEADR
        | RecordType::EXTDEF
        | RecordType::COMENT
        | RecordType::PUBDEF
        | RecordType::LNAMES
        | RecordType::SEGDEF
        | RecordType::GRPDEF => Ok(()),
        // These records are for pass 2.
        RecordType::LEDATA => pass2_ledata(rec, state, obj, image, lastdata),
        RecordType::LIDATA => pass2_lidata(rec, state, obj, image, lastdata),
        RecordType::FIXUPP => pass2_fixupp(rec, state, obj, image, lastdata, relocs),
        RecordType::MODEND => pass2_modend(rec, state, obj, lastdata),
        _ => Err(Message::new("unhandled record ").str(rec.rectype.name()).error()),
    }
}

/// Whether pass 2 has a use for records of type `ty`, or passes them over.
pub open spec fn pass2_handles(ty: RecordType) -> bool {
    pass1_handles(ty) || ty == RecordType::MODEND
}

/// Where pass 2 fails in the records of a module, from the record at
/// `start` on.
pub open spec fn pass2_failure(st: LinkStateView, s: Pass2View, data: Seq<u8>, start: int)
    -> Option<Failure>
    decreases data.len() - start,
{
    if start >= data.len() {
        None
    } else if start < 0 || !frame_ok(data.skip(start)) {
        Some(Failure { at: start, modname: ""@, text: Some(frame_error(data.skip(start))) })
    } else {
        let ty = RecordType::decode(data[start])->0;
        match pass2_record(ty, st, s, frame_payload(data.skip(start))) {
            Some(s2) => if ty == RecordType::MODEND {
                None
            } else {
                pass2_failure(
                    st,
                    Pass2View { highwater: raised(s2.highwater, s2.lastdata), ..s2 },
                    data,
                    start + frame_length(data.skip(start)) + 3,
                )
            },
            None => Some(
                Failure {
                    at: start,
                    modname: ""@,
                    text: if pass2_handles(ty) {
                        None
                    } else {
                        Some(unhandled_text(ty.name_text()))
                    },
                },
            ),
        }
    }
}

/// Handles one pass 2 object file. An error comes back with the name of the
/// module and the offset of the record at which it was met.
pub fn pass2_object(
    state: &mut LinkState,
    data: &[u8],
    obj: &mut Object,
    image: &mut Vec<u8>,
    relocs: &mut Vec<Relocation>,
    highwater: &mut usize,
) -> (r: Result<(), LinkerError>)
    requires
        old(obj).wf(),
    ensures
        final(obj).wf(),
        final(obj)@ == (ObjectView {
            target_threads: final(obj)@.target_threads,
            frame_threads: final(obj)@.frame_threads,
            ..old(obj)@
        }),
        final(state).wf() == old(state).wf(),
        tables(final(state)@) == tables(old(state)@),
        final(image)@.len() == old(image)@.len(),
        *old(highwater) <= old(image)@.len() ==> *final(highwater) <= final(image)@.len(),
        ({
            let left = pass2_left(
                tables(old(state)@),
                pass2_view(
                    old(state),
                    old(obj),
                    old(image),
                    old(relocs),
                    LastDataRegion { frame: 0, base: 0, length: 0 },
                    *old(highwater),
                ),
                data@,
                0,
            );
            left == pass2_view(
                final(state),
                final(obj),
                final(image),
                final(relocs),
                left.lastdata,
                *final(highwater),
            )
        }),
        match r {
            Ok(_) => match pass2_records(
                tables(old(state)@),
                pass2_view(
                    old(state),
                    old(obj),
                    old(image),
                    old(relocs),
                    LastDataRegion { frame: 0, base: 0, length: 0 },
                    *old(highwater),
                ),
                data@,
                0,
            ) {
                Some(s) => s == pass2_view(
                    final(state),
                    final(obj),
                    final(image),
                    final(relocs),
                    s.lastdata,
                    *final(highwater),
                ),
                None => false,
            },
            Err(e) => {
                &&& pass2_records(
                    tables(old(state)@),
                    pass2_view(
                        old(state),
                        old(obj),
                        old(image),
                        old(relocs),
                        LastDataRegion { frame: 0, base: 0, length: 0 },
                        *old(highwater),
                    ),
                    data@,
                    0,
                ) is None
                &&& match pass2_failure(
                    tables(old(state)@),
                    pass2_view(
                        old(state),
                        old(obj),
                        old(image),
                        old(relocs),
                        LastDataRegion { frame: 0, base: 0, length: 0 },
                        *old(highwater),
                    ),
                    data@,
                    0,
                ) {
                    Some(f) => is_located(e.message(), "pass2"@, old(obj)@.name, f),
                    None => false,
                }
            },
        },
{
    let mut start: usize = 0;
    let mut lastdata = LastDataRegion { frame: 0, base: 0, length: 0 };
    let len = data.len();
    while start < len
        invariant
            len == data@.len(),
            obj.wf(),
            obj@ == (ObjectView {
                target_threads: obj@.target_threads,
                frame_threads: obj@.frame_threads,
                ..old(obj)@
            }),
            state.wf() == old(state).wf(),
            tables(state@) == tables(old(state)@),
            image@.len() == old(image)@.len(),
            lastdata.base + lastdata.length <= image.len(),
            *old(highwater) <= old(image)@.len() ==> *highwater <= image@.len(),
            pass2_records(
                tables(old(state)@),
                pass2_view(state, obj, image, relocs, lastdata, *highwater),
                data@,
                start as int,
            ) == pass2_records(
                tables(old(state)@),
                pass2_view(
                    old(state),
                    old(obj),
                    old(image),
                    old(relocs),
                    LastDataRegion { frame: 0, base: 0, length: 0 },
                    *old(highwater),
                ),
                data@,
                0,
            ),
            pass2_failure(
                tables(old(state)@),
                pass2_view(state, obj, image, relocs, lastdata, *highwater),
                data@,
                start as int,
            ) == pass2_failure(
                tables(old(state)@),
                pass2_view(
                    old(state),
                    old(obj),
                    old(image),
                    old(relocs),
                    LastDataRegion { frame: 0, base: 0, length: 0 },
                    *old(highwater),
                ),
                data@,
                0,
            ),
            pass2_left(
                tables(old(state)@),
                pass2_view(state, obj, image, relocs, lastdata, *highwater),
                data@,
                start as int,
            ) == pass2_left(
                tables(old(state)@),
                pass2_view(
                    old(state),
                    old(obj),
                    old(image),
                    old(relocs),
                    LastDataRegion { frame: 0, base: 0, length: 0 },
                    *old(highwater),
                ),
                data@,
                0,
            ),
        decreases len - start,
    {
        let ghost before = pass2_view(state, obj, image, relocs, lastdata, *highwater);
        let mut rec = match Record::new(slice_subrange(data, start, len)) {
            Ok(rec) => rec,
            Err(err) => {
                let e = LinkerError::located("pass2", obj.name.as_str(), "", start, &err);
                proof {
                    let f = pass2_failure(tables(old(state)@), before, data@, start as int)->0;
                    assert(f.at == start && f.modname == ""@);
                    assert(e.message() == located_text(
                        "pass2"@,
                        old(obj)@.name,
                        f.modname,
                        f.at as nat,
                        err.message(),
                    ));
                }
                return Err(e);
            },
        };
        let reclen = rec.total_length();
        let modend = rec.rectype == RecordType::MODEND;
        let result = pass2_dispatch(
            &mut rec,
            state,
            obj,
            image,
            relocs,
            &mut lastdata,
            Ghost(*highwater),
        );
        match result {
            Err(err) => {
                let e = LinkerError::located("pass2", obj.name.as_str(), "", start, &err);
                proof {
                    let f = pass2_failure(tables(old(state)@), before, data@, start as int)->0;
                    assert(f.at == start && f.modname == ""@);
                    assert(e.message() == located_text(
                        "pass2"@,
                        old(obj)@.name,
                        f.modname,
                        f.at as nat,
                        err.message(),
                    ));
                }
                return Err(e);
            },
            Ok(_) => {},
        };
        if lastdata.base + lastdata.length > *highwater {
            *highwater = lastdata.base + lastdata.length;
        }
        if modend {
            return Ok(());
        }
        start += reclen;
    }
    Ok(())
}

/// The size of the image: it ends where the segment placed last ends.
pub open spec fn image_size(st: LinkStateView) -> Option<usize> {
    if st.segment_order.len() == 0 {
        Some(0usize)
    } else if !(0 < st.segment_order.last() <= st.segments.len()) {
        None
    } else if st.segments[st.segment_order.last() - 1].base + st.segments[st.segment_order.last()
        - 1].length > usize::MAX {
        None
    } else {
        Some(
            (st.segments[st.segment_order.last() - 1].base + st.segments[st.segment_order.last()
                - 1].length) as usize,
        )
    }
}

/// What pass 2 has come to over the object modules.
#[verifier::ext_equal]
pub struct Pass2Totals {
    pub objects: Seq<ObjectView>,
    pub patched: Patched,
    pub entry: Option<FarPtr>,
    pub highwater: usize,
}

/// What taking the objects from `objects[k]` on through pass 2 does.
pub open spec fn objects_patched(
    st: LinkStateView,
    objects: Seq<ObjectView>,
    k: int,
    t: Pass2Totals,
) -> Option<Pass2Totals>
    decreases objects.len() - k,
{
    if k < 0 || k >= objects.len() {
        Some(t)
    } else {
        match objects[k].data {
            Some(data) => match pass2_records(
                st,
                Pass2View {
                    obj: ObjectView { data: None, ..objects[k] },
                    patched: t.patched,
                    entry: t.entry,
                    lastdata: LastDataRegion { frame: 0, base: 0, length: 0 },
                    highwater: t.highwater,
                },
                data,
                0,
            ) {
                Some(s) => objects_patched(
                    st,
                    objects,
                    k + 1,
                    Pass2Totals {
                        objects: t.objects.push(ObjectView { data: Some(data), ..s.obj }),
                        patched: s.patched,
                        entry: s.entry,
                        highwater: s.highwater,
                    },
                ),
                None => None,
            },
            None => None,
        }
    }
}

/// What taking the objects from `objects[k]` on through pass 2 leaves
/// behind, whether it succeeds or fails. An object that fails is left
/// without its data and with the fixup threads as its records had set them
/// by then; the objects after it are left alone.
pub open spec fn objects_left(
    st: LinkStateView,
    objects: Seq<ObjectView>,
    k: int,
    t: Pass2Totals,
) -> Pass2Totals
    decreases objects.len() - k,
{
    if k < 0 || k >= objects.len() {
        t
    } else {
        match objects[k].data {
            Some(data) => {
                let start = Pass2View {
                    obj: ObjectView { data: None, ..objects[k] },
                    patched: t.patched,
                    entry: t.entry,
                    lastdata: LastDataRegion { frame: 0, base: 0, length: 0 },
                    highwater: t.highwater,
                };
                match pass2_records(st, start, data, 0) {
                    Some(s) => objects_left(
                        st,
                        objects,
                        k + 1,
                        Pass2Totals {
                            objects: t.objects.push(ObjectView { data: Some(data), ..s.obj }),
                            patched: s.patched,
                            entry: s.entry,
                            highwater: s.highwater,
                        },
                    ),
                    None => {
                        let left = pass2_left(st, start, data, 0);
                        Pass2Totals {
                            objects: t.objects.push(left.obj) + objects.skip(k + 1),
                            patched: left.patched,
                            entry: left.entry,
                            highwater: left.highwater,
                        }
                    },
                }
            },
            None => Pass2Totals { objects: t.objects + objects.skip(k), ..t },
        }
    }
}

/// The names table once the name, the class and the overlay of the stack
/// segment are interned in it, and the name of the stack segment:
/// `_STACK.STACK.`.
pub open spec fn stack_name(lnames: Seq<Seq<char>>) -> (Seq<Seq<char>>, SegName) {
    let name = intern(lnames, "_STACK"@);
    let class = intern(name.0, "STACK"@);
    let overlay = intern(class.0, ""@);
    (overlay.0, SegName { nameidx: name.1, classidx: class.1, ovlyidx: overlay.1 })
}

/// The initial stack pointer for a stack segment: its frame, and the end of
/// the segment as an offset in that frame, or 0xfffe where that is less.
pub open spec fn stack_pointer(base: usize, length: usize) -> FarPtr {
    FarPtr {
        seg: frame_of(base as int),
        offset: if length + base % 16 > 0xfffe {
            0xfffeu16
        } else {
            (length + base % 16) as u16
        },
    }
}

/// The outcome of pass 2: the link state, the objects and the executable.
pub struct Outcome {
    pub state: LinkStateView,
    pub objects: Seq<ObjectView>,
    pub exe: DosExeView,
}

/// The link state once the objects are through pass 2 and the executable
/// is put together, whether the executable can be had or not: the names of
/// the stack segment are in the names table, and there is a warning for a
/// missing stack segment and one for a missing entry point.
pub open spec fn assembled_state(st: LinkStateView, t: Pass2Totals) -> LinkStateView {
    let named = stack_name(st.lnames);
    let stack = crate::seq_search::first_index(
        st.segments,
        |s: crate::segment::Segment| s.name == named.1,
    );
    let no_stack = if stack != 0 {
        t.patched.warnings
    } else {
        t.patched.warnings.push(Warning::NoStack)
    };
    let warnings = if t.entry is Some {
        no_stack
    } else {
        no_stack.push(Warning::NoEntryPoint)
    };
    LinkStateView { lnames: named.0, warnings, entry: t.entry, ..st }
}

/// The executable that is made of the image once all objects are through
/// pass 2: the image up to the high-water mark, with a minimum allocation
/// that makes up for what was cut off, the relocations, the stack pointer
/// and the entry point, which must lie in what is left of the image.
/// Without a stack segment or an entry point there is a warning.
pub open spec fn assembled(st: LinkStateView, t: Pass2Totals) -> Option<Outcome> {
    let named = stack_name(st.lnames);
    let stack = crate::seq_search::first_index(
        st.segments,
        |s: crate::segment::Segment| s.name == named.1,
    );
    let data = t.patched.image.take(t.highwater as int);
    let exe = DosExeView {
        relocs: t.patched.relocs,
        min_alloc: (((t.patched.image.len() - t.highwater + 15) / 16) % 0x10000) as u16,
        max_alloc: 0xffff,
        entry_point: match t.entry {
            Some(entry) => entry,
            None => FarPtr { seg: 0, offset: 0 },
        },
        init_stack: if stack != 0 {
            stack_pointer(st.segments[stack - 1].base, st.segments[stack - 1].length)
        } else {
            FarPtr { seg: 0, offset: 0 }
        },
        data,
    };
    if t.highwater > t.patched.image.len() {
        None
    } else if t.entry is Some && !exe.in_range(t.entry->0, 1) {
        None
    } else if !exe.encodable() {
        None
    } else {
        Some(Outcome { state: assembled_state(st, t), objects: t.objects, exe })
    }
}

/// What pass 2 starts from: an image of `size` zeros, no relocations, and
/// the warnings and the entry point that the link state has.
pub open spec fn fresh_totals(st: LinkStateView, size: usize) -> Pass2Totals {
    Pass2Totals {
        objects: Seq::empty(),
        patched: Patched {
            image: Seq::new(size as nat, |i: int| 0u8),
            relocs: Seq::empty(),
            warnings: st.warnings,
        },
        entry: st.entry,
        highwater: 0,
    }
}

/// What pass 2 leaves behind of the link state and the objects, whether it
/// succeeds or fails. Where the size of the image cannot be had, nothing
/// has changed; where an object fails, what the objects have done by then;
/// else the link state as it is once the executable is put together.
pub open spec fn pass2_leaves(st: LinkStateView, objects: Seq<ObjectView>) -> (
    LinkStateView,
    Seq<ObjectView>,
) {
    match image_size(st) {
        Some(size) => {
            let t = objects_left(tables(st), objects, 0, fresh_totals(st, size));
            if objects_patched(tables(st), objects, 0, fresh_totals(st, size)) is Some {
                (assembled_state(st, t), t.objects)
            } else {
                (LinkStateView { warnings: t.patched.warnings, entry: t.entry, ..st }, t.objects)
            }
        },
        None => (st, objects),
    }
}

/// What pass 2 does: an image of zeros takes the data of the objects in,
/// the fixups are applied to it, and the executable is made of it.
pub open spec fn pass2_outcome(st: LinkStateView, objects: Seq<ObjectView>) -> Option<Outcome> {
    match image_size(st) {
        Some(size) => match objects_patched(tables(st), objects, 0, fresh_totals(st, size)) {
            Some(t) => assembled(st, t),
            None => None,
        },
        None => None,
    }
}

/// The size of the image.
fn pass2_image_size(state: &LinkState) -> (r: Result<usize, LinkerError>)
    ensures
        match r {
            Ok(size) => image_size(state@) == Some(size),
            Err(_) => image_size(state@) is None,
        },
{
    let count = state.segment_order.len();
    if count == 0 {
        return Ok(0);
    }
    let last = state.segment_order[count - 1];
    if !state.segments.is_valid_index(last) {
        return Err(LinkerError::new("the segment placed last does not exist"));
    }
    let lastseg = state.segments.get(last);
    match lastseg.base.checked_add(lastseg.length) {
        Some(size) => Ok(size),
        None => Err(LinkerError::new("the image does not fit into the address space")),
    }
}

/// Takes all objects through pass 2.
fn pass2_objects(
    state: &mut LinkState,
    objects: &mut Vec<Object>,
    image: &mut Vec<u8>,
    relocs: &mut Vec<Relocation>,
    highwater: &mut usize,
) -> (r: Result<(), LinkerError>)
    requires
        forall|i: int| 0 <= i < old(objects)@.len() ==> (#[trigger] old(objects)@[i]).wf(),
        *old(highwater) <= old(image)@.len(),
    ensures
        final(state).wf() == old(state).wf(),
        tables(final(state)@) == tables(old(state)@),
        final(image)@.len() == old(image)@.len(),
        *final(highwater) <= final(image)@.len(),
        forall|i: int| 0 <= i < final(objects)@.len() ==> (#[trigger] final(objects)@[i]).wf(),
        objects_left(
            tables(old(state)@),
            object_views(old(objects)@),
            0,
            Pass2Totals {
                objects: Seq::empty(),
                patched: patched(old(state), old(image), old(relocs)),
                entry: old(state)@.entry,
                highwater: *old(highwater),
            },
        ) == (Pass2Totals {
            objects: object_views(final(objects)@),
            patched: patched(final(state), final(image), final(relocs)),
            entry: final(state)@.entry,
            highwater: *final(highwater),
        }),
        match r {
            Ok(_) => objects_patched(
                tables(old(state)@),
                object_views(old(objects)@),
                0,
                Pass2Totals {
                    objects: Seq::empty(),
                    patched: patched(old(state), old(image), old(relocs)),
                    entry: old(state)@.entry,
                    highwater: *old(highwater),
                },
            ) == Some(
                Pass2Totals {
                    objects: object_views(final(objects)@),
                    patched: patched(final(state), final(image), final(relocs)),
                    entry: final(state)@.entry,
                    highwater: *final(highwater),
                },
            ),
            Err(_) => objects_patched(
                tables(old(state)@),
                object_views(old(objects)@),
                0,
                Pass2Totals {
                    objects: Seq::empty(),
                    patched: patched(old(state), old(image), old(relocs)),
                    entry: old(state)@.entry,
                    highwater: *old(highwater),
                },
            ) is None,
        },
{
    let count = objects.len();
    let mut k: usize = 0;
    assert(object_views(objects@).take(0) =~= Seq::<ObjectView>::empty());
    while k < count
        invariant
            k <= count,
            count == objects@.len(),
            objects@.len() == old(objects)@.len(),
            forall|i: int| 0 <= i < objects@.len() ==> (#[trigger] objects@[i]).wf(),
            forall|i: int| k <= i < count ==> #[trigger] objects@[i] == old(objects)@[i],
            state.wf() == old(state).wf(),
            tables(state@) == tables(old(state)@),
            image@.len() == old(image)@.len(),
            *highwater <= image@.len(),
            objects_patched(
                tables(old(state)@),
                object_views(old(objects)@),
                k as int,
                Pass2Totals {
                    objects: object_views(objects@).take(k as int),
                    patched: patched(state, image, relocs),
                    entry: state@.entry,
                    highwater: *highwater,
                },
            ) == objects_patched(
                tables(old(state)@),
                object_views(old(objects)@),
                0,
                Pass2Totals {
                    objects: Seq::empty(),
                    patched: patched(old(state), old(image), old(relocs)),
                    entry: old(state)@.entry,
                    highwater: *old(highwater),
                },
            ),
            objects_left(
                tables(old(state)@),
                object_views(old(objects)@),
                k as int,
                Pass2Totals {
                    objects: object_views(objects@).take(k as int),
                    patched: patched(state, image, relocs),
                    entry: state@.entry,
                    highwater: *highwater,
                },
            ) == objects_left(
                tables(old(state)@),
                object_views(old(objects)@),
                0,
                Pass2Totals {
                    objects: Seq::empty(),
                    patched: patched(old(state), old(image), old(relocs)),
                    entry: old(state)@.entry,
                    highwater: *old(highwater),
                },
            ),
        decreases count - k,
    {
        let ghost before = objects@;
        let ghost done = object_views(objects@).take(k as int);
        let ghost view = objects@[k as int]@;
        let ghost rest = object_views(old(objects)@).skip(k + 1);
        assert(object_views(old(objects)@)[k as int] == view);
        let obj = &mut objects[k];
        let data = match obj.data.take() {
            Some(data) => data,
            None => {
                proof {
                    assert(object_views(objects@) =~= done + object_views(old(objects)@).skip(
                        k as int,
                    )) by {
                        assert forall|i: int| 0 <= i < count implies object_views(objects@)[i] == (
                        done + object_views(old(objects)@).skip(k as int))[i] by {
                            if i < k {
                                assert(objects@[i] == before[i]);
                            } else if i == k {
                                assert(objects@[i]@ =~= view);
                            } else {
                                assert(objects@[i] == old(objects)@[i]);
                            }
                        }
                    }
                }
                return Err(LinkerError::new("an object has no data"));
            },
        };
        assert(obj@ == (ObjectView { data: None, ..view }));
        match pass2_object(state, data.as_slice(), obj, image, relocs, highwater) {
            Ok(_) => {},
            Err(err) => {
                proof {
                    assert(object_views(objects@) =~= done.push(objects@[k as int]@) + rest) by {
                        assert forall|i: int| 0 <= i < count implies object_views(objects@)[i] == (
                        done.push(objects@[k as int]@) + rest)[i] by {
                            if i < k {
                                assert(objects@[i] == before[i]);
                            } else if i > k {
                                assert(objects@[i] == old(objects)@[i]);
                            }
                        }
                    }
                }
                return Err(err);
            },
        }
        let ghost patched_obj = obj@;
        obj.data = Some(data);
        assert(obj@ == (ObjectView { data: Some(data@), ..patched_obj }));
        k += 1;
        proof {
            assert(object_views(objects@).take(k as int) =~= done.push(objects@[k - 1]@)) by {
                assert forall|i: int| 0 <= i < k - 1 implies object_views(objects@)[i]
                    == done[i] by {
                    assert(objects@[i] == before[i]);
                }
            }
        }
    }
    assert(object_views(objects@).take(k as int) =~= object_views(objects@));
    Ok(())
}

/// Executes pass 2: processes all LEDATA, LIDATA and FIXUPP records, and
/// builds the final executable, whose bytes it returns.
pub fn pass2(state: &mut LinkState, objects: &mut Vec<Object>) -> (r: Result<Vec<u8>, LinkerError>)
    requires
        objects_wf(old(objects)@),
    ensures
        final(state).wf() == old(state).wf(),
        objects_wf(final(objects)@),
        match r {
            Ok(file) => match pass2_outcome(old(state)@, object_views(old(objects)@)) {
                Some(out) => {
                    &&& file@ == out.exe.file()
                    &&& final(state)@ == out.state
                    &&& object_views(final(objects)@) == out.objects
                },
                None => false,
            },
            Err(_) => pass2_outcome(old(state)@, object_views(old(objects)@)) is None,
        },
        (final(state)@, object_views(final(objects)@)) == pass2_leaves(
            old(state)@,
            object_views(old(objects)@),
        ),
{
    // Allocate the memory image.
    let memsize = pass2_image_size(state)?;
    let mut image: Vec<u8> = Vec::new();
    let mut n: usize = 0;
    while n < memsize
        invariant
            n <= memsize,
            image@.len() == n,
            forall|i: int| 0 <= i < n ==> image@[i] == 0,
        decreases memsize - n,
    {
        image.push(0u8);
        n += 1;
    }
    assert(image@ =~= Seq::new(memsize as nat, |i: int| 0u8));
    let mut highwater: usize = 0;
    let mut relocs: Vec<Relocation> = Vec::new();
    // Execute pass 2 on all object files.
    pass2_objects(state, objects, &mut image, &mut relocs, &mut highwater)?;
    let ghost totals = Pass2Totals {
        objects: object_views(objects@),
        patched: patched(state, &image, &relocs),
        entry: state@.entry,
        highwater,
    };
    // Trim the image of trailing, uninitialized data, and set the EXE
    // header minalloc to require that much extra memory.
    let minalloc = (((image.len() - highwater) / 16 + if (image.len() - highwater) % 16 != 0 {
        1
    } else {
        0
    }) % 0x10000) as u16;
    let mut exe = DosExe::new(slice_subrange(image.as_slice(), 0, highwater));
    exe.set_min_alloc(minalloc);
    let mut i: usize = 0;
    while i < relocs.len()
        invariant
            i <= relocs@.len(),
            exe@ == (DosExeView {
                relocs: relocs@.take(i as int),
                min_alloc: minalloc,
                max_alloc: 0xffff,
                entry_point: FarPtr { seg: 0, offset: 0 },
                init_stack: FarPtr { seg: 0, offset: 0 },
                data: image@.take(highwater as int),
            }),
        decreases relocs@.len() - i,
    {
        exe.add_relocation(relocs[i]);
        i += 1;
        assert(relocs@.take(i as int) =~= relocs@.take(i - 1).push(relocs@[i - 1]));
    }
    assert(relocs@.take(i as int) =~= relocs@);
    // Figure out the stack, if any.
    let ghost st = state@;
    let ghost segments = state.segments@;
    assert(state.wf() == old(state).wf());
    let nameidx = state.lnames.find_or_add("_STACK");
    let classidx = state.lnames.find_or_add("STACK");
    let ovlyidx = state.lnames.find_or_add("");
    let name = SegName { nameidx, classidx, ovlyidx };
    assert(stack_name(st.lnames) == (state@.lnames, name));
    match state.get_segment_named(&name) {
        Some(seg) => {
            proof {
                crate::seq_search::lemma_first_index(
                    st.segments,
                    |s: crate::segment::Segment| s.name == name,
                );
            }
            let segment = state.segments.get(seg);
            let frame = frame_number(segment.base);
            let offset = match segment.length.checked_add(segment.base % 16) {
                Some(end) => if end > 0xfffe {
                    0xfffe
                } else {
                    end as u16
                },
                None => 0xfffe,
            };
            exe.set_stack(frame, offset);
        },
        None => {
            state.warnings.push(Warning::NoStack);
        },
    }
    match state.entry {
        Some(entry) => {
            exe.set_entry_point(&entry)?;
        },
        None => {
            state.warnings.push(Warning::NoEntryPoint);
        },
    }
    assert(state.segments@ == segments);
    let file = exe.encode()?;
    proof {
        assert(assembled(old(state)@, totals) is Some);
        assert(state@ == assembled(old(state)@, totals)->0.state);
    }
    Ok(file)
}

} // verus!
