//! The addresses that the link map reports: where the segments start and
//! stop, and where the parts of the modules and the public symbols lie, each
//! as a frame and an offset in it.

use crate::linkstate::{LinkState, LinkStateView};
use crate::segment::{SegDef, Segment};
use crate::symbols::PublicSymbol;
use vstd::prelude::*;

verus! {

/// An address as the link map shows it: a frame and an offset in it.
#[derive(Clone, Copy, Debug, PartialEq, Eq, Structural)]
pub struct MapAddress {
    pub frame: usize,
    pub offset: usize,
}

/// The last address of a segment, or its first where it is empty.
pub open spec fn stop_of(seg: Segment) -> int {
    if seg.length == 0 {
        seg.base as int
    } else {
        seg.base + seg.length - 1
    }
}

/// The address `linear` as seen from `base`: in the frame of `base`, at the
/// distance from `base`, plus what `base` is above the start of its frame.
/// There is none for an address below `base`, nor for one that the machine
/// cannot hold.
pub open spec fn address_from(base: usize, linear: int) -> Option<MapAddress> {
    if linear < base || linear > usize::MAX || base % 16 + (linear - base) > usize::MAX {
        None
    } else {
        Some(MapAddress { frame: base / 16, offset: (base % 16 + (linear - base)) as usize })
    }
}

/// The address from which the contents of the segment at `segidx` are seen:
/// that of its group, where it has one, else its own.
pub open spec fn view_base(st: LinkStateView, segidx: int) -> Option<usize> {
    if !(0 < segidx <= st.segments.len()) {
        None
    } else if st.segments[segidx - 1].group == 0 {
        Some(st.segments[segidx - 1].base)
    } else if st.segments[segidx - 1].group > st.groups.len() {
        None
    } else {
        Some(st.groups[st.segments[segidx - 1].group - 1].base)
    }
}

/// The address of the part that `segdef` describes.
pub open spec fn segdef_address(st: LinkStateView, segdef: SegDef) -> Option<MapAddress> {
    match view_base(st, segdef.segidx as int) {
        Some(base) => address_from(base, st.segments[segdef.segidx - 1].base + segdef.base),
        None => None,
    }
}

/// The address of a public symbol: that which it names itself where it is
/// absolute; else its place in its segment, as seen from its group, where
/// it has one, and else from its segment.
pub open spec fn public_address(st: LinkStateView, public: PublicSymbol) -> Option<MapAddress> {
    if public.segment == 0 {
        Some(MapAddress { frame: public.frame as usize, offset: public.offset as usize })
    } else if public.segment > st.segments.len() {
        None
    } else if public.group == 0 {
        address_from(
            st.segments[public.segment - 1].base,
            st.segments[public.segment - 1].base + public.offset,
        )
    } else if public.group > st.groups.len() {
        None
    } else {
        address_from(
            st.groups[public.group - 1].base,
            st.segments[public.segment - 1].base + public.offset,
        )
    }
}

/// The last address of a segment, for the map.
pub fn segment_stop(seg: &Segment) -> (r: Option<usize>)
    ensures
        match r {
            Some(stop) => stop == stop_of(*seg),
            None => stop_of(*seg) > usize::MAX,
        },
{
    if seg.length == 0 {
        Some(seg.base)
    } else {
        seg.base.checked_add(seg.length - 1)
    }
}

fn address_of(base: usize, start: usize, offset: usize) -> (r: Option<MapAddress>)
    ensures
        r == address_from(base, start + offset),
{
    let linear = match start.checked_add(offset) {
        Some(linear) => linear,
        None => {
            return None;
        },
    };
    if linear < base {
        return None;
    }
    match (base % 16).checked_add(linear - base) {
        Some(offset) => Some(MapAddress { frame: base / 16, offset }),
        None => None,
    }
}

/// The base from which the map sees the segment at `segidx`.
fn base_of_view(state: &LinkState, segidx: usize) -> (r: Option<usize>)
    ensures
        r == view_base(state@, segidx as int),
{
    if !state.segments.is_valid_index(segidx) {
        return None;
    }
    let seg = state.segments.get(segidx);
    if seg.group == 0 {
        Some(seg.base)
    } else if !state.groups.is_valid_index(seg.group) {
        None
    } else {
        Some(state.groups.get(seg.group).base)
    }
}

/// Where the map shows the part of a module that `segdef` describes.
pub fn map_segdef(state: &LinkState, segdef: &SegDef) -> (r: Option<MapAddress>)
    ensures
        r == segdef_address(state@, *segdef),
{
    match base_of_view(state, segdef.segidx) {
        Some(base) => address_of(base, state.segments.get(segdef.segidx).base, segdef.base),
        None => None,
    }
}

/// Where the map shows a public symbol.
pub fn map_public(state: &LinkState, public: &PublicSymbol) -> (r: Option<MapAddress>)
    ensures
        r == public_address(state@, *public),
{
    if public.segment == 0 {
        Some(MapAddress { frame: public.frame as usize, offset: public.offset as usize })
    } else if !state.segments.is_valid_index(public.segment) {
        None
    } else {
        let start = state.segments.get(public.segment).base;
        if public.group == 0 {
            address_of(start, start, public.offset as usize)
        } else if !state.groups.is_valid_index(public.group) {
            None
        } else {
            address_of(state.groups.get(public.group).base, start, public.offset as usize)
        }
    }
}

/// The linear address that the map sorts an address by.
pub fn map_linear(address: &MapAddress) -> (r: Option<usize>)
    ensures
        match r {
            Some(linear) => linear == address.frame * 16 + address.offset,
            None => address.frame * 16 + address.offset > usize::MAX,
        },
{
    match address.frame.checked_mul(16) {
        Some(start) => start.checked_add(address.offset),
        None => None,
    }
}

} // verus!
