//! Pass 1: what the records of an object module say about names, segments,
//! groups and symbols is collected in the link state; the modules that
//! resolve the undefined symbols are pulled from the libraries; and the
//! segments are laid out in memory.

use crate::group::{Group, GroupView};
use crate::index_map::IndexMap;
use crate::linker_error::{located_text, number_text, LinkerError, Message};
use crate::linkstate::{LinkState, LinkStateView, Warning};
use crate::library::Library;
use crate::lnames::LNames;
use crate::memory_map::{is_placement, mappable, memory_mapped, pass1_build_memory_map};
use crate::object::{Object, ObjectView};
use crate::resolve::{
    library_modules_added, library_modules_left, object_views, objects_wf,
    pass1_add_library_modules,
};
use crate::record::{
    frame_error, frame_length, frame_ok, frame_payload, read_byte, read_comdef_length,
    read_counted_string, read_index, read_word, unhandled_text, Record, RecordType,
};
use crate::segment::{Align, Combine, SegDef, SegName, Segment};
use crate::symbols::{undefined_names, with_symbol, PublicSymbol, Symbol, Symbols};
use vstd::prelude::*;
use vstd::slice::*;
use vstd::string::*;

verus! {

/// The names that an EXTDEF record lists from `pos` on: each entry is a
/// counted string followed by a type index.
pub open spec fn extdef_names(payload: Seq<u8>, pos: int) -> Option<Seq<Seq<char>>>
    decreases payload.len() - pos,
{
    if pos >= payload.len() {
        Some(Seq::empty())
    } else {
        match read_counted_string(payload, pos) {
            Some((name, pos1)) => match read_index(payload, pos1) {
                Some((_, pos2)) => match extdef_names(payload, pos2) {
                    Some(rest) => Some(seq![name] + rest),
                    None => None,
                },
                None => None,
            },
            None => None,
        }
    }
}

/// The data type byte of a far communal variable.
pub const FAR_DATA: u8 = 0x61;

/// The data type byte of a near communal variable.
pub const NEAR_DATA: u8 = 0x62;

/// The position after the lengths that follow the data type byte of a COMDEF
/// entry: one length for a near variable, two for a far one, none otherwise.
pub open spec fn skip_comdef_lengths(payload: Seq<u8>, datatype: u8, pos: int) -> Option<int> {
    if datatype == NEAR_DATA {
        match read_comdef_length(payload, pos) {
            Some((_, p)) => Some(p),
            None => None,
        }
    } else if datatype == FAR_DATA {
        match read_comdef_length(payload, pos) {
            Some((_, p)) => match read_comdef_length(payload, p) {
                Some((_, q)) => Some(q),
                None => None,
            },
            None => None,
        }
    } else {
        Some(pos)
    }
}

/// The names that a COMDEF record lists from `pos` on: each entry is a
/// counted string, a type index, a data type byte and the lengths that the
/// data type calls for.
pub open spec fn comdef_names(payload: Seq<u8>, pos: int) -> Option<Seq<Seq<char>>>
    decreases payload.len() - pos,
{
    if pos >= payload.len() {
        Some(Seq::empty())
    } else {
        match read_counted_string(payload, pos) {
            Some((name, pos1)) => match read_index(payload, pos1) {
                Some((_, pos2)) => match read_byte(payload, pos2) {
                    Some((datatype, pos3)) => match skip_comdef_lengths(payload, datatype, pos3) {
                        Some(pos4) => match comdef_names(payload, pos4) {
                            Some(rest) => Some(seq![name] + rest),
                            None => None,
                        },
                        None => None,
                    },
                    None => None,
                },
                None => None,
            },
            None => None,
        }
    }
}

/// The names that the records of a module refer to from outside, from the
/// record at `start` on: those of its EXTDEF and COMDEF records, in order.
pub open spec fn object_externs(data: Seq<u8>, start: int) -> Option<Seq<Seq<char>>>
    decreases data.len() - start,
{
    if start >= data.len() {
        Some(Seq::empty())
    } else if start < 0 || !frame_ok(data.skip(start)) {
        None
    } else {
        let payload = frame_payload(data.skip(start));
        let ty = RecordType::decode(data[start])->0;
        let names = if ty == RecordType::EXTDEF {
            extdef_names(payload, 0)
        } else if ty == RecordType::COMDEF {
            comdef_names(payload, 0)
        } else {
            Some(Seq::empty())
        };
        match names {
            Some(names) => match object_externs(data, start + frame_length(data.skip(start)) + 3) {
                Some(rest) => Some(names + rest),
                None => None,
            },
            None => None,
        }
    }
}

/// The texts that `v` holds.
pub open spec fn texts(v: Seq<String>) -> Seq<Seq<char>> {
    Seq::new(v.len(), |i: int| v[i]@)
}

/// Parses an EXTDEF record, returning just the names.
pub fn pass1_extdef_names(rec: &mut Record) -> (r: Result<Vec<String>, LinkerError>)
    requires
        old(rec).wf(),
    ensures
        final(rec).wf(),
        final(rec).data@ == old(rec).data@,
        match r {
            Ok(names) => extdef_names(old(rec).data@, old(rec).next as int) == Some(texts(names@)),
            Err(_) => extdef_names(old(rec).data@, old(rec).next as int) is None,
        },
{
    let mut names: Vec<String> = Vec::new();
    let ghost payload = rec.data@;
    let ghost start = rec.next as int;
    while !rec.end()
        invariant
            rec.wf(),
            rec.data@ == payload,
            payload == old(rec).data@,
            start == old(rec).next,
            start <= rec.next,
            match extdef_names(payload, rec.next as int) {
                Some(rest) => extdef_names(payload, start) == Some(texts(names@) + rest),
                None => extdef_names(payload, start) is None,
            },
        decreases payload.len() - rec.next,
    {
        let ghost before = texts(names@);
        let ghost rest = extdef_names(payload, rec.next as int);
        let name = rec.counted_string()?;
        // there is an unused type index after every name.
        rec.index()?;
        names.push(name);
        proof {
            assert(texts(names@) =~= before.push(name@));
            match extdef_names(payload, rec.next as int) {
                Some(tail) => {
                    assert(before + (seq![name@] + tail) =~= before.push(name@) + tail);
                },
                None => {},
            }
        }
    }
    proof {
        assert(texts(names@) + Seq::<Seq<char>>::empty() =~= texts(names@));
    }
    Ok(names)
}

/// Parses a COMDEF record, returning just the names.
pub fn pass1_comdef_names(rec: &mut Record) -> (r: Result<Vec<String>, LinkerError>)
    requires
        old(rec).wf(),
    ensures
        final(rec).wf(),
        final(rec).data@ == old(rec).data@,
        match r {
            Ok(names) => comdef_names(old(rec).data@, old(rec).next as int) == Some(texts(names@)),
            Err(_) => comdef_names(old(rec).data@, old(rec).next as int) is None,
        },
{
    let mut names: Vec<String> = Vec::new();
    let ghost payload = rec.data@;
    let ghost start = rec.next as int;
    while !rec.end()
        invariant
            rec.wf(),
            rec.data@ == payload,
            payload == old(rec).data@,
            start == old(rec).next,
            start <= rec.next,
            match comdef_names(payload, rec.next as int) {
                Some(rest) => comdef_names(payload, start) == Some(texts(names@) + rest),
                None => comdef_names(payload, start) is None,
            },
        decreases payload.len() - rec.next,
    {
        let ghost before = texts(names@);
        let name = rec.counted_string()?;
        // unused type index
        rec.index()?;
        let datatype = rec.byte()?;
        // consume the encoded lengths as needed
        if datatype == NEAR_DATA {
            rec.comdef_length()?;
        } else if datatype == FAR_DATA {
            rec.comdef_length()?;
            rec.comdef_length()?;
        }
        names.push(name);
        proof {
            assert(texts(names@) =~= before.push(name@));
            match comdef_names(payload, rec.next as int) {
                Some(tail) => {
                    assert(before + (seq![name@] + tail) =~= before.push(name@) + tail);
                },
                None => {},
            }
        }
    }
    proof {
        assert(texts(names@) + Seq::<Seq<char>>::empty() =~= texts(names@));
    }
    Ok(names)
}

/// Pulls the names that a module refers to from outside out of its bytes,
/// without updating any data structure. Modules are placed in the order of
/// their appearance in the libraries, so the dependencies between them have
/// to be known before any is placed.
pub fn pass1_obj_externs(data: &[u8]) -> (r: Result<Vec<String>, LinkerError>)
    ensures
        match r {
            Ok(names) => object_externs(data@, 0) == Some(texts(names@)),
            Err(_) => object_externs(data@, 0) is None,
        },
{
    let mut start: usize = 0;
    let mut externs: Vec<String> = Vec::new();
    let len = data.len();
    while start < len
        invariant
            len == data@.len(),
            match object_externs(data@, start as int) {
                Some(rest) => object_externs(data@, 0) == Some(texts(externs@) + rest),
                None => object_externs(data@, 0) is None,
            },
        decreases len - start,
    {
        let mut rec = Record::new(slice_subrange(data, start, len))?;
        let reclen = rec.total_length();
        let ghost before = texts(externs@);
        // Names come from EXTDEF and COMDEF records; those of LEXTDEF and
        // LCOMDEF records are resolved within the module.
        let mut names = if rec.rectype == RecordType::EXTDEF {
            pass1_extdef_names(&mut rec)?
        } else if rec.rectype == RecordType::COMDEF {
            pass1_comdef_names(&mut rec)?
        } else {
            Vec::new()
        };
        let ghost added = texts(names@);
        externs.append(&mut names);
        start += reclen;
        proof {
            assert(texts(externs@) =~= before + added);
            match object_externs(data@, start as int) {
                Some(tail) => {
                    assert(before + (added + tail) =~= (before + added) + tail);
                },
                None => {},
            }
        }
    }
    proof {
        assert(texts(externs@) + Seq::<Seq<char>>::empty() =~= texts(externs@));
    }
    Ok(externs)
}

/// What a THEADR record does: it names the object.
pub open spec fn theadr_record(obj: ObjectView, payload: Seq<u8>, pos: int) -> Option<ObjectView> {
    match read_counted_string(payload, pos) {
        Some((name, _)) => Some(ObjectView { name, ..obj }),
        None => None,
    }
}

/// Handles a THEADR record, which names the object file.
pub fn pass1_theadr(obj: &mut Object, rec: &mut Record) -> (r: Result<(), LinkerError>)
    requires
        old(rec).wf(),
    ensures
        final(rec).wf(),
        final(rec).data@ == old(rec).data@,
        match r {
            Ok(_) => theadr_record(old(obj)@, old(rec).data@, old(rec).next as int) == Some(
                final(obj)@,
            ),
            Err(_) => theadr_record(old(obj)@, old(rec).data@, old(rec).next as int) is None
                && *final(obj) == *old(obj),
        },
        final(obj).fixup_threads == old(obj).fixup_threads,
{
    obj.name = rec.counted_string()?;
    Ok(())
}

/// The names table once `name` is interned in it, and the index of the
/// name.
pub open spec fn intern(names: Seq<Seq<char>>, name: Seq<char>) -> (Seq<Seq<char>>, usize) {
    if LNames::position_of(names, name) != 0 {
        (names, LNames::position_of(names, name) as usize)
    } else {
        (names.push(name), (names.len() + 1) as usize)
    }
}

/// Interning keeps the names that the table holds in their places, and
/// gives the index of a place that holds the name.
pub proof fn lemma_intern(names: Seq<Seq<char>>, name: Seq<char>)
    requires
        names.len() < usize::MAX,
    ensures
        intern(names, name).0.len() >= names.len(),
        forall|i: int| 0 <= i < names.len() ==> intern(names, name).0[i] == names[i],
        0 < intern(names, name).1 <= intern(names, name).0.len(),
        LNames::name_at(intern(names, name).0, intern(names, name).1 as int) == name,
{
    LNames::lemma_position_of(names, name);
}

/// What an LNAMES record does from `pos` on: each of its names is interned
/// in the global table, and the object's next name index maps to it.
pub open spec fn lnames_record(st: LinkStateView, obj: ObjectView, payload: Seq<u8>, pos: int)
    -> Option<(LinkStateView, ObjectView)>
    decreases payload.len() - pos,
{
    if pos >= payload.len() {
        Some((st, obj))
    } else {
        match read_counted_string(payload, pos) {
            Some((name, next)) => lnames_record(
                LinkStateView { lnames: intern(st.lnames, name).0, ..st },
                ObjectView { lnames: obj.lnames.push(intern(st.lnames, name).1), ..obj },
                payload,
                next,
            ),
            None => None,
        }
    }
}

/// What an LNAMES record has made of the link state and of the object
/// when it ends or fails: the names before the one that cannot be read have
/// been taken in.
pub open spec fn lnames_left(st: LinkStateView, obj: ObjectView, payload: Seq<u8>, pos: int)
    -> (LinkStateView, ObjectView)
    decreases payload.len() - pos,
{
    if pos >= payload.len() {
        (st, obj)
    } else {
        match read_counted_string(payload, pos) {
            Some((name, next)) => lnames_left(
                LinkStateView { lnames: intern(st.lnames, name).0, ..st },
                ObjectView { lnames: obj.lnames.push(intern(st.lnames, name).1), ..obj },
                payload,
                next,
            ),
            None => (st, obj),
        }
    }
}

/// Handles an LNAMES record, which lists names used by other records. All
/// names are stored in a global table, and each object contains a map from
/// its own index of the name to the index in the global table.
pub fn pass1_lnames(obj: &mut Object, state: &mut LinkState, rec: &mut Record) -> (r: Result<
    (),
    LinkerError,
>)
    requires
        old(rec).wf(),
        old(state).wf(),
    ensures
        final(rec).wf(),
        final(rec).data@ == old(rec).data@,
        final(state).wf(),
        final(state)@ == (LinkStateView { lnames: final(state)@.lnames, ..old(state)@ }),
        final(obj)@ == (ObjectView { lnames: final(obj)@.lnames, ..old(obj)@ }),
        final(obj).fixup_threads == old(obj).fixup_threads,
        (final(state)@, final(obj)@) == lnames_left(
            old(state)@,
            old(obj)@,
            old(rec).data@,
            old(rec).next as int,
        ),
        match r {
            Ok(_) => lnames_record(old(state)@, old(obj)@, old(rec).data@, old(rec).next as int)
                == Some((final(state)@, final(obj)@)),
            Err(_) => lnames_record(old(state)@, old(obj)@, old(rec).data@, old(rec).next as int)
                is None,
        },
{
    while !rec.end()
        invariant
            rec.wf(),
            state.wf(),
            rec.data@ == old(rec).data@,
            state@ == (LinkStateView { lnames: state@.lnames, ..old(state)@ }),
            obj@ == (ObjectView { lnames: obj@.lnames, ..old(obj)@ }),
            obj.fixup_threads == old(obj).fixup_threads,
            lnames_left(state@, obj@, rec.data@, rec.next as int) == lnames_left(
                old(state)@,
                old(obj)@,
                old(rec).data@,
                old(rec).next as int,
            ),
            lnames_record(state@, obj@, rec.data@, rec.next as int) == lnames_record(
                old(state)@,
                old(obj)@,
                old(rec).data@,
                old(rec).next as int,
            ),
        decreases rec.data@.len() - rec.next,
    {
        let ghost st = state@;
        let ghost ob = obj@;
        let lname = rec.counted_string()?;
        let index = state.lnames.find_or_add(lname.as_str());
        obj.lnames.add(index);
        proof {
            assert(state@ == (LinkStateView { lnames: intern(st.lnames, lname@).0, ..st }));
            assert(obj@ == (ObjectView {
                lnames: ob.lnames.push(intern(st.lnames, lname@).1),
                ..ob
            }));
        }
    }
    Ok(())
}

/// What an EXTDEF record does from `pos` on: each of its names enters the
/// symbol table as a reference, and becomes the object's next external.
pub open spec fn extdef_record(st: LinkStateView, obj: ObjectView, payload: Seq<u8>, pos: int)
    -> Option<(LinkStateView, ObjectView)>
    decreases payload.len() - pos,
{
    if pos >= payload.len() {
        Some((st, obj))
    } else {
        match read_counted_string(payload, pos) {
            Some((name, pos1)) => match read_index(payload, pos1) {
                Some((_, pos2)) => match with_symbol(st.symbols, name, Symbol::Undefined) {
                    Some(symbols) => extdef_record(
                        LinkStateView { symbols, ..st },
                        ObjectView { extdefs: obj.extdefs.push(name), ..obj },
                        payload,
                        pos2,
                    ),
                    None => None,
                },
                None => None,
            },
            None => None,
        }
    }
}

/// What an EXTDEF record has made of the link state and of the object
/// when it ends or fails: the entries before the one that cannot be read
/// have been taken in.
pub open spec fn extdef_left(st: LinkStateView, obj: ObjectView, payload: Seq<u8>, pos: int)
    -> (LinkStateView, ObjectView)
    decreases payload.len() - pos,
{
    if pos >= payload.len() {
        (st, obj)
    } else {
        match read_counted_string(payload, pos) {
            Some((name, pos1)) => match read_index(payload, pos1) {
                Some((_, pos2)) => match with_symbol(st.symbols, name, Symbol::Undefined) {
                    Some(symbols) => extdef_left(
                        LinkStateView { symbols, ..st },
                        ObjectView { extdefs: obj.extdefs.push(name), ..obj },
                        payload,
                        pos2,
                    ),
                    None => (st, obj),
                },
                None => (st, obj),
            },
            None => (st, obj),
        }
    }
}

/// Handles an EXTDEF record, which maps an index in the object module to a
/// symbol name to be resolved elsewhere.
pub fn pass1_extdef(obj: &mut Object, state: &mut LinkState, rec: &mut Record) -> (r: Result<
    (),
    LinkerError,
>)
    requires
        old(rec).wf(),
        old(state).wf(),
    ensures
        final(rec).wf(),
        final(rec).data@ == old(rec).data@,
        final(state).wf(),
        final(state)@ == (LinkStateView { symbols: final(state)@.symbols, ..old(state)@ }),
        final(obj)@ == (ObjectView { extdefs: final(obj)@.extdefs, ..old(obj)@ }),
        final(obj).fixup_threads == old(obj).fixup_threads,
        (final(state)@, final(obj)@) == extdef_left(
            old(state)@,
            old(obj)@,
            old(rec).data@,
            old(rec).next as int,
        ),
        match r {
            Ok(_) => extdef_record(old(state)@, old(obj)@, old(rec).data@, old(rec).next as int)
                == Some((final(state)@, final(obj)@)),
            Err(_) => extdef_record(old(state)@, old(obj)@, old(rec).data@, old(rec).next as int)
                is None,
        },
{
    while !rec.end()
        invariant
            rec.wf(),
            state.wf(),
            rec.data@ == old(rec).data@,
            state@ == (LinkStateView { symbols: state@.symbols, ..old(state)@ }),
            obj@ == (ObjectView { extdefs: obj@.extdefs, ..old(obj)@ }),
            obj.fixup_threads == old(obj).fixup_threads,
            extdef_left(state@, obj@, rec.data@, rec.next as int) == extdef_left(
                old(state)@,
                old(obj)@,
                old(rec).data@,
                old(rec).next as int,
            ),
            extdef_record(state@, obj@, rec.data@, rec.next as int) == extdef_record(
                old(state)@,
                old(obj)@,
                old(rec).data@,
                old(rec).next as int,
            ),
        decreases rec.data@.len() - rec.next,
    {
        let ghost st = state@;
        let ghost ob = obj@;
        let name = rec.counted_string()?;
        // there is an unused type index after every name.
        rec.index()?;
        // Put the symbol in the symbol table, if it isn't already there,
        // as an undefined reference.
        state.symbols.update(name.as_str(), Symbol::Undefined)?;
        // The name goes in the object's external definitions.
        obj.extdefs.add(name);
        proof {
            assert(state@ == (LinkStateView {
                symbols: with_symbol(st.symbols, name@, Symbol::Undefined)->0,
                ..st
            }));
            assert(obj@ == (ObjectView { extdefs: ob.extdefs.push(name@), ..ob }));
        }
    }
    Ok(())
}

/// What a PUBDEF record says its symbols are relative to.
pub struct PubdefBase {
    /// The linker-level group, or 0.
    pub group: usize,
    /// The linker-level segment, or 0 for absolute symbols.
    pub segment: usize,
    /// The frame of absolute symbols.
    pub frame: u16,
    /// Where the object's part of the segment begins.
    pub segbase: usize,
    /// The length of the object's part of the segment.
    pub seglen: usize,
}

/// The head of a PUBDEF record: a group index, a segment index and, where
/// the segment index is 0, a frame. Both indices must be known to the
/// object. The result pairs the base with the position after the head.
pub open spec fn pubdef_base(obj: ObjectView, payload: Seq<u8>, pos: int) -> Option<
    (PubdefBase, int),
> {
    match read_index(payload, pos) {
        Some((group, pos1)) => match read_index(payload, pos1) {
            Some((segment, pos2)) => {
                let frame = if segment == 0 {
                    read_word(payload, pos2)
                } else {
                    Some((0u16, pos2))
                };
                match frame {
                    Some((frame, pos3)) => if !IndexMap::valid_index(obj.grpdefs, group as int) {
                        None
                    } else if segment == 0 {
                        Some(
                            (
                                PubdefBase {
                                    group: IndexMap::lookup(obj.grpdefs, group as int),
                                    segment: 0,
                                    frame,
                                    segbase: 0,
                                    seglen: 0,
                                },
                                pos3,
                            ),
                        )
                    } else if segment > obj.segdefs.len() {
                        None
                    } else {
                        Some(
                            (
                                PubdefBase {
                                    group: IndexMap::lookup(obj.grpdefs, group as int),
                                    segment: obj.segdefs[segment - 1].segidx,
                                    frame,
                                    segbase: obj.segdefs[segment - 1].base,
                                    seglen: obj.segdefs[segment - 1].length,
                                },
                                pos3,
                            ),
                        )
                    },
                    None => None,
                }
            },
            None => None,
        },
        None => None,
    }
}

/// The offset in its segment of a public symbol that its record puts at
/// `offset`. In a segment the offset must lie within the object's part (an
/// empty part admits offset 0), and it is counted from the start of the
/// whole segment, where it must fit in 16 bits.
pub open spec fn public_offset(base: PubdefBase, offset: u16) -> Option<u16> {
    if base.segment == 0 {
        Some(offset)
    } else if offset >= base.seglen && !(offset == 0 && base.seglen == 0) {
        None
    } else if base.segbase + offset > 0xffff {
        None
    } else {
        Some((base.segbase + offset) as u16)
    }
}

/// What the entries of a PUBDEF record do from `pos` on: each, a counted
/// string, an offset and a type index, defines a public symbol.
pub open spec fn pubdef_entries(
    symbols: Symbols,
    base: PubdefBase,
    payload: Seq<u8>,
    pos: int,
) -> Option<Symbols>
    decreases payload.len() - pos,
{
    if pos >= payload.len() {
        Some(symbols)
    } else {
        match read_counted_string(payload, pos) {
            Some((name, pos1)) => match read_word(payload, pos1) {
                Some((offset, pos2)) => match read_index(payload, pos2) {
                    Some((_, pos3)) => match public_offset(base, offset) {
                        Some(segoffs) => match with_symbol(
                            symbols,
                            name,
                            Symbol::Public(
                                PublicSymbol {
                                    group: base.group,
                                    segment: base.segment,
                                    frame: base.frame,
                                    offset: segoffs,
                                    used: false,
                                },
                            ),
                        ) {
                            Some(next) => pubdef_entries(next, base, payload, pos3),
                            None => None,
                        },
                        None => None,
                    },
                    None => None,
                },
                None => None,
            },
            None => None,
        }
    }
}

/// The public symbol for which the entries of a PUBDEF record, from `pos`
/// on, fail because its offset in the segment does not fit in 16 bits: its
/// name and that offset, as far as the machine can hold it.
pub open spec fn pubdef_too_wide(symbols: Symbols, base: PubdefBase, payload: Seq<u8>, pos: int)
    -> Option<(Seq<char>, usize)>
    decreases payload.len() - pos,
{
    if pos >= payload.len() {
        None
    } else {
        match read_counted_string(payload, pos) {
            Some((name, pos1)) => match read_word(payload, pos1) {
                Some((offset, pos2)) => if base.segment != 0 && !(offset >= base.seglen && !(
                offset == 0 && base.seglen == 0)) && base.segbase + offset > 0xffff {
                    Some(
                        (
                            name,
                            if base.segbase + offset > usize::MAX {
                                usize::MAX
                            } else {
                                (base.segbase + offset) as usize
                            },
                        ),
                    )
                } else {
                    match (read_index(payload, pos2), public_offset(base, offset)) {
                        (Some((_, pos3)), Some(segoffs)) => match with_symbol(
                            symbols,
                            name,
                            Symbol::Public(
                                PublicSymbol {
                                    group: base.group,
                                    segment: base.segment,
                                    frame: base.frame,
                                    offset: segoffs,
                                    used: false,
                                },
                            ),
                        ) {
                            Some(next) => pubdef_too_wide(next, base, payload, pos3),
                            None => None,
                        },
                        _ => None,
                    }
                },
                None => None,
            },
            None => None,
        }
    }
}

/// The text of the error for a public symbol whose offset in the segment
/// does not fit in 16 bits.
pub open spec fn too_wide_text(name: Seq<char>, offset: usize) -> Seq<char> {
    "public "@ + name + " offset "@ + number_text(offset as nat, true, 5)
        + "H does not fit in 16 bits."@
}

/// What a PUBDEF record does.
pub open spec fn pubdef_record(st: LinkStateView, obj: ObjectView, payload: Seq<u8>, pos: int)
    -> Option<LinkStateView> {
    match pubdef_base(obj, payload, pos) {
        Some((base, p)) => match pubdef_entries(st.symbols, base, payload, p) {
            Some(symbols) => Some(LinkStateView { symbols, ..st }),
            None => None,
        },
        None => None,
    }
}

/// What the entries of a PUBDEF record have made of the symbols when they
/// end or fail: the symbols before the one that is rejected are defined.
pub open spec fn pubdef_entries_left(
    symbols: Symbols,
    base: PubdefBase,
    payload: Seq<u8>,
    pos: int,
) -> Symbols
    decreases payload.len() - pos,
{
    if pos >= payload.len() {
        symbols
    } else {
        match read_counted_string(payload, pos) {
            Some((name, pos1)) => match read_word(payload, pos1) {
                Some((offset, pos2)) => match (
                    read_index(payload, pos2),
                    public_offset(base, offset),
                ) {
                    (Some((_, pos3)), Some(segoffs)) => match with_symbol(
                        symbols,
                        name,
                        Symbol::Public(
                            PublicSymbol {
                                group: base.group,
                                segment: base.segment,
                                frame: base.frame,
                                offset: segoffs,
                                used: false,
                            },
                        ),
                    ) {
                        Some(next) => pubdef_entries_left(next, base, payload, pos3),
                        None => symbols,
                    },
                    _ => symbols,
                },
                None => symbols,
            },
            None => symbols,
        }
    }
}

/// What a PUBDEF record has made of the symbols when it ends or fails.
pub open spec fn pubdef_left(st: LinkStateView, obj: ObjectView, payload: Seq<u8>, pos: int)
    -> Symbols {
    match pubdef_base(obj, payload, pos) {
        Some((base, entries)) => pubdef_entries_left(st.symbols, base, payload, entries),
        None => st.symbols,
    }
}

/// Handles a PUBDEF record, which defines symbols with an offset in a
/// segment and/or group.
pub fn pass1_pubdef(obj: &mut Object, state: &mut LinkState, rec: &mut Record) -> (r: Result<
    (),
    LinkerError,
>)
    requires
        old(rec).wf(),
        old(state).wf(),
    ensures
        final(rec).wf(),
        final(rec).data@ == old(rec).data@,
        final(state).wf(),
        final(state)@ == (LinkStateView { symbols: final(state)@.symbols, ..old(state)@ }),
        *final(obj) == *old(obj),
        final(state)@.symbols == pubdef_left(
            old(state)@,
            old(obj)@,
            old(rec).data@,
            old(rec).next as int,
        ),
        match r {
            Ok(_) => pubdef_record(old(state)@, old(obj)@, old(rec).data@, old(rec).next as int)
                == Some(final(state)@),
            Err(_) => pubdef_record(old(state)@, old(obj)@, old(rec).data@, old(rec).next as int)
                is None,
        },
        match pubdef_base(old(obj)@, old(rec).data@, old(rec).next as int) {
            Some((base, entries)) => match pubdef_too_wide(
                old(state)@.symbols,
                base,
                old(rec).data@,
                entries,
            ) {
                Some((name, offset)) => r is Err && r->Err_0.message() == too_wide_text(
                    name,
                    offset,
                ),
                None => true,
            },
            None => true,
        },
{
    let group = rec.index()?;
    let segment = rec.index()?;
    let baseframe = if segment == 0 {
        rec.word()?
    } else {
        0
    };
    if !obj.grpdefs.is_valid_index(group) {
        return Err(Message::new("invalid group index ").dec(group).str(" in PUBDEF").error());
    }
    let group = obj.grpdefs.get(group);
    let base = if segment == 0 {
        PubdefBase { group, segment: 0, frame: baseframe, segbase: 0, seglen: 0 }
    } else {
        if !obj.segdefs.is_valid_index(segment) {
            return Err(
                Message::new("invalid segment index ").dec(segment).str(" in PUBDEF").error(),
            );
        }
        let segdef = obj.segdefs.get(segment);
        PubdefBase {
            group,
            segment: segdef.segidx,
            frame: baseframe,
            segbase: segdef.base,
            seglen: segdef.length,
        }
    };
    let ghost entries = rec.next as int;
    assert(pubdef_base(obj@, rec.data@, old(rec).next as int) == Some((base, entries)));
    while !rec.end()
        invariant
            rec.wf(),
            state.wf(),
            rec.data@ == old(rec).data@,
            *obj == *old(obj),
            pubdef_base(old(obj)@, old(rec).data@, old(rec).next as int) == Some((base, entries)),
            state@ == (LinkStateView { symbols: state@.symbols, ..old(state)@ }),
            pubdef_entries_left(state@.symbols, base, rec.data@, rec.next as int)
                == pubdef_entries_left(old(state)@.symbols, base, rec.data@, entries),
                        pubdef_entries(state@.symbols, base, rec.data@, rec.next as int) == pubdef_entries(
                old(state)@.symbols,
                base,
                rec.data@,
                entries,
            ),
            pubdef_too_wide(state@.symbols, base, rec.data@, rec.next as int) == pubdef_too_wide(
                old(state)@.symbols,
                base,
                rec.data@,
                entries,
            ),
        decreases rec.data@.len() - rec.next,
    {
        let name = rec.counted_string()?;
        let offset = rec.word()?;
        let segoffs = if base.segment == 0 {
            offset
        } else {
            if offset as usize >= base.seglen && !(offset == 0 && base.seglen == 0) {
                return Err(
                    Message::new("public ").str(name.as_str()).str(" offset ").hex(
                        offset as usize,
                        4,
                    ).str("H is outside of SEGDEF.").error(),
                );
            }
            if base.segbase > 0xffff - offset as usize {
                return Err(
                    Message::new("public ").str(name.as_str()).str(" offset ").hex(
                        base.segbase.saturating_add(offset as usize),
                        5,
                    ).str("H does not fit in 16 bits.").error(),
                );
            }
            (base.segbase + offset as usize) as u16
        };
        // There is an unused type index after each symbol.
        rec.index()?;
        let symbol = Symbol::public(base.group, base.segment, base.frame, segoffs);
        state.symbols.update(name.as_str(), symbol)?;
    }
    Ok(())
}

/// The fields of a SEGDEF record.
pub struct SegdefFields {
    pub acbp: u8,
    pub align: Align,
    pub combine: Combine,
    pub length: u16,
    pub nameidx: usize,
    pub classidx: usize,
    pub ovlyidx: usize,
}

/// The fields of the SEGDEF record read from `pos`: the ACBP byte, with a
/// valid alignment and combine method; for an absolute segment a frame and
/// an offset, which are skipped; the length; and the indices of the name,
/// the class and the overlay.
pub open spec fn segdef_fields(payload: Seq<u8>, pos: int) -> Option<SegdefFields> {
    match read_byte(payload, pos) {
        Some((acbp, pos1)) => match (Align::decode(acbp), Combine::decode(acbp)) {
            (Some(align), Some(combine)) => {
                let pos2 = if align == Align::Absolute {
                    match read_word(payload, pos1) {
                        Some((_, q)) => match read_byte(payload, q) {
                            Some((_, q2)) => Some(q2),
                            None => None,
                        },
                        None => None,
                    }
                } else {
                    Some(pos1)
                };
                match pos2 {
                    Some(pos2) => match read_word(payload, pos2) {
                        Some((length, pos3)) => match read_index(payload, pos3) {
                            Some((nameidx, pos4)) => match read_index(payload, pos4) {
                                Some((classidx, pos5)) => match read_index(payload, pos5) {
                                    Some((ovlyidx, _)) => Some(
                                        SegdefFields {
                                            acbp,
                                            align,
                                            combine,
                                            length,
                                            nameidx,
                                            classidx,
                                            ovlyidx,
                                        },
                                    ),
                                    None => None,
                                },
                                None => None,
                            },
                            None => None,
                        },
                        None => None,
                    },
                    None => None,
                }
            },
            _ => None,
        },
        None => None,
    }
}

/// The length that a SEGDEF declares: bit 0 of the ACBP byte (the B bit)
/// stands for exactly 64 KiB and goes with a length field of 0 only.
pub open spec fn segdef_length(acbp: u8, length: u16) -> Option<usize> {
    if acbp % 2 == 1 {
        if length != 0 {
            None
        } else {
            Some(0x10000)
        }
    } else {
        Some(length as usize)
    }
}

/// What a SEGDEF record does: its name indices, which the object must know,
/// are turned into the segment's global name; the segment of that name, or a
/// new one that is added to the table, takes the record's part in; and the
/// part, with its offset in the segment, becomes the object's next segment
/// definition. Absolute alignment leaves a warning.
pub open spec fn segdef_record(st: LinkStateView, obj: ObjectView, payload: Seq<u8>, pos: int)
    -> Option<(LinkStateView, ObjectView)> {
    match segdef_fields(payload, pos) {
        Some(f) => if !(IndexMap::valid_index(obj.lnames, f.nameidx as int)
            && IndexMap::valid_index(obj.lnames, f.classidx as int) && IndexMap::valid_index(
            obj.lnames,
            f.ovlyidx as int,
        )) {
            None
        } else {
            match segdef_length(f.acbp, f.length) {
                Some(length) => {
                    let name = SegName {
                        nameidx: IndexMap::lookup(obj.lnames, f.nameidx as int),
                        classidx: IndexMap::lookup(obj.lnames, f.classidx as int),
                        ovlyidx: IndexMap::lookup(obj.lnames, f.ovlyidx as int),
                    };
                    let found = st.segment_named(name);
                    let segments = if found != 0 {
                        st.segments
                    } else {
                        st.segments.push(
                            Segment {
                                name,
                                length: 0,
                                align: f.align,
                                combine: f.combine,
                                base: 0,
                                group: 0,
                            },
                        )
                    };
                    let index = if found != 0 {
                        found
                    } else {
                        st.segments.len() as int + 1
                    };
                    let segdef = SegDef {
                        segidx: index as usize,
                        base: 0,
                        length,
                        acbp: f.acbp,
                        align: f.align,
                        combine: f.combine,
                    };
                    let seg = segments[index - 1];
                    if seg.accepts(segdef) {
                        Some(
                            (
                                LinkStateView {
                                    segments: segments.update(
                                        index - 1,
                                        Segment {
                                            length: seg.combined_length(segdef) as usize,
                                            align: Align::stricter(seg.align, segdef.align),
                                            ..seg
                                        },
                                    ),
                                    warnings: if f.align == Align::Absolute {
                                        st.warnings.push(Warning::AbsoluteSegment)
                                    } else {
                                        st.warnings
                                    },
                                    ..st
                                },
                                ObjectView {
                                    segdefs: obj.segdefs.push(
                                        SegDef {
                                            base: seg.combined_offset(segdef) as usize,
                                            ..segdef
                                        },
                                    ),
                                    ..obj
                                },
                            ),
                        )
                    } else {
                        None
                    }
                },
                None => None,
            }
        },
        None => None,
    }
}

/// Whether the part that `segdef` describes lies within its segment.
pub open spec fn segdef_within(segments: Seq<Segment>, segdef: SegDef) -> bool {
    &&& 0 < segdef.segidx <= segments.len()
    &&& segdef.base + segdef.length <= segments[segdef.segidx - 1].length
}

/// The part that a SEGDEF record adds lies within its segment, and so does
/// every part that did so before the record.
pub proof fn lemma_segdef_within(
    st: LinkStateView,
    obj: ObjectView,
    payload: Seq<u8>,
    pos: int,
    other: SegDef,
)
    requires
        segdef_record(st, obj, payload, pos) is Some,
        st.segments.len() < usize::MAX,
    ensures
        match segdef_record(st, obj, payload, pos) {
            Some((st2, obj2)) => {
                &&& obj2.segdefs.len() == obj.segdefs.len() + 1
                &&& obj2.segdefs.drop_last() == obj.segdefs
                &&& segdef_within(st2.segments, obj2.segdefs.last())
                &&& segdef_within(st.segments, other) ==> segdef_within(st2.segments, other)
            },
            None => true,
        },
{
    let f = segdef_fields(payload, pos)->0;
    let name = SegName {
        nameidx: IndexMap::lookup(obj.lnames, f.nameidx as int),
        classidx: IndexMap::lookup(obj.lnames, f.classidx as int),
        ovlyidx: IndexMap::lookup(obj.lnames, f.ovlyidx as int),
    };
    crate::seq_search::lemma_first_index(st.segments, |s: Segment| s.name == name);
    let found = st.segment_named(name);
    let index = if found != 0 {
        found
    } else {
        st.segments.len() as int + 1
    };
    let segments = if found != 0 {
        st.segments
    } else {
        st.segments.push(
            Segment { name, length: 0, align: f.align, combine: f.combine, base: 0, group: 0 },
        )
    };
    crate::segment::lemma_align_up(f.align, segments[index - 1].length as int);
    match segdef_record(st, obj, payload, pos) {
        Some((st2, obj2)) => {
            let length = segdef_length(f.acbp, f.length)->0;
            let segdef = SegDef {
                segidx: index as usize,
                base: 0,
                length,
                acbp: f.acbp,
                align: f.align,
                combine: f.combine,
            };
            let seg = segments[index - 1];
            assert(0 <= seg.combined_offset(segdef) <= seg.combined_length(segdef));
            assert(obj2.segdefs.drop_last() =~= obj.segdefs);
        },
        None => {},
    }
}

/// What a SEGDEF record that fails leaves of the link state: the warning
/// about absolute alignment, once the frame and the offset are read; and
/// the segment that was added for its name, where there was none and the
/// segment does not accept the record.
pub open spec fn segdef_left(st: LinkStateView, obj: ObjectView, payload: Seq<u8>, pos: int)
    -> LinkStateView {
    match read_byte(payload, pos) {
        Some((acbp, pos1)) => match (Align::decode(acbp), Combine::decode(acbp)) {
            (Some(align), Some(combine)) => {
                let skipped = if align == Align::Absolute {
                    match read_word(payload, pos1) {
                        Some((_, q)) => read_byte(payload, q) is Some,
                        None => false,
                    }
                } else {
                    true
                };
                let warned = LinkStateView {
                    warnings: if align == Align::Absolute && skipped {
                        st.warnings.push(Warning::AbsoluteSegment)
                    } else {
                        st.warnings
                    },
                    ..st
                };
                match segdef_fields(payload, pos) {
                    Some(f) => if !(IndexMap::valid_index(obj.lnames, f.nameidx as int)
                        && IndexMap::valid_index(obj.lnames, f.classidx as int)
                        && IndexMap::valid_index(obj.lnames, f.ovlyidx as int)) {
                        warned
                    } else if segdef_length(f.acbp, f.length) is None {
                        warned
                    } else {
                        let name = SegName {
                            nameidx: IndexMap::lookup(obj.lnames, f.nameidx as int),
                            classidx: IndexMap::lookup(obj.lnames, f.classidx as int),
                            ovlyidx: IndexMap::lookup(obj.lnames, f.ovlyidx as int),
                        };
                        if st.segment_named(name) != 0 {
                            warned
                        } else {
                            LinkStateView {
                                segments: st.segments.push(
                                    Segment {
                                        name,
                                        length: 0,
                                        align: f.align,
                                        combine: f.combine,
                                        base: 0,
                                        group: 0,
                                    },
                                ),
                                ..warned
                            }
                        }
                    },
                    None => warned,
                }
            },
            _ => st,
        },
        None => st,
    }
}

/// Processes a SEGDEF record. Complete segments are held at the linker
/// level, and object modules contain the bounds of the part of the segment
/// owned by the module.
pub fn pass1_segdef(obj: &mut Object, state: &mut LinkState, rec: &mut Record) -> (r: Result<
    (),
    LinkerError,
>)
    requires
        old(rec).wf(),
        old(state).wf(),
    ensures
        final(rec).wf(),
        final(rec).data@ == old(rec).data@,
        final(state).wf(),
        final(state)@ == (LinkStateView {
            segments: final(state)@.segments,
            warnings: final(state)@.warnings,
            ..old(state)@
        }),
        final(obj)@ == (ObjectView { segdefs: final(obj)@.segdefs, ..old(obj)@ }),
        final(obj).fixup_threads == old(obj).fixup_threads,
        r is Err ==> *final(obj) == *old(obj),
        r is Err ==> final(state)@ == segdef_left(
            old(state)@,
            old(obj)@,
            old(rec).data@,
            old(rec).next as int,
        ),
        match r {
            Ok(_) => segdef_record(old(state)@, old(obj)@, old(rec).data@, old(rec).next as int)
                == Some((final(state)@, final(obj)@)),
            Err(_) => segdef_record(old(state)@, old(obj)@, old(rec).data@, old(rec).next as int)
                is None,
        },
{
    let acbp = rec.byte()?;
    let align = Align::from_acbp(acbp)?;
    let combine = Combine::from_acbp(acbp)?;
    if align == Align::Absolute {
        // Absolute segments carry a frame and an offset, which are not
        // honoured.
        let _frame = rec.word()?;
        let _offset = rec.byte()?;
        state.warnings.push(Warning::AbsoluteSegment);
    }
    let length = rec.word()?;
    // Name indices in the object file's lnames table.
    let nameidx = rec.index()?;
    let classidx = rec.index()?;
    let ovlyidx = rec.index()?;
    if !(obj.lnames.is_valid_index(nameidx) && obj.lnames.is_valid_index(classidx)
        && obj.lnames.is_valid_index(ovlyidx)) {
        return Err(
            Message::new("invalid name triplet ").dec(nameidx).str(".").dec(classidx).str(
                ".",
            ).dec(ovlyidx).str(" for SEGDEF").error(),
        );
    }
    let nameidx = obj.lnames.get(nameidx);
    let classidx = obj.lnames.get(classidx);
    let ovlyidx = obj.lnames.get(ovlyidx);
    let segname = SegName::new(nameidx, classidx, ovlyidx);
    let bbit = acbp % 2 == 1;
    let length: usize = if bbit {
        if length != 0 {
            let named = if state.lnames.len() >= nameidx && state.lnames.len() >= classidx
                && state.lnames.len() >= ovlyidx {
                state.segname(&segname)
            } else {
                String::new()
            };
            return Err(
                Message::new(named.as_str()).str(
                    " has B bit set, but length is not set to zero.",
                ).error(),
            );
        } else {
            0x10000
        }
    } else {
        length as usize
    };
    // Get or add the linker-level segment.
    let index = match state.get_segment_named(&segname) {
        Some(index) => index,
        None => {
            let segment = Segment::new(segname, 0, align, combine);
            state.segments.add(segment)
        },
    };
    let mut segdef = SegDef::new(index, length, acbp, align, combine);
    proof {
        crate::seq_search::lemma_first_index(
            old(state)@.segments,
            |s: Segment| s.name == segname,
        );
    }
    let mut segment = *state.segments.get(index);
    segdef.base = segment.add_segdef(&segdef)?;
    state.segments.set(index, segment);
    obj.segdefs.add(segdef);
    Ok(())
}

/// What the entries of a GRPDEF record do from `pos` on, for the group at
/// `index`: each, a type byte and the index of one of the object's segment
/// definitions, makes the segment of that definition a member of the group.
/// The segment is marked as belonging to the group, unless it belongs to
/// another one already, which leaves a warning.
pub open spec fn grpdef_members(
    st: LinkStateView,
    segdefs: Seq<SegDef>,
    index: usize,
    payload: Seq<u8>,
    pos: int,
) -> Option<LinkStateView>
    decreases payload.len() - pos,
{
    if pos >= payload.len() {
        Some(st)
    } else {
        match read_byte(payload, pos) {
            Some((_, pos1)) => match read_index(payload, pos1) {
                Some((segidx, pos2)) => if !(0 < segidx <= segdefs.len()) {
                    None
                } else {
                    let gseg = segdefs[segidx - 1].segidx;
                    if !(0 < gseg <= st.segments.len()) || !(0 < index <= st.groups.len()) {
                        None
                    } else {
                        let seg = st.segments[gseg - 1];
                        let group = st.groups[index - 1];
                        let taken = seg.group != 0 && seg.group != index;
                        grpdef_members(
                            LinkStateView {
                                segments: if taken {
                                    st.segments
                                } else {
                                    st.segments.update(gseg - 1, Segment { group: index, ..seg })
                                },
                                warnings: if taken {
                                    st.warnings.push(
                                        Warning::SegmentInSeveralGroups { segment: gseg },
                                    )
                                } else {
                                    st.warnings
                                },
                                groups: st.groups.update(
                                    index - 1,
                                    GroupView {
                                        members: Group::with_member(group.members, gseg),
                                        ..group
                                    },
                                ),
                                ..st
                            },
                            segdefs,
                            index,
                            payload,
                            pos2,
                        )
                    }
                },
                None => None,
            },
            None => None,
        }
    }
}

/// What a GRPDEF record does: its name index, which the object must know,
/// is turned into the group's global name; the group of that name, or a new
/// one that is added to the table, becomes the object's next group; and the
/// segments that the record lists become members of it.
pub open spec fn grpdef_record(st: LinkStateView, obj: ObjectView, payload: Seq<u8>, pos: int)
    -> Option<(LinkStateView, ObjectView)> {
    match read_index(payload, pos) {
        Some((nameidx, pos1)) => if !IndexMap::valid_index(obj.lnames, nameidx as int) {
            None
        } else {
            let name = IndexMap::lookup(obj.lnames, nameidx as int);
            let found = st.group_named(name);
            let groups = if found != 0 {
                st.groups
            } else {
                st.groups.push(GroupView { name, members: Seq::empty(), base: 0 })
            };
            let index = if found != 0 {
                found
            } else {
                st.groups.len() as int + 1
            };
            match grpdef_members(
                LinkStateView { groups, ..st },
                obj.segdefs,
                index as usize,
                payload,
                pos1,
            ) {
                Some(st2) => Some(
                    (st2, ObjectView { grpdefs: obj.grpdefs.push(index as usize), ..obj }),
                ),
                None => None,
            }
        },
        None => None,
    }
}

/// What the entries of a GRPDEF record have made of the link state when
/// they end or fail: the segments before the one that is rejected have
/// joined the group.
pub open spec fn grpdef_members_left(
    st: LinkStateView,
    segdefs: Seq<SegDef>,
    index: usize,
    payload: Seq<u8>,
    pos: int,
) -> LinkStateView
    decreases payload.len() - pos,
{
    if pos >= payload.len() {
        st
    } else {
        match read_byte(payload, pos) {
            Some((_, pos1)) => match read_index(payload, pos1) {
                Some((segidx, pos2)) => if !(0 < segidx <= segdefs.len()) {
                    st
                } else {
                    let gseg = segdefs[segidx - 1].segidx;
                    if !(0 < gseg <= st.segments.len()) || !(0 < index <= st.groups.len()) {
                        st
                    } else {
                        let seg = st.segments[gseg - 1];
                        let group = st.groups[index - 1];
                        let taken = seg.group != 0 && seg.group != index;
                        grpdef_members_left(
                            LinkStateView {
                                segments: if taken {
                                    st.segments
                                } else {
                                    st.segments.update(gseg - 1, Segment { group: index, ..seg })
                                },
                                warnings: if taken {
                                    st.warnings.push(
                                        Warning::SegmentInSeveralGroups { segment: gseg },
                                    )
                                } else {
                                    st.warnings
                                },
                                groups: st.groups.update(
                                    index - 1,
                                    GroupView {
                                        members: Group::with_member(group.members, gseg),
                                        ..group
                                    },
                                ),
                                ..st
                            },
                            segdefs,
                            index,
                            payload,
                            pos2,
                        )
                    }
                },
                None => st,
            },
            None => st,
        }
    }
}

/// What a GRPDEF record has made of the link state and of the object when
/// it ends or fails: once its name is known, the group is there and is the
/// object's next group, and the segments before the one that is rejected
/// have joined it.
pub open spec fn grpdef_left(st: LinkStateView, obj: ObjectView, payload: Seq<u8>, pos: int)
    -> (LinkStateView, ObjectView) {
    match read_index(payload, pos) {
        Some((nameidx, pos1)) => if !IndexMap::valid_index(obj.lnames, nameidx as int) {
            (st, obj)
        } else {
            let name = IndexMap::lookup(obj.lnames, nameidx as int);
            let found = st.group_named(name);
            let groups = if found != 0 {
                st.groups
            } else {
                st.groups.push(GroupView { name, members: Seq::empty(), base: 0 })
            };
            let index = if found != 0 {
                found
            } else {
                st.groups.len() as int + 1
            };
            (
                grpdef_members_left(
                    LinkStateView { groups, ..st },
                    obj.segdefs,
                    index as usize,
                    payload,
                    pos1,
                ),
                ObjectView { grpdefs: obj.grpdefs.push(index as usize), ..obj },
            )
        },
        None => (st, obj),
    }
}

/// Processes a GRPDEF record. Maps the group in the object to the (possibly
/// just created) group in the linker, and makes the referenced segments
/// members of it.
pub fn pass1_grpdef(obj: &mut Object, state: &mut LinkState, rec: &mut Record) -> (r: Result<
    (),
    LinkerError,
>)
    requires
        old(rec).wf(),
        old(state).wf(),
    ensures
        final(rec).wf(),
        final(rec).data@ == old(rec).data@,
        final(state).wf(),
        final(state)@ == (LinkStateView {
            groups: final(state)@.groups,
            segments: final(state)@.segments,
            warnings: final(state)@.warnings,
            ..old(state)@
        }),
        final(obj)@ == (ObjectView { grpdefs: final(obj)@.grpdefs, ..old(obj)@ }),
        final(obj).fixup_threads == old(obj).fixup_threads,
        (final(state)@, final(obj)@) == grpdef_left(
            old(state)@,
            old(obj)@,
            old(rec).data@,
            old(rec).next as int,
        ),
        match r {
            Ok(_) => grpdef_record(old(state)@, old(obj)@, old(rec).data@, old(rec).next as int)
                == Some((final(state)@, final(obj)@)),
            Err(_) => grpdef_record(old(state)@, old(obj)@, old(rec).data@, old(rec).next as int)
                is None,
        },
{
    let nameidx = rec.index()?;
    if !obj.lnames.is_valid_index(nameidx) {
        return Err(Message::new("invalid name ").dec(nameidx).str(" for GRPDEF").error());
    }
    let nameidx = obj.lnames.get(nameidx);
    // Get or add the linker-level group.
    let index = match state.get_group_named(nameidx) {
        Some(index) => index,
        None => {
            let group = Group::new(nameidx);
            state.groups.add(group)
        },
    };
    proof {
        crate::seq_search::lemma_first_index(
            old(state)@.groups,
            |g: GroupView| g.name == nameidx,
        );
    }
    let ghost st1 = state@;
    let ghost members_at = rec.next as int;
    assert(st1 == (LinkStateView {
        groups: if old(state)@.group_named(nameidx) != 0 {
            old(state)@.groups
        } else {
            old(state)@.groups.push(GroupView { name: nameidx, members: Seq::empty(), base: 0 })
        },
        ..old(state)@
    }));
    obj.grpdefs.add(index);
    // Walk the rest of the record for the segments to add to the group.
    while !rec.end()
        invariant
            rec.wf(),
            state.wf(),
            rec.data@ == old(rec).data@,
            state@ == (LinkStateView {
                groups: state@.groups,
                segments: state@.segments,
                warnings: state@.warnings,
                ..old(state)@
            }),
            obj.fixup_threads == old(obj).fixup_threads,
            obj@ == (ObjectView { grpdefs: old(obj)@.grpdefs.push(index), ..old(obj)@ }),
            0 < index <= state@.groups.len(),
            grpdef_members(state@, obj@.segdefs, index, rec.data@, rec.next as int)
                == grpdef_members(st1, old(obj)@.segdefs, index, rec.data@, members_at),
            grpdef_members_left(state@, obj@.segdefs, index, rec.data@, rec.next as int)
                == grpdef_members_left(st1, old(obj)@.segdefs, index, rec.data@, members_at),
            grpdef_left(old(state)@, old(obj)@, old(rec).data@, old(rec).next as int) == (
                grpdef_members_left(st1, old(obj)@.segdefs, index, rec.data@, members_at),
                ObjectView { grpdefs: old(obj)@.grpdefs.push(index), ..old(obj)@ },
            ),
            grpdef_record(old(state)@, old(obj)@, old(rec).data@, old(rec).next as int)
                == match grpdef_members(st1, old(obj)@.segdefs, index, rec.data@, members_at) {
                Some(st2) => Some(
                    (st2, ObjectView { grpdefs: old(obj)@.grpdefs.push(index), ..old(obj)@ }),
                ),
                None => None,
            },
        decreases rec.data@.len() - rec.next,
    {
        let ghost st = state@;
        // There is an unused type field before every segment.
        rec.byte()?;
        let segidx = rec.index()?;
        if !obj.segdefs.is_valid_index(segidx) {
            return Err(
                Message::new("invalid segment index ").dec(segidx).str(" in GRPDEF").error(),
            );
        }
        // Get the linker-level segment index.
        let segidx = obj.segdefs.get(segidx).segidx;
        if !state.segments.is_valid_index(segidx) {
            return Err(
                Message::new("invalid segment ").dec(segidx).str(" in GRPDEF").error(),
            );
        }
        let mut segment = *state.segments.get(segidx);
        if segment.group != 0 && segment.group != index {
            state.warnings.push(Warning::SegmentInSeveralGroups { segment: segidx });
        } else {
            segment.group = index;
            state.segments.set(segidx, segment);
        }
        state.groups.get_mut(index).add(segidx);
        proof {
            let group = st.groups[index - 1];
            assert(state@.groups =~= st.groups.update(
                index - 1,
                GroupView { members: Group::with_member(group.members, segidx), ..group },
            ));
        }
    }
    Ok(())
}

/// What one record of type `ty` does in pass 1. Records that carry data or
/// fixups are left to pass 2; record types that have no place in an object
/// module are an error.
#[verifier::opaque]
pub open spec fn pass1_record(ty: RecordType, st: LinkStateView, obj: ObjectView, payload: Seq<u8>)
    -> Option<(LinkStateView, ObjectView)> {
    match ty {
        RecordType::THEADR => match theadr_record(obj, payload, 0) {
            Some(named) => Some((st, named)),
            None => None,
        },
        RecordType::EXTDEF => extdef_record(st, obj, payload, 0),
        RecordType::PUBDEF => match pubdef_record(st, obj, payload, 0) {
            Some(defined) => Some((defined, obj)),
            None => None,
        },
        RecordType::LNAMES => lnames_record(st, obj, payload, 0),
        RecordType::SEGDEF => segdef_record(st, obj, payload, 0),
        RecordType::GRPDEF => grpdef_record(st, obj, payload, 0),
        RecordType::COMENT | RecordType::LEDATA | RecordType::LIDATA | RecordType::FIXUPP => Some(
            (st, obj),
        ),
        _ => None,
    }
}

/// What the records of a module do in pass 1, from the record at `start` on,
/// up to the MODEND record or the end of the bytes.
pub open spec fn pass1_records(st: LinkStateView, obj: ObjectView, data: Seq<u8>, start: int)
    -> Option<(LinkStateView, ObjectView)>
    decreases data.len() - start,
{
    if start >= data.len() {
        Some((st, obj))
    } else if start < 0 || !frame_ok(data.skip(start)) {
        None
    } else {
        let ty = RecordType::decode(data[start])->0;
        if ty == RecordType::MODEND {
            Some((st, obj))
        } else {
            match pass1_record(ty, st, obj, frame_payload(data.skip(start))) {
                Some((st2, obj2)) => pass1_records(
                    st2,
                    obj2,
                    data,
                    start + frame_length(data.skip(start)) + 3,
                ),
                None => None,
            }
        }
    }
}

/// What one record of type `ty` leaves behind in pass 1, whether the
/// record is taken or rejected: a rejected record leaves what it had done
/// before its fault was met.
#[verifier::opaque]
pub open spec fn pass1_record_left(
    ty: RecordType,
    st: LinkStateView,
    obj: ObjectView,
    payload: Seq<u8>,
) -> (LinkStateView, ObjectView) {
    match ty {
        RecordType::THEADR => match theadr_record(obj, payload, 0) {
            Some(named) => (st, named),
            None => (st, obj),
        },
        RecordType::EXTDEF => extdef_left(st, obj, payload, 0),
        RecordType::PUBDEF => (
            LinkStateView { symbols: pubdef_left(st, obj, payload, 0), ..st },
            obj,
        ),
        RecordType::LNAMES => lnames_left(st, obj, payload, 0),
        RecordType::SEGDEF => match segdef_record(st, obj, payload, 0) {
            Some(defined) => defined,
            None => (segdef_left(st, obj, payload, 0), obj),
        },
        RecordType::GRPDEF => grpdef_left(st, obj, payload, 0),
        _ => (st, obj),
    }
}

/// What the records of a module leave behind in pass 1, from the record at
/// `start` on: the tables as they stand at the MODEND record, at the end of
/// the bytes, or after the first record that is broken or rejected.
pub open spec fn pass1_left(st: LinkStateView, obj: ObjectView, data: Seq<u8>, start: int) -> (
    LinkStateView,
    ObjectView,
)
    decreases data.len() - start,
{
    if start >= data.len() || start < 0 || !frame_ok(data.skip(start)) {
        (st, obj)
    } else {
        let ty = RecordType::decode(data[start])->0;
        if ty == RecordType::MODEND {
            (st, obj)
        } else {
            let (st2, obj2) = pass1_record_left(ty, st, obj, frame_payload(data.skip(start)));
            if pass1_record(ty, st, obj, frame_payload(data.skip(start))) is Some {
                pass1_left(st2, obj2, data, start + frame_length(data.skip(start)) + 3)
            } else {
                (st2, obj2)
            }
        }
    }
}

/// Handles one record of an object module in pass 1.
fn pass1_dispatch(state: &mut LinkState, obj: &mut Object, rec: &mut Record) -> (r: Result<
    (),
    LinkerError,
>)
    requires
        old(rec).wf(),
        old(rec).next == 0,
        old(rec).rectype != RecordType::MODEND,
        old(state).wf(),
    ensures
        final(state).wf(),
        final(obj).fixup_threads == old(obj).fixup_threads,
        r is Err ==> final(obj)@.name == old(obj)@.name,
        !pass1_handles(old(rec).rectype) ==> r is Err && r->Err_0.message() == unhandled_text(
            old(rec).rectype.name_text(),
        ),
        (final(state)@, final(obj)@) == pass1_record_left(
            old(rec).rectype,
            old(state)@,
            old(obj)@,
            old(rec).data@,
        ),
        match r {
            Ok(_) => pass1_record(old(rec).rectype, old(state)@, old(obj)@, old(rec).data@)
                == Some((final(state)@, final(obj)@)),
            Err(_) => pass1_record(old(rec).rectype, old(state)@, old(obj)@, old(rec).data@)
                is None,
        },
{
    reveal(pass1_record);
    reveal(pass1_record_left);
    match rec.rectype {
        RecordType::THEADR => pass1_theadr(obj, rec),
        RecordType::EXTDEF => pass1_extdef(obj, state, rec),
        RecordType::COMENT => Ok(()),
        RecordType::PUBDEF => pass1_pubdef(obj, state, rec),
        RecordType::LNAMES => pass1_lnames(obj, state, rec),
        RecordType::SEGDEF => pass1_segdef(obj, state, rec),
        RecordType::GRPDEF => pass1_grpdef(obj, state, rec),
        // These records are for pass 2.
        RecordType::LEDATA | RecordType::LIDATA | RecordType::FIXUPP => Ok(()),
        _ => Err(Message::new("unhandled record ").str(rec.rectype.name()).error()),
    }
}

/// Whether pass 1 has a use for records of type `ty`, or passes them over.
pub open spec fn pass1_handles(ty: RecordType) -> bool {
    match ty {
        RecordType::THEADR
        | RecordType::EXTDEF
        | RecordType::COMENT
        | RecordType::PUBDEF
        | RecordType::LNAMES
        | RecordType::SEGDEF
        | RecordType::GRPDEF
        | RecordType::LEDATA
        | RecordType::LIDATA
        | RecordType::FIXUPP => true,
        _ => false,
    }
}

/// Where and why a pass fails in the records of a module.
pub struct Failure {
    /// The offset of the record that is broken or cannot be handled.
    pub at: int,
    /// The name that the module has given itself by then.
    pub modname: Seq<char>,
    /// What is wrong, for a record that is broken or of a type that the pass
    /// has no use for; `None` for a record whose contents are at fault.
    pub text: Option<Seq<char>>,
}

/// Where pass 1 fails in the records of a module, from the record at
/// `start` on.
pub open spec fn pass1_failure(st: LinkStateView, obj: ObjectView, data: Seq<u8>, start: int)
    -> Option<Failure>
    decreases data.len() - start,
{
    if start >= data.len() {
        None
    } else if start < 0 || !frame_ok(data.skip(start)) {
        Some(
            Failure {
                at: start,
                modname: obj.name,
                text: Some(frame_error(data.skip(start))),
            },
        )
    } else {
        let ty = RecordType::decode(data[start])->0;
        if ty == RecordType::MODEND {
            None
        } else {
            match pass1_record(ty, st, obj, frame_payload(data.skip(start))) {
                Some((st2, obj2)) => pass1_failure(
                    st2,
                    obj2,
                    data,
                    start + frame_length(data.skip(start)) + 3,
                ),
                None => Some(
                    Failure {
                        at: start,
                        modname: obj.name,
                        text: if pass1_handles(ty) {
                            None
                        } else {
                            Some(unhandled_text(ty.name_text()))
                        },
                    },
                ),
            }
        }
    }
}

/// Whether `text` is the text of the error for the failure `f` of the pass
/// `pass` in the module `name`: it names the module and the offset, and says
/// what is wrong.
pub open spec fn is_located(text: Seq<char>, pass: Seq<char>, name: Seq<char>, f: Failure) -> bool {
    match f.text {
        Some(inner) => text == located_text(pass, name, f.modname, f.at as nat, inner),
        None => exists|inner: Seq<char>|
            text == #[trigger] located_text(pass, name, f.modname, f.at as nat, inner),
    }
}

/// Parses one object file in the context of pass 1. An error comes back
/// with the name of the module and the offset of the record at which it
/// was met.
pub fn pass1_object(state: &mut LinkState, data: &[u8], obj: &mut Object, name: &str) -> (r: Result<
    (),
    LinkerError,
>)
    requires
        old(state).wf(),
    ensures
        final(state).wf(),
        final(obj).fixup_threads == old(obj).fixup_threads,
        (final(state)@, final(obj)@) == pass1_left(old(state)@, old(obj)@, data@, 0),
        match r {
            Ok(_) => pass1_records(old(state)@, old(obj)@, data@, 0) == Some(
                (final(state)@, final(obj)@),
            ),
            Err(e) => {
                &&& pass1_records(old(state)@, old(obj)@, data@, 0) is None
                &&& pass1_failure(old(state)@, old(obj)@, data@, 0) is Some
                &&& is_located(
                    e.message(),
                    "pass1"@,
                    name@,
                    pass1_failure(old(state)@, old(obj)@, data@, 0)->0,
                )
            },
        },
{
    let mut start: usize = 0;
    let len = data.len();
    while start < len
        invariant
            len == data@.len(),
            state.wf(),
            obj.fixup_threads == old(obj).fixup_threads,
            pass1_records(state@, obj@, data@, start as int) == pass1_records(
                old(state)@,
                old(obj)@,
                data@,
                0,
            ),
            pass1_failure(state@, obj@, data@, start as int) == pass1_failure(
                old(state)@,
                old(obj)@,
                data@,
                0,
            ),
            pass1_left(state@, obj@, data@, start as int) == pass1_left(
                old(state)@,
                old(obj)@,
                data@,
                0,
            ),
        decreases len - start,
    {
        let ghost modname = obj@.name;
        let mut rec = match Record::new(slice_subrange(data, start, len)) {
            Ok(rec) => rec,
            Err(err) => {
                let e = LinkerError::located("pass1", name, obj.name.as_str(), start, &err);
                proof {
                    let f = pass1_failure(state@, obj@, data@, start as int)->0;
                    assert(f.at == start && f.modname == modname);
                    assert(e.message() == located_text(
                        "pass1"@,
                        name@,
                        f.modname,
                        f.at as nat,
                        err.message(),
                    ));
                }
                return Err(e);
            },
        };
        let reclen = rec.total_length();
        if rec.rectype == RecordType::MODEND {
            return Ok(());
        }
        let ghost before = (state@, obj@);
        let result = pass1_dispatch(state, obj, &mut rec);
        match result {
            Err(err) => {
                let e = LinkerError::located("pass1", name, obj.name.as_str(), start, &err);
                proof {
                    let f = pass1_failure(before.0, before.1, data@, start as int)->0;
                    assert(f.at == start && f.modname == modname);
                    assert(e.message() == located_text(
                        "pass1"@,
                        name@,
                        f.modname,
                        f.at as nat,
                        err.message(),
                    ));
                }
                return Err(e);
            },
            Ok(_) => {},
        };
        start += reclen;
    }
    Ok(())
}

/// An object module as it is handed to the linker: its name and its bytes.
pub struct ObjectFile {
    pub name: String,
    pub data: Vec<u8>,
}

/// What taking the object files from `files[k]` on through pass 1 does: the
/// records of each are processed, and the object joins the objects.
pub open spec fn files_loaded(
    st: LinkStateView,
    files: Seq<ObjectFile>,
    k: int,
    objects: Seq<ObjectView>,
) -> Option<(LinkStateView, Seq<ObjectView>)>
    decreases files.len() - k,
{
    if k < 0 || k >= files.len() {
        Some((st, objects))
    } else {
        match pass1_records(st, ObjectView::empty(None), files[k].data@, 0) {
            Some((st2, obj)) => files_loaded(
                st2,
                files,
                k + 1,
                objects.push(ObjectView { data: Some(files[k].data@), ..obj }),
            ),
            None => None,
        }
    }
}

/// What pass 1 does before the memory map is built: the object files are
/// loaded, and then the library modules that close the undefined symbols.
pub open spec fn linked(
    st: LinkStateView,
    files: Seq<ObjectFile>,
    libs: Seq<Library>,
    objects: Seq<ObjectView>,
) -> Option<(LinkStateView, Seq<ObjectView>)> {
    match files_loaded(st, files, 0, objects) {
        Some((st2, objects2)) => library_modules_added(
            st2,
            undefined_names(st2.symbols),
            libs,
            objects2,
        ),
        None => None,
    }
}

/// What taking the object files from `files[k]` on through pass 1 leaves
/// behind where one of them fails: what the files before it have done and
/// what its own records had done by then. The file that fails does not join
/// the objects. `None` where no file fails.
pub open spec fn files_left(
    st: LinkStateView,
    files: Seq<ObjectFile>,
    k: int,
    objects: Seq<ObjectView>,
) -> Option<(LinkStateView, Seq<ObjectView>)>
    decreases files.len() - k,
{
    if k < 0 || k >= files.len() {
        None
    } else {
        match pass1_records(st, ObjectView::empty(None), files[k].data@, 0) {
            Some((st2, obj)) => files_left(
                st2,
                files,
                k + 1,
                objects.push(ObjectView { data: Some(files[k].data@), ..obj }),
            ),
            None => Some((pass1_left(st, ObjectView::empty(None), files[k].data@, 0).0, objects)),
        }
    }
}

/// What pass 1 leaves behind before the memory map is built, whether it
/// succeeds or fails: where an object file fails, what the files have done
/// by then; else what adding the library modules leaves behind.
pub open spec fn linked_left(
    st: LinkStateView,
    files: Seq<ObjectFile>,
    libs: Seq<Library>,
    objects: Seq<ObjectView>,
) -> (LinkStateView, Seq<ObjectView>) {
    match files_loaded(st, files, 0, objects) {
        Some((st2, objects2)) => library_modules_left(
            st2,
            undefined_names(st2.symbols),
            libs,
            objects2,
        ),
        None => files_left(st, files, 0, objects)->0,
    }
}

/// Executes pass 1 up to the memory map: parses all object files, then
/// pulls from the libraries the modules that resolve what is left
/// undefined.
pub fn pass1_load(
    state: &mut LinkState,
    objects: &mut Vec<Object>,
    libs: &Vec<Library>,
    files: &Vec<ObjectFile>,
) -> (r: Result<(), LinkerError>)
    requires
        old(state).wf(),
    ensures
        final(state).wf(),
        objects_wf(old(objects)@) ==> objects_wf(final(objects)@),
        match r {
            Ok(_) => linked(old(state)@, files@, libs@, object_views(old(objects)@)) == Some(
                (final(state)@, object_views(final(objects)@)),
            ),
            Err(_) => linked(old(state)@, files@, libs@, object_views(old(objects)@)) is None,
        },
        (final(state)@, object_views(final(objects)@)) == linked_left(
            old(state)@,
            files@,
            libs@,
            object_views(old(objects)@),
        ),
{
    let mut k: usize = 0;
    while k < files.len()
        invariant
            state.wf(),
            objects_wf(old(objects)@) ==> objects_wf(objects@),
            k <= files@.len(),
            files_loaded(state@, files@, k as int, object_views(objects@)) == files_loaded(
                old(state)@,
                files@,
                0,
                object_views(old(objects)@),
            ),
            files_left(state@, files@, k as int, object_views(objects@)) == files_left(
                old(state)@,
                files@,
                0,
                object_views(old(objects)@),
            ),
        decreases files@.len() - k,
    {
        let mut obj = Object::new();
        pass1_object(state, files[k].data.as_slice(), &mut obj, files[k].name.as_str())?;
        let ghost loaded = obj@;
        obj.data = Some(slice_to_vec(files[k].data.as_slice()));
        assert(obj@ == (ObjectView { data: Some(files@[k as int].data@), ..loaded }));
        let ghost views = object_views(objects@);
        let ghost view = obj@;
        objects.push(obj);
        assert(object_views(objects@) =~= views.push(view));
        k += 1;
    }
    pass1_add_library_modules(state, libs, objects)
}

/// Executes pass 1: parses all object files, pulls from the libraries the
/// modules that resolve what is left undefined, and builds the memory map.
pub fn pass1(
    state: &mut LinkState,
    objects: &mut Vec<Object>,
    libs: &Vec<Library>,
    files: &Vec<ObjectFile>,
) -> (r: Result<(), LinkerError>)
    requires
        old(state).wf(),
    ensures
        final(state).wf(),
        objects_wf(old(objects)@) ==> objects_wf(final(objects)@),
        match linked(old(state)@, files@, libs@, object_views(old(objects)@)) {
            Some((loaded, views)) => is_placement(loaded.segments, final(state)@.segment_order)
                && views == object_views(final(objects)@) && match r {
                Ok(_) => memory_mapped(loaded, final(state)@),
                Err(_) => !mappable(loaded, final(state)@.segment_order) && final(state)@ == (
                    LinkStateView { segment_order: final(state)@.segment_order, ..loaded }),
            },
            None => r is Err,
        },
        object_views(final(objects)@) == linked_left(
            old(state)@,
            files@,
            libs@,
            object_views(old(objects)@),
        ).1,
        linked(old(state)@, files@, libs@, object_views(old(objects)@)) is None ==> final(state)@
            == linked_left(old(state)@, files@, libs@, object_views(old(objects)@)).0,
{
    pass1_load(state, objects, libs, files)?;
    pass1_build_memory_map(state)
}

} // verus!
