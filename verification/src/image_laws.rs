//! What pass 2 leaves alone: the bytes of the image that no data record has
//! placed stay as they were, as long as the fixups keep to the data that
//! they belong to.

use crate::linkstate::LinkStateView;
use crate::object::ObjectView;
use crate::pass2::{
    assembled, fixup_subrecord, fixupp_record, fixupp_subrecord, image_size, objects_patched,
    pass2_outcome, pass2_record, pass2_records, tables, width_of, LastDataRegion, Locat,
    Pass2Totals, Pass2View, Patched,
};
use crate::record::{frame_length, frame_ok, frame_payload, read_byte, RecordType};
use vstd::prelude::*;

verus! {

/// Whether the address `i` lies in the data region `region`.
pub open spec fn in_region(region: LastDataRegion, i: int) -> bool {
    region.base <= i < region.base + region.length
}

/// Whether the fixup subrecord that starts with the byte `b0` keeps to the
/// data placed last: all of its location lies in that data.
pub open spec fn fixup_in_data(lastdata: LastDataRegion, b0: u8, payload: Seq<u8>, pos: int)
    -> bool {
    match read_byte(payload, pos) {
        Some((b1, _)) => {
            let locat = b0 as int * 256 + b1 as int;
            match Locat::decode(((locat / 1024) % 16) as u16) {
                Some(loctype) => locat % 1024 + width_of(loctype) <= lastdata.length,
                None => true,
            }
        },
        None => true,
    }
}

/// Whether the fixups of a FIXUPP record, from `pos` on, keep to the data
/// placed last.
pub open spec fn fixupp_in_data(
    st: LinkStateView,
    obj: ObjectView,
    lastdata: LastDataRegion,
    p: Patched,
    payload: Seq<u8>,
    pos: int,
) -> bool
    decreases payload.len() - pos,
{
    if pos >= payload.len() {
        true
    } else {
        match fixupp_subrecord(st, obj, lastdata, p, payload, pos) {
            Some((latched, q, next)) => {
                &&& payload[pos] >= 0x80 ==> fixup_in_data(lastdata, payload[pos], payload, pos + 1)
                &&& pos < next <= payload.len() ==> fixupp_in_data(
                    st,
                    latched,
                    lastdata,
                    q,
                    payload,
                    next,
                )
            },
            None => true,
        }
    }
}

/// What a record leaves behind, with the high-water mark raised.
pub open spec fn after_record(ty: RecordType, st: LinkStateView, s: Pass2View, payload: Seq<u8>)
    -> Option<Pass2View> {
    match pass2_record(ty, st, s, payload) {
        Some(s2) => Some(
            Pass2View { highwater: crate::pass2::raised(s2.highwater, s2.lastdata), ..s2 },
        ),
        None => None,
    }
}

/// Whether the fixups of the records of a module, from the record at `start`
/// on, keep to the data placed last.
pub open spec fn fixups_in_data(st: LinkStateView, s: Pass2View, data: Seq<u8>, start: int)
    -> bool
    decreases data.len() - start,
{
    if start >= data.len() || start < 0 || !frame_ok(data.skip(start)) {
        true
    } else {
        let ty = RecordType::decode(data[start])->0;
        let payload = frame_payload(data.skip(start));
        match after_record(ty, st, s, payload) {
            Some(s2) => {
                &&& ty == RecordType::FIXUPP ==> fixupp_in_data(
                    st,
                    s.obj,
                    s.lastdata,
                    s.patched,
                    payload,
                    0,
                )
                &&& ty != RecordType::MODEND ==> fixups_in_data(
                    st,
                    s2,
                    data,
                    start + frame_length(data.skip(start)) + 3,
                )
            },
            None => true,
        }
    }
}

/// Whether an LEDATA or LIDATA record of the module, from the record at
/// `start` on, places data at the address `i`.
pub open spec fn placed_at(st: LinkStateView, s: Pass2View, data: Seq<u8>, start: int, i: int)
    -> bool
    decreases data.len() - start,
{
    if start >= data.len() || start < 0 || !frame_ok(data.skip(start)) {
        false
    } else {
        let ty = RecordType::decode(data[start])->0;
        let payload = frame_payload(data.skip(start));
        match after_record(ty, st, s, payload) {
            Some(s2) => {
                ||| (ty == RecordType::LEDATA || ty == RecordType::LIDATA) && in_region(
                    s2.lastdata,
                    i,
                )
                ||| ty != RecordType::MODEND && placed_at(
                    st,
                    s2,
                    data,
                    start + frame_length(data.skip(start)) + 3,
                    i,
                )
            },
            None => false,
        }
    }
}

/// A fixup that keeps to the data placed last changes no byte outside of
/// that data.
proof fn lemma_fixup_keeps_to_data(
    st: LinkStateView,
    obj: ObjectView,
    lastdata: LastDataRegion,
    p: Patched,
    b0: u8,
    payload: Seq<u8>,
    pos: int,
    i: int,
)
    requires
        fixup_in_data(lastdata, b0, payload, pos),
        0 <= i < p.image.len(),
        !in_region(lastdata, i),
    ensures
        match fixup_subrecord(st, obj, lastdata, p, b0, payload, pos) {
            Some((q, _)) => q.image.len() == p.image.len() && q.image[i] == p.image[i],
            None => true,
        },
{
}

/// The fixups of a FIXUPP record that keep to the data placed last change
/// no byte outside of that data.
proof fn lemma_fixupp_keeps_to_data(
    st: LinkStateView,
    obj: ObjectView,
    lastdata: LastDataRegion,
    p: Patched,
    payload: Seq<u8>,
    pos: int,
    i: int,
)
    requires
        fixupp_in_data(st, obj, lastdata, p, payload, pos),
        0 <= i < p.image.len(),
        !in_region(lastdata, i),
    ensures
        match fixupp_record(st, obj, lastdata, p, payload, pos) {
            Some((_, q)) => q.image.len() == p.image.len() && q.image[i] == p.image[i],
            None => true,
        },
    decreases payload.len() - pos,
{
    if pos < payload.len() {
        match fixupp_subrecord(st, obj, lastdata, p, payload, pos) {
            Some((latched, q, next)) => {
                assert(q.image.len() == p.image.len() && q.image[i] == p.image[i]) by {
                    reveal(fixupp_subrecord);
                    if payload[pos] >= 0x80 {
                        lemma_fixup_keeps_to_data(
                            st,
                            obj,
                            lastdata,
                            p,
                            payload[pos],
                            payload,
                            pos + 1,
                            i,
                        );
                    }
                }
                if pos < next <= payload.len() {
                    lemma_fixupp_keeps_to_data(st, latched, lastdata, q, payload, next, i);
                }
            },
            None => {},
        }
    }
}

/// One record changes no byte of the image but those of the data that it
/// places, or, where its fixups keep to it, of the data placed last.
proof fn lemma_record_keeps_to_data(
    ty: RecordType,
    st: LinkStateView,
    s: Pass2View,
    payload: Seq<u8>,
    i: int,
)
    requires
        0 <= i < s.patched.image.len(),
        ty == RecordType::FIXUPP ==> fixupp_in_data(
            st,
            s.obj,
            s.lastdata,
            s.patched,
            payload,
            0,
        ) && !in_region(s.lastdata, i),
    ensures
        match pass2_record(ty, st, s, payload) {
            Some(s2) => {
                &&& s2.patched.image.len() == s.patched.image.len()
                &&& ty == RecordType::LEDATA || ty == RecordType::LIDATA || s2.lastdata
                    == s.lastdata
                &&& ((ty == RecordType::LEDATA || ty == RecordType::LIDATA) && in_region(
                    s2.lastdata,
                    i,
                )) || s2.patched.image[i] == s.patched.image[i]
            },
            None => true,
        },
{
    reveal(pass2_record);
    if ty == RecordType::FIXUPP {
        lemma_fixupp_keeps_to_data(st, s.obj, s.lastdata, s.patched, payload, 0, i);
    }
}

/// The bytes of the image at which the records of a module place no data
/// stay as they were, where the fixups keep to the data placed last.
pub proof fn lemma_image_outside_of_data(
    st: LinkStateView,
    s: Pass2View,
    data: Seq<u8>,
    start: int,
    i: int,
)
    requires
        fixups_in_data(st, s, data, start),
        0 <= i < s.patched.image.len(),
        !in_region(s.lastdata, i),
        !placed_at(st, s, data, start, i),
    ensures
        match pass2_records(st, s, data, start) {
            Some(t) => {
                &&& t.patched.image.len() == s.patched.image.len()
                &&& t.patched.image[i] == s.patched.image[i]
            },
            None => true,
        },
    decreases data.len() - start,
{
    if 0 <= start < data.len() && frame_ok(data.skip(start)) {
        let ty = RecordType::decode(data[start])->0;
        let payload = frame_payload(data.skip(start));
        match after_record(ty, st, s, payload) {
            Some(s2) => {
                lemma_record_keeps_to_data(ty, st, s, payload, i);
                if ty != RecordType::MODEND {
                    lemma_image_outside_of_data(
                        st,
                        s2,
                        data,
                        start + frame_length(data.skip(start)) + 3,
                        i,
                    );
                }
            },
            None => {},
        }
    }
}

/// What pass 2 starts the records of the object `obj` with.
pub open spec fn object_start(obj: ObjectView, t: Pass2Totals) -> Pass2View {
    Pass2View {
        obj: ObjectView { data: None, ..obj },
        patched: t.patched,
        entry: t.entry,
        lastdata: LastDataRegion { frame: 0, base: 0, length: 0 },
        highwater: t.highwater,
    }
}

/// What pass 2 has come to once the records of an object are through.
pub open spec fn object_end(s: Pass2View, t: Pass2Totals, data: Seq<u8>) -> Pass2Totals {
    Pass2Totals {
        objects: t.objects.push(ObjectView { data: Some(data), ..s.obj }),
        patched: s.patched,
        entry: s.entry,
        highwater: s.highwater,
    }
}

/// Whether the fixups of the objects from `objects[k]` on keep to the data
/// placed last.
pub open spec fn all_fixups_in_data(
    st: LinkStateView,
    objects: Seq<ObjectView>,
    k: int,
    t: Pass2Totals,
) -> bool
    decreases objects.len() - k,
{
    if k < 0 || k >= objects.len() {
        true
    } else {
        match objects[k].data {
            Some(data) => {
                &&& fixups_in_data(st, object_start(objects[k], t), data, 0)
                &&& match pass2_records(st, object_start(objects[k], t), data, 0) {
                    Some(s) => all_fixups_in_data(st, objects, k + 1, object_end(s, t, data)),
                    None => true,
                }
            },
            None => true,
        }
    }
}

/// Whether an LEDATA or LIDATA record of the objects from `objects[k]` on
/// places data at the address `i`.
pub open spec fn placed_by_objects(
    st: LinkStateView,
    objects: Seq<ObjectView>,
    k: int,
    t: Pass2Totals,
    i: int,
) -> bool
    decreases objects.len() - k,
{
    if k < 0 || k >= objects.len() {
        false
    } else {
        match objects[k].data {
            Some(data) => {
                ||| placed_at(st, object_start(objects[k], t), data, 0, i)
                ||| match pass2_records(st, object_start(objects[k], t), data, 0) {
                    Some(s) => placed_by_objects(st, objects, k + 1, object_end(s, t, data), i),
                    None => false,
                }
            },
            None => false,
        }
    }
}

/// The bytes of the image at which no record of any object places data stay
/// as they were, where the fixups keep to the data placed last.
pub proof fn lemma_image_outside_of_all_data(
    st: LinkStateView,
    objects: Seq<ObjectView>,
    k: int,
    t: Pass2Totals,
    i: int,
)
    requires
        all_fixups_in_data(st, objects, k, t),
        0 <= i < t.patched.image.len(),
        !placed_by_objects(st, objects, k, t, i),
    ensures
        match objects_patched(st, objects, k, t) {
            Some(u) => {
                &&& u.patched.image.len() == t.patched.image.len()
                &&& u.patched.image[i] == t.patched.image[i]
            },
            None => true,
        },
    decreases objects.len() - k,
{
    if 0 <= k < objects.len() {
        match objects[k].data {
            Some(data) => {
                let s0 = object_start(objects[k], t);
                lemma_image_outside_of_data(st, s0, data, 0, i);
                match pass2_records(st, s0, data, 0) {
                    Some(s) => {
                        lemma_image_outside_of_all_data(
                            st,
                            objects,
                            k + 1,
                            object_end(s, t, data),
                            i,
                        );
                    },
                    None => {},
                }
            },
            None => {},
        }
    }
}

/// What pass 2 starts with: an image of zeros.
pub open spec fn pass2_start(st: LinkStateView) -> Pass2Totals {
    Pass2Totals {
        objects: Seq::empty(),
        patched: Patched {
            image: Seq::new(image_size(st)->0 as nat, |i: int| 0u8),
            relocs: Seq::empty(),
            warnings: st.warnings,
        },
        entry: st.entry,
        highwater: 0,
    }
}

/// In the image of the executable the bytes at which no LEDATA or LIDATA
/// record has placed data are zero, where the fixups keep to the data
/// placed last.
pub proof fn lemma_unplaced_bytes_are_zero(st: LinkStateView, objects: Seq<ObjectView>, i: int)
    requires
        pass2_outcome(st, objects) is Some,
        all_fixups_in_data(tables(st), objects, 0, pass2_start(st)),
        0 <= i < pass2_outcome(st, objects)->0.exe.data.len(),
        !placed_by_objects(tables(st), objects, 0, pass2_start(st), i),
    ensures
        pass2_outcome(st, objects)->0.exe.data[i] == 0,
{
    let t = pass2_start(st);
    match objects_patched(tables(st), objects, 0, t) {
        Some(u) => {
            assert(pass2_outcome(st, objects) == assembled(st, u));
            assert(u.highwater <= u.patched.image.len());
            if i < t.patched.image.len() {
                lemma_image_outside_of_all_data(tables(st), objects, 0, t, i);
            } else {
                lemma_length_kept(tables(st), objects, 0, t);
            }
        },
        None => {},
    }
}

/// Pass 2 does not change the length of the image.
proof fn lemma_length_kept(st: LinkStateView, objects: Seq<ObjectView>, k: int, t: Pass2Totals)
    ensures
        match objects_patched(st, objects, k, t) {
            Some(u) => u.patched.image.len() == t.patched.image.len(),
            None => true,
        },
    decreases objects.len() - k,
{
    if 0 <= k < objects.len() {
        match objects[k].data {
            Some(data) => {
                let s0 = object_start(objects[k], t);
                lemma_records_keep_length(st, s0, data, 0);
                match pass2_records(st, s0, data, 0) {
                    Some(s) => {
                        lemma_length_kept(st, objects, k + 1, object_end(s, t, data));
                    },
                    None => {},
                }
            },
            None => {},
        }
    }
}

proof fn lemma_fixupp_keeps_length(
    st: LinkStateView,
    obj: ObjectView,
    lastdata: LastDataRegion,
    p: Patched,
    payload: Seq<u8>,
    pos: int,
)
    ensures
        match fixupp_record(st, obj, lastdata, p, payload, pos) {
            Some((_, q)) => q.image.len() == p.image.len(),
            None => true,
        },
    decreases payload.len() - pos,
{
    if pos < payload.len() {
        match fixupp_subrecord(st, obj, lastdata, p, payload, pos) {
            Some((latched, q, next)) => {
                assert(q.image.len() == p.image.len()) by {
                    reveal(fixupp_subrecord);
                }
                if pos < next <= payload.len() {
                    lemma_fixupp_keeps_length(st, latched, lastdata, q, payload, next);
                }
            },
            None => {},
        }
    }
}

proof fn lemma_records_keep_length(st: LinkStateView, s: Pass2View, data: Seq<u8>, start: int)
    ensures
        match pass2_records(st, s, data, start) {
            Some(t) => t.patched.image.len() == s.patched.image.len(),
            None => true,
        },
    decreases data.len() - start,
{
    if 0 <= start < data.len() && frame_ok(data.skip(start)) {
        let ty = RecordType::decode(data[start])->0;
        let payload = frame_payload(data.skip(start));
        match after_record(ty, st, s, payload) {
            Some(s2) => {
                assert(s2.patched.image.len() == s.patched.image.len()) by {
                    reveal(pass2_record);
                    lemma_fixupp_keeps_length(st, s.obj, s.lastdata, s.patched, payload, 0);
                }
                if ty != RecordType::MODEND {
                    lemma_records_keep_length(
                        st,
                        s2,
                        data,
                        start + frame_length(data.skip(start)) + 3,
                    );
                }
            },
            None => {},
        }
    }
}

} // verus!
