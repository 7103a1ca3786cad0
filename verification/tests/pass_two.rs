use omflink::dosexe::Relocation;
use omflink::group::Group;
use omflink::linkstate::{FarPtr, LinkState, Warning};
use omflink::object::Object;
use omflink::pass2::{
    accum_lidata, base_of_obj_seg_offset, fixup_extdef_base, fixup_extdef_frame,
    fixup_grpdef_base, fixup_grpdef_frame, fixup_segdef_base, fixup_segdef_frame, pass2,
    pass2_fixup_data, pass2_fixupp, pass2_fixupp_fixup, pass2_fixupp_thread, pass2_ledata,
    pass2_lidata, pass2_modend, pass2_object, FrameThread, FrameType, LastDataRegion, Locat,
    TargetThread, TargetType, ThreadState,
};
use omflink::record::Record;
use omflink::segment::{Align, Combine, SegDef, SegName, Segment};
use omflink::symbols::Symbol;

fn record(ty: u8, payload: &[u8]) -> Vec<u8> {
    let len = payload.len() + 1;
    let mut bytes = vec![ty, (len & 0xff) as u8, (len >> 8) as u8];
    bytes.extend_from_slice(payload);
    bytes.push(0);
    bytes
}

/// A state of two segments, at 0x100 (0x40 long) and at 0x230 (8 long), of
/// which the second is in a group at 0x230, and an object that has a part of
/// each: 0x20 bytes at 0x10 of the first, all of the second.
fn fixture() -> (LinkState, Object) {
    let mut state = LinkState::new();
    let mut text = Segment::new(SegName::new(1, 2, 0), 0x40, Align::Para, Combine::Public);
    text.base = 0x100;
    state.segments.push(text);
    let mut data = Segment::new(SegName::new(3, 4, 0), 8, Align::Para, Combine::Public);
    data.base = 0x230;
    data.group = 1;
    state.segments.push(data);
    let mut group = Group::new(5);
    group.add(2);
    group.base = 0x230;
    state.groups.push(group);
    state.segment_order = vec![1, 2];

    let mut obj = Object::new();
    let mut part = SegDef::new(1, 0x20, 0x68, Align::Para, Combine::Public);
    part.base = 0x10;
    obj.segdefs.push(part);
    obj.segdefs.push(SegDef::new(2, 8, 0x68, Align::Para, Combine::Public));
    obj.grpdefs.add(1);
    obj.extdefs.push("far_away".to_string());
    obj.extdefs.push("absolute".to_string());
    obj.extdefs.push("missing".to_string());
    obj.extdefs.push("grouped".to_string());
    state.symbols.update("far_away", Symbol::public(0, 1, 0, 0x33)).unwrap();
    state.symbols.update("absolute", Symbol::public(0, 0, 0x1234, 0x0056)).unwrap();
    state.symbols.update("missing", Symbol::Undefined).unwrap();
    state.symbols.update("grouped", Symbol::public(1, 2, 0, 4)).unwrap();
    (state, obj)
}

#[test]
fn decoding_of_methods() {
    assert_eq!(TargetType::from_byte(0).unwrap(), TargetType::SEGDEF);
    assert_eq!(TargetType::from_byte(1).unwrap(), TargetType::GRPDEF);
    assert_eq!(TargetType::from_byte(2).unwrap(), TargetType::EXTDEF);
    assert_eq!(TargetType::from_byte(3).unwrap(), TargetType::Frame);
    assert!(TargetType::from_byte(4).is_err());
    assert_eq!(FrameType::from_byte(0).unwrap(), FrameType::SEGDEF);
    assert_eq!(FrameType::from_byte(1).unwrap(), FrameType::GRPDEF);
    assert_eq!(FrameType::from_byte(2).unwrap(), FrameType::EXTDEF);
    assert_eq!(FrameType::from_byte(3).unwrap(), FrameType::ExplicitFrame);
    assert_eq!(FrameType::from_byte(4).unwrap(), FrameType::SegOfPrevData);
    assert_eq!(FrameType::from_byte(5).unwrap(), FrameType::FromTarget);
    assert!(FrameType::from_byte(6).is_err());
    assert!(FrameType::from_byte(7).is_err());
    assert_eq!(Locat::new(0).unwrap(), Locat::LowOrderByte);
    assert_eq!(Locat::new(1).unwrap(), Locat::Offset16);
    assert_eq!(Locat::new(5).unwrap(), Locat::Offset16);
    assert_eq!(Locat::new(2).unwrap(), Locat::Segment16);
    assert_eq!(Locat::new(3).unwrap(), Locat::FarPointer);
    assert!(Locat::new(4).is_err());
    assert!(Locat::new(6).is_err());
    assert!(Locat::new(15).is_err());
}

#[test]
fn threads_start_undefined() {
    let threads = ThreadState::new();
    assert_eq!(threads.target_threads, [TargetThread::new(); 4]);
    assert_eq!(threads.frame_threads, [FrameThread::new(); 4]);
    assert_eq!(TargetThread::new(), TargetThread { target_type: None, target_index: 0 });
    assert_eq!(FrameThread::new(), FrameThread { frame_type: None, frame_index: 0 });
}

#[test]
fn bases_and_frames() {
    let (state, obj) = fixture();
    assert_eq!(fixup_segdef_base(&state, &obj, 1).unwrap(), 0x100);
    assert_eq!(fixup_segdef_frame(&state, &obj, 1).unwrap(), 0x10);
    assert_eq!(fixup_segdef_base(&state, &obj, 2).unwrap(), 0x230);
    assert_eq!(fixup_segdef_frame(&state, &obj, 2).unwrap(), 0x23);
    assert!(fixup_segdef_base(&state, &obj, 0).is_err());
    assert!(fixup_segdef_frame(&state, &obj, 3).is_err());
    assert_eq!(fixup_grpdef_base(&state, &obj, 1).unwrap(), 0x230);
    assert_eq!(fixup_grpdef_frame(&state, &obj, 1).unwrap(), 0x23);
    assert!(fixup_grpdef_base(&state, &obj, 0).is_err());
    assert!(fixup_grpdef_frame(&state, &obj, 2).is_err());
    assert_eq!(fixup_extdef_base(&state, &obj, 1).unwrap(), 0x133);
    assert_eq!(fixup_extdef_frame(&state, &obj, 1).unwrap(), 0x10);
    assert_eq!(fixup_extdef_base(&state, &obj, 2).unwrap(), 0x56);
    assert_eq!(fixup_extdef_frame(&state, &obj, 2).unwrap(), 0x1234);
    assert!(fixup_extdef_base(&state, &obj, 3).is_err());
    assert!(fixup_extdef_frame(&state, &obj, 3).is_err());
    assert_eq!(fixup_extdef_base(&state, &obj, 4).unwrap(), 0x234);
    assert_eq!(fixup_extdef_frame(&state, &obj, 4).unwrap(), 0x23);
    assert!(fixup_extdef_base(&state, &obj, 0).is_err());
    assert!(fixup_extdef_frame(&state, &obj, 5).is_err());
}

#[test]
fn data_ranges() {
    let (state, obj) = fixture();
    assert_eq!(base_of_obj_seg_offset(&obj, 1, 0, &state, 0x20, "LEDATA").unwrap(), 0x110);
    assert_eq!(base_of_obj_seg_offset(&obj, 1, 0x1f, &state, 1, "LEDATA").unwrap(), 0x12f);
    assert_eq!(base_of_obj_seg_offset(&obj, 2, 3, &state, 0, "LEDATA").unwrap(), 0x233);
    assert!(base_of_obj_seg_offset(&obj, 1, 0x1f, &state, 2, "LEDATA").is_err());
    assert!(base_of_obj_seg_offset(&obj, 1, 0x20, &state, 0, "LEDATA").is_err());
    assert!(base_of_obj_seg_offset(&obj, 0, 0, &state, 0, "LEDATA").is_err());
    assert!(base_of_obj_seg_offset(&obj, 3, 0, &state, 0, "LEDATA").is_err());
}

#[test]
fn ledata_copies_and_remembers() {
    let (state, obj) = fixture();
    let mut image = vec![0u8; 0x238];
    let mut lastdata = LastDataRegion { frame: 0, base: 0, length: 0 };
    let bytes = record(0xa0, &[0x01, 0x04, 0x00, 0xde, 0xad, 0xbe, 0xef]);
    let mut rec = Record::new(&bytes).unwrap();
    pass2_ledata(&mut rec, &state, &obj, &mut image, &mut lastdata).unwrap();
    assert_eq!(lastdata, LastDataRegion { frame: 0x11, base: 0x114, length: 4 });
    assert_eq!(&image[0x114..0x118], [0xde, 0xad, 0xbe, 0xef]);
    assert!(image[..0x114].iter().all(|b| *b == 0));
    assert!(image[0x118..].iter().all(|b| *b == 0));
    assert_eq!(image.len(), 0x238);

    let bytes = record(0xa0, &[0x01, 0x1e, 0x00, 0x01, 0x02, 0x03]);
    let mut rec = Record::new(&bytes).unwrap();
    assert!(pass2_ledata(&mut rec, &state, &obj, &mut image, &mut lastdata).is_err());
    assert_eq!(lastdata, LastDataRegion { frame: 0x11, base: 0x114, length: 4 });
    assert!(image[0x118..].iter().all(|b| *b == 0));

    let mut short = vec![0u8; 0x116];
    let bytes = record(0xa0, &[0x01, 0x04, 0x00, 0xde, 0xad, 0xbe, 0xef]);
    let mut rec = Record::new(&bytes).unwrap();
    assert!(pass2_ledata(&mut rec, &state, &obj, &mut short, &mut lastdata).is_err());
    assert!(short.iter().all(|b| *b == 0));
}

#[test]
fn lidata_expands_nested_blocks() {
    // 2 x ( 3 x "ab", 1 x "c" )
    let block = [
        0x02, 0x00, 0x02, 0x00, 0x03, 0x00, 0x00, 0x00, 0x02, b'a', b'b', 0x01, 0x00, 0x00, 0x00,
        0x01, b'c',
    ];
    let bytes = record(0xa2, &block);
    let mut rec = Record::new(&bytes).unwrap();
    let mut accum = vec![b'>'];
    accum_lidata(&mut rec, &mut accum).unwrap();
    assert_eq!(accum, b">abababcabababc");
    assert!(rec.end());

    let bytes = record(0xa2, &[0x00, 0x00, 0x00, 0x00, 0x02, b'a', b'b']);
    let mut rec = Record::new(&bytes).unwrap();
    let mut accum = Vec::new();
    accum_lidata(&mut rec, &mut accum).unwrap();
    assert!(accum.is_empty());

    let bytes = record(0xa2, &[0x01, 0x00, 0x02, 0x00, 0x01, 0x00, 0x00, 0x00, 0x01, b'a']);
    let mut rec = Record::new(&bytes).unwrap();
    assert!(accum_lidata(&mut rec, &mut accum).is_err());
    let bytes = record(0xa2, &[0x01, 0x00, 0x00, 0x00, 0x03, b'a']);
    let mut rec = Record::new(&bytes).unwrap();
    assert!(accum_lidata(&mut rec, &mut accum).is_err());
}

#[test]
fn lidata_places_the_expansion() {
    let (state, obj) = fixture();
    let mut image = vec![0u8; 0x238];
    let mut lastdata = LastDataRegion { frame: 0, base: 0, length: 0 };
    let mut payload = vec![0x02, 0x01, 0x00];
    payload.extend([0x03, 0x00, 0x00, 0x00, 0x01, 0x55]);
    payload.extend([0x01, 0x00, 0x00, 0x00, 0x02, 0x66, 0x77]);
    let bytes = record(0xa2, &payload);
    let mut rec = Record::new(&bytes).unwrap();
    pass2_lidata(&mut rec, &state, &obj, &mut image, &mut lastdata).unwrap();
    assert_eq!(lastdata, LastDataRegion { frame: 0x23, base: 0x231, length: 5 });
    assert_eq!(&image[0x230..0x238], [0, 0x55, 0x55, 0x55, 0x66, 0x77, 0, 0]);

    let mut payload = vec![0x02, 0x00, 0x00];
    payload.extend([0x09, 0x00, 0x00, 0x00, 0x01, 0x55]);
    let bytes = record(0xa2, &payload);
    let mut rec = Record::new(&bytes).unwrap();
    assert!(pass2_lidata(&mut rec, &state, &obj, &mut image, &mut lastdata).is_err());
    assert_eq!(&image[0x230..0x238], [0, 0x55, 0x55, 0x55, 0x66, 0x77, 0, 0]);
}

#[test]
fn thread_subrecords_latch() {
    let (_, mut obj) = fixture();
    // Frame thread 2, method GRPDEF, index 1.
    let bytes = record(0x9c, &[0x01]);
    let mut rec = Record::new(&bytes).unwrap();
    pass2_fixupp_thread(&mut rec, &mut obj, 0x40 | (1 << 2) | 2).unwrap();
    assert_eq!(
        obj.fixup_threads.frame_threads[2],
        FrameThread { frame_type: Some(FrameType::GRPDEF), frame_index: 1 }
    );
    assert!(rec.end());
    // Frame thread 0, method "segment of previous data": no index.
    let mut rec = Record::new(&bytes).unwrap();
    pass2_fixupp_thread(&mut rec, &mut obj, 0x40 | (4 << 2)).unwrap();
    assert_eq!(
        obj.fixup_threads.frame_threads[0],
        FrameThread { frame_type: Some(FrameType::SegOfPrevData), frame_index: 0 }
    );
    assert!(!rec.end());
    // Target thread 3, method EXTDEF, long index.
    let bytes = record(0x9c, &[0x81, 0x02]);
    let mut rec = Record::new(&bytes).unwrap();
    pass2_fixupp_thread(&mut rec, &mut obj, (2 << 2) | 3).unwrap();
    assert_eq!(
        obj.fixup_threads.target_threads[3],
        TargetThread { target_type: Some(TargetType::EXTDEF), target_index: 0x102 }
    );
    assert_eq!(obj.fixup_threads.target_threads[0], TargetThread::new());
    // A target that is a frame, a frame method that does not exist, a
    // missing index.
    let mut rec = Record::new(&bytes).unwrap();
    assert!(pass2_fixupp_thread(&mut rec, &mut obj, 3 << 2).is_err());
    let mut rec = Record::new(&bytes).unwrap();
    assert!(pass2_fixupp_thread(&mut rec, &mut obj, 0x40 | (6 << 2)).is_err());
    let bytes = record(0x9c, &[]);
    let mut rec = Record::new(&bytes).unwrap();
    assert!(pass2_fixupp_thread(&mut rec, &mut obj, 0x40).is_err());
}

fn fixup_data_of(payload: &[u8], state: &LinkState, obj: &Object) -> Option<(u16, usize)> {
    let lastdata = LastDataRegion { frame: 0x10, base: 0x114, length: 4 };
    let bytes = record(0x9c, payload);
    let mut rec = Record::new(&bytes).unwrap();
    let r = pass2_fixup_data(&mut rec, state, obj, &lastdata).ok();
    if r.is_some() {
        assert!(rec.end());
    }
    r
}

#[test]
fn fixup_data_frames_and_targets() {
    let (state, mut obj) = fixture();
    // Frame SEGDEF 2, target SEGDEF 1, displacement 0x0102.
    assert_eq!(
        fixup_data_of(&[0x00, 0x02, 0x01, 0x02, 0x01], &state, &obj),
        Some((0x23, 0x100 + 0x10 + 0x102))
    );
    // Frame GRPDEF 1, target GRPDEF 1, no displacement.
    assert_eq!(fixup_data_of(&[0x15, 0x01, 0x01], &state, &obj), Some((0x23, 0x230)));
    // Frame EXTDEF 2 (absolute), target EXTDEF 1, no displacement.
    assert_eq!(fixup_data_of(&[0x26, 0x02, 0x01], &state, &obj), Some((0x1234, 0x133)));
    // Explicit frame 0xbeef, target EXTDEF 2, displacement 1.
    assert_eq!(
        fixup_data_of(&[0x32, 0xef, 0xbe, 0x02, 0x01, 0x00], &state, &obj),
        Some((0xbeef, 0x57))
    );
    // Frame of the data placed last, target SEGDEF 2.
    assert_eq!(fixup_data_of(&[0x44, 0x02], &state, &obj), Some((0x11, 0x230)));
    // Frame from the target, for each kind of target.
    assert_eq!(fixup_data_of(&[0x54, 0x01], &state, &obj), Some((0x10, 0x110)));
    assert_eq!(fixup_data_of(&[0x55, 0x01], &state, &obj), Some((0x23, 0x230)));
    assert_eq!(fixup_data_of(&[0x56, 0x04], &state, &obj), Some((0x23, 0x234)));
    // Invalid frame methods, a target that is a frame, unknown indices, an
    // undefined external, missing bytes.
    assert_eq!(fixup_data_of(&[0x64, 0x01], &state, &obj), None);
    assert_eq!(fixup_data_of(&[0x74, 0x01], &state, &obj), None);
    assert_eq!(fixup_data_of(&[0x57, 0x01], &state, &obj), None);
    assert_eq!(fixup_data_of(&[0x54, 0x03], &state, &obj), None);
    assert_eq!(fixup_data_of(&[0x04, 0x03, 0x01], &state, &obj), None);
    assert_eq!(fixup_data_of(&[0x56, 0x03], &state, &obj), None);
    assert_eq!(fixup_data_of(&[0x50, 0x01, 0x02], &state, &obj), None);
    assert_eq!(fixup_data_of(&[], &state, &obj), None);
    // Threads: undefined at first, then as latched.
    assert_eq!(fixup_data_of(&[0x94, 0x01], &state, &obj), None);
    assert_eq!(fixup_data_of(&[0x5d], &state, &obj), None);
    obj.fixup_threads.frame_threads[1] =
        FrameThread { frame_type: Some(FrameType::SEGDEF), frame_index: 2 };
    obj.fixup_threads.target_threads[1] =
        TargetThread { target_type: Some(TargetType::EXTDEF), target_index: 1 };
    assert_eq!(fixup_data_of(&[0x94, 0x01], &state, &obj), Some((0x23, 0x110)));
    assert_eq!(fixup_data_of(&[0x5d], &state, &obj), Some((0x10, 0x133)));
    assert_eq!(fixup_data_of(&[0x99, 0x07, 0x00], &state, &obj), Some((0x23, 0x13a)));
}

struct Fixed {
    image: Vec<u8>,
    relocs: Vec<Relocation>,
    warnings: Vec<Warning>,
}

/// Applies one fixup subrecord to an image of 0x240 bytes that holds 0x11,
/// 0x22, ... from 0x114 on, where the data placed last starts.
fn fix(subrecord: &[u8], image_len: usize) -> Option<Fixed> {
    let (mut state, obj) = fixture();
    let lastdata = LastDataRegion { frame: 0x10, base: 0x114, length: 8 };
    let mut image = vec![0u8; image_len];
    for (i, b) in [0x11u8, 0x22, 0x33, 0x44, 0x55, 0x66, 0x77, 0x88].iter().enumerate() {
        if 0x114 + i < image_len {
            image[0x114 + i] = *b;
        }
    }
    let mut relocs = Vec::new();
    let bytes = record(0x9c, &subrecord[1..]);
    let mut rec = Record::new(&bytes).unwrap();
    let before = image.len();
    let r = pass2_fixupp_fixup(
        &mut rec,
        &mut state,
        &obj,
        &mut image,
        subrecord[0],
        &lastdata,
        &mut relocs,
    );
    assert_eq!(image.len(), before);
    r.ok().map(|_| Fixed { image, relocs, warnings: state.warnings })
}

#[test]
fn segment_relative_fixups() {
    // Offset16 at offset 2: target SEGDEF 1 + 0x0102 in its own frame:
    // 0x212 - 0x100 = 0x112, added to 0x4433.
    let fixed = fix(&[0xc4, 0x02, 0x50, 0x01, 0x02, 0x01], 0x240).unwrap();
    assert_eq!(&fixed.image[0x114..0x11c], [0x11, 0x22, 0x45, 0x45, 0x55, 0x66, 0x77, 0x88]);
    assert!(fixed.relocs.is_empty());
    assert!(fixed.warnings.is_empty());

    // Low byte at offset 0: 0x12 added to 0x11.
    let fixed = fix(&[0xc0, 0x00, 0x50, 0x01, 0x02, 0x01], 0x240).unwrap();
    assert_eq!(&fixed.image[0x114..0x117], [0x23, 0x22, 0x33]);
    assert!(fixed.relocs.is_empty());

    // Segment16 at offset 4: frame 0x23 of SEGDEF 2 added to 0x6655, and a
    // relocation for the word, in the frame 0x10 of the data.
    let fixed = fix(&[0xc8, 0x04, 0x54, 0x02], 0x240).unwrap();
    assert_eq!(&fixed.image[0x114..0x11c], [0x11, 0x22, 0x33, 0x44, 0x78, 0x66, 0x77, 0x88]);
    assert_eq!(fixed.relocs, [Relocation { seg: 0x10, offset: 0x18 }]);
    assert!(fixed.warnings.is_empty());

    // Far pointer at offset 1: offset 4 of "grouped" in the frame 0x23 of its
    // group added to 0x3322, the frame to 0x5544, and a relocation for the
    // second word.
    let fixed = fix(&[0xcc, 0x01, 0x56, 0x04], 0x240).unwrap();
    assert_eq!(&fixed.image[0x114..0x11c], [0x11, 0x26, 0x33, 0x67, 0x55, 0x66, 0x77, 0x88]);
    assert_eq!(fixed.relocs, [Relocation { seg: 0x10, offset: 0x17 }]);

    // Nothing else changes.
    assert!(fixed.image[..0x114].iter().all(|b| *b == 0));
    assert!(fixed.image[0x11c..].iter().all(|b| *b == 0));
}

#[test]
fn fixup_sums_wrap_around() {
    // Offset16: 0x112 + 0xff00 added to 0x4433 wraps.
    let fixed = fix(&[0xc4, 0x02, 0x50, 0x01, 0x02, 0xff], 0x240).unwrap();
    assert_eq!(&fixed.image[0x116..0x118], [0x45, 0x43]);
    assert!(fixed.warnings.is_empty());
    // The target lies below the frame: explicit frame 0x20, target at 0x110.
    let fixed = fix(&[0xc4, 0x02, 0x34, 0x20, 0x00, 0x01], 0x240).unwrap();
    assert_eq!(fixed.warnings, [Warning::FixupOverflow]);
    // 0x110 - 0x200 = -0xf0, added to 0x4433: 0x4343.
    assert_eq!(&fixed.image[0x116..0x118], [0x43, 0x43]);
    // The target lies more than 64 KiB above the frame 0.
    let (mut state, obj) = fixture();
    let mut high = *state.segments.get(1);
    high.base = 0x20000;
    state.segments.set(1, high);
    let lastdata = LastDataRegion { frame: 0, base: 0, length: 4 };
    let mut image = vec![0u8; 4];
    let mut relocs = Vec::new();
    let bytes = record(0x9c, &[0x00, 0x34, 0x00, 0x00, 0x01]);
    let mut rec = Record::new(&bytes).unwrap();
    pass2_fixupp_fixup(&mut rec, &mut state, &obj, &mut image, 0xc4, &lastdata, &mut relocs)
        .unwrap();
    assert_eq!(state.warnings, [Warning::FixupOverflow]);
    assert_eq!(image, [0x10, 0x00, 0, 0]);
}

#[test]
fn fixups_outside_of_the_image_are_skipped() {
    for (subrecord, len) in [
        (vec![0xc4u8, 0x02, 0x54, 0x01], 0x117),
        (vec![0xc8, 0x02, 0x54, 0x01], 0x117),
        (vec![0xcc, 0x02, 0x54, 0x01], 0x119),
        (vec![0xc0, 0x02, 0x54, 0x01], 0x116),
        (vec![0x84, 0x02, 0x54, 0x01], 0x117),
    ] {
        let fixed = fix(&subrecord, len).unwrap();
        assert_eq!(fixed.warnings.last(), Some(&Warning::FixupOutsideImage { location: 0x116 }));
        assert!(fixed.relocs.is_empty());
        let untouched = fix(&[0xc0, 0x00, 0x34, 0x00, 0x00, 0x01], len).unwrap();
        assert_eq!(fixed.image[0x115..], untouched.image[0x115..]);
    }
}

#[test]
fn self_relative_fixups() {
    // Offset16 at offset 3, target "far_away" at 0x133: the distance from
    // 0x119 is 0x1a, added to 0x5544.
    let fixed = fix(&[0x84, 0x03, 0x56, 0x01], 0x240).unwrap();
    assert_eq!(&fixed.image[0x114..0x11c], [0x11, 0x22, 0x33, 0x5e, 0x55, 0x66, 0x77, 0x88]);
    assert!(fixed.relocs.is_empty());
    assert!(fixed.warnings.is_empty());
    // A target behind the location: SEGDEF 1 at 0x110, from 0x116: -6.
    let fixed = fix(&[0x84, 0x00, 0x54, 0x01], 0x240).unwrap();
    assert_eq!(&fixed.image[0x114..0x116], [0x0b, 0x22]);
    // The location lies outside of the frame 0x23 of the target.
    let fixed = fix(&[0x84, 0x00, 0x54, 0x02], 0x240).unwrap();
    assert_eq!(fixed.warnings, [Warning::FixupOutsideFrame { location: 0x114, frame: 0x23 }]);
    assert_eq!(&fixed.image[0x114..0x116], [0x2b, 0x23]);
    // The target lies outside of the explicit frame 0x12.
    let fixed = fix(&[0x84, 0x00, 0x34, 0x12, 0x00, 0x01], 0x240).unwrap();
    assert_eq!(fixed.warnings, [Warning::FixupOutsideFrame { location: 0x114, frame: 0x12 }]);
    // Only words can be fixed up in this way.
    assert!(fix(&[0x80, 0x00, 0x54, 0x01], 0x240).is_none());
    assert!(fix(&[0x88, 0x00, 0x54, 0x01], 0x240).is_none());
    assert!(fix(&[0x8c, 0x00, 0x54, 0x01], 0x240).is_none());
}

#[test]
fn broken_fixups() {
    assert!(fix(&[0xc4], 0x240).is_none());
    assert!(fix(&[0xd0, 0x00, 0x54, 0x01], 0x240).is_none());
    assert!(fix(&[0xc4, 0x00, 0x54], 0x240).is_none());
    assert!(fix(&[0xc4, 0x00, 0x56, 0x03], 0x240).is_none());
}

#[test]
fn fixupp_runs_its_subrecords() {
    let (mut state, mut obj) = fixture();
    let lastdata = LastDataRegion { frame: 0x10, base: 0x114, length: 8 };
    let mut image = vec![0u8; 0x240];
    let mut relocs = Vec::new();
    let payload = [
        0x40 | (1 << 2) | 1, // frame thread 1: GRPDEF 1
        0x01,
        (2 << 2) | 2, // target thread 2: EXTDEF 4
        0x04,
        0xc8, // Segment16 at 0, both by thread
        0x00,
        0x80 | (1 << 4) | 0x08 | 0x04 | 2,
        0xcc, // far pointer at 2, frame by thread, target SEGDEF 1
        0x02,
        0x80 | (1 << 4) | 0x04,
        0x01,
    ];
    let bytes = record(0x9c, &payload);
    let mut rec = Record::new(&bytes).unwrap();
    pass2_fixupp(&mut rec, &mut state, &mut obj, &mut image, &lastdata, &mut relocs).unwrap();
    assert_eq!(&image[0x114..0x11a], [0x23, 0x00, 0xe0, 0xfe, 0x23, 0x00]);
    assert_eq!(
        relocs,
        [Relocation { seg: 0x10, offset: 0x14 }, Relocation { seg: 0x10, offset: 0x18 }]
    );
    // 0x110 lies 0x120 below the frame 0x23.
    assert_eq!(state.warnings, [Warning::FixupOverflow]);

    let bytes = record(0x9c, &[0xc8, 0x00, 0x54]);
    let mut rec = Record::new(&bytes).unwrap();
    assert!(pass2_fixupp(&mut rec, &mut state, &mut obj, &mut image, &lastdata, &mut relocs)
        .is_err());
}

#[test]
fn modend_sets_the_entry_point_once() {
    let (mut state, obj) = fixture();
    let lastdata = LastDataRegion { frame: 0, base: 0, length: 0 };
    let bytes = record(0x8a, &[0x00]);
    pass2_modend(&mut Record::new(&bytes).unwrap(), &mut state, &obj, &lastdata).unwrap();
    assert_eq!(state.entry, None);
    let bytes = record(0x8a, &[0x80]);
    pass2_modend(&mut Record::new(&bytes).unwrap(), &mut state, &obj, &lastdata).unwrap();
    assert_eq!(state.entry, None);
    let bytes = record(0x8a, &[]);
    pass2_modend(&mut Record::new(&bytes).unwrap(), &mut state, &obj, &lastdata).unwrap();
    assert_eq!(state.entry, None);
    // The target lies below its frame.
    let bytes = record(0x8a, &[0xc0, 0x04, 0x02, 0x01]);
    assert!(pass2_modend(&mut Record::new(&bytes).unwrap(), &mut state, &obj, &lastdata)
        .is_err());
    assert_eq!(state.entry, None);
    // SEGDEF 1 + 5 in its own frame.
    let bytes = record(0x8a, &[0xc0, 0x50, 0x01, 0x05, 0x00]);
    pass2_modend(&mut Record::new(&bytes).unwrap(), &mut state, &obj, &lastdata).unwrap();
    assert_eq!(state.entry, Some(FarPtr::new(0x10, 0x15)));
    assert!(pass2_modend(&mut Record::new(&bytes).unwrap(), &mut state, &obj, &lastdata)
        .is_err());
    assert_eq!(state.entry, Some(FarPtr::new(0x10, 0x15)));
    let bytes = record(0x8a, &[0x40]);
    pass2_modend(&mut Record::new(&bytes).unwrap(), &mut state, &obj, &lastdata).unwrap();
}

#[test]
fn object_raises_the_high_water_mark() {
    let (mut state, mut obj) = fixture();
    obj.name = "m".to_string();
    let mut image = vec![0u8; 0x238];
    let mut relocs = Vec::new();
    let mut highwater = 0x120;
    let mut data = record(0x80, &[0x01, b'm']);
    data.extend(record(0xa0, &[0x01, 0x00, 0x00, 0x01, 0x02]));
    data.extend(record(0x9c, &[0xc8, 0x00, 0x54, 0x02]));
    pass2_object(&mut state, &data, &mut obj, &mut image, &mut relocs, &mut highwater).unwrap();
    assert_eq!(highwater, 0x120);
    assert_eq!(&image[0x110..0x112], [0x24, 0x02]);
    assert_eq!(relocs, [Relocation { seg: 0x11, offset: 0x00 }]);

    let start = data.len();
    data.extend(record(0xa0, &[0x02, 0x06, 0x00, 0x0a, 0x0b]));
    data.extend(record(0x8a, &[0x00]));
    data.extend(record(0xa0, &[0x02, 0x00, 0x00, 0xff]));
    let mut image = vec![0u8; 0x238];
    pass2_object(&mut state, &data, &mut obj, &mut image, &mut relocs, &mut highwater).unwrap();
    assert_eq!(highwater, 0x238);
    assert_eq!(&image[0x230..0x238], [0, 0, 0, 0, 0, 0, 0x0a, 0x0b]);

    data.truncate(start);
    data.extend(record(0xa0, &[0x02, 0x07, 0x00, 0x0a, 0x0b]));
    let err = pass2_object(&mut state, &data, &mut obj, &mut image, &mut relocs, &mut highwater)
        .unwrap_err();
    assert_eq!(err.to_string(), "pass2: module m at 00017H: invalid data range 00007H..00009H in LEDATA record.");
    let data = record(0xf1, &[0x00]);
    let err = pass2_object(&mut state, &data, &mut obj, &mut image, &mut relocs, &mut highwater)
        .unwrap_err();
    assert_eq!(err.to_string(), "pass2: module m at 00000H: unhandled record LIBEND");
    let err = pass2_object(&mut state, &[0x80], &mut obj, &mut image, &mut relocs, &mut highwater)
        .unwrap_err();
    assert_eq!(err.to_string(), "pass2: module m at 00000H: Truncated OMF record.");
}

#[test]
fn executable_of_a_state_without_objects() {
    let (mut state, _) = fixture();
    let mut objects = Vec::new();
    let file = pass2(&mut state, &mut objects).unwrap();
    // Nothing was placed, so nothing of the image is kept, and all of it is
    // asked for as memory: 0x238 bytes are 0x24 paragraphs.
    assert_eq!(file.len(), 512);
    assert_eq!(&file[0..2], b"MZ");
    assert_eq!(&file[0x0a..0x0c], [0x24, 0x00]);
    assert_eq!(state.warnings, [Warning::NoStack, Warning::NoEntryPoint]);
    assert_eq!(state.lnames.len(), 3);
    assert_eq!(state.lnames.get(1), "_STACK");
    assert_eq!(state.lnames.get(2), "STACK");
    assert_eq!(state.lnames.get(3), "");
}

#[test]
fn executable_with_a_stack() {
    let mut state = LinkState::new();
    state.lnames.add("");
    state.lnames.add("_STACK");
    state.lnames.add("STACK");
    let mut stack = Segment::new(SegName::new(2, 3, 1), 0x200, Align::Para, Combine::Stack);
    stack.base = 0x128;
    state.segments.push(stack);
    state.segment_order = vec![1];
    let mut objects = Vec::new();
    let file = pass2(&mut state, &mut objects).unwrap();
    assert_eq!(state.warnings, [Warning::NoEntryPoint]);
    assert_eq!(state.lnames.len(), 3);
    // SS:SP = 0012:0208
    assert_eq!(&file[0x0e..0x12], [0x12, 0x00, 0x08, 0x02]);
    // 0x328 bytes are 0x33 paragraphs.
    assert_eq!(&file[0x0a..0x0c], [0x33, 0x00]);

    let mut state = LinkState::new();
    state.lnames.add("");
    state.lnames.add("_STACK");
    state.lnames.add("STACK");
    let mut stack = Segment::new(SegName::new(2, 3, 1), 0x10000, Align::Para, Combine::Stack);
    stack.base = 0x10;
    state.segments.push(stack);
    state.segment_order = vec![1];
    let file = pass2(&mut state, &mut objects).unwrap();
    assert_eq!(&file[0x0e..0x12], [0x01, 0x00, 0xfe, 0xff]);
}

#[test]
fn executable_needs_objects_with_data_and_an_entry_in_the_image() {
    let (mut state, obj) = fixture();
    let mut objects = vec![obj];
    assert!(pass2(&mut state, &mut objects).is_err());

    let (mut state, mut obj) = fixture();
    obj.data = Some(record(0x8a, &[0xc0, 0x50, 0x01, 0x05, 0x00]));
    let mut objects = vec![obj];
    // The entry point 0010:0015 lies in an image of which nothing is kept.
    assert!(pass2(&mut state, &mut objects).is_err());

    let (mut state, mut obj) = fixture();
    let mut data = record(0xa0, &[0x01, 0x05, 0x00, 0xc3]);
    data.extend(record(0x8a, &[0xc0, 0x50, 0x01, 0x05, 0x00]));
    obj.data = Some(data.clone());
    let mut objects = vec![obj];
    let file = pass2(&mut state, &mut objects).unwrap();
    assert_eq!(objects[0].data, Some(data));
    assert_eq!(file.len(), 512 + 0x116);
    assert_eq!(file[512 + 0x115], 0xc3);
    assert_eq!(&file[0x14..0x18], [0x15, 0x00, 0x10, 0x00]);
    assert_eq!(state.entry, Some(FarPtr::new(0x10, 0x15)));
    assert_eq!(state.warnings, [Warning::NoStack]);
    // 0x238 - 0x116 = 0x122 bytes are 0x13 paragraphs.
    assert_eq!(&file[0x0a..0x0c], [0x13, 0x00]);
}
