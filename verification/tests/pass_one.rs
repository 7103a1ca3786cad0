use omflink::group::Group;
use omflink::linker_error::LinkerError;
use omflink::linkstate::{LinkState, Warning};
use omflink::memory_map::{pass1_build_memory_map, placement_order};
use omflink::object::Object;
use omflink::omf_vec::OmfVec;
use omflink::pass1::{
    pass1_comdef_names, pass1_extdef, pass1_extdef_names, pass1_grpdef, pass1_lnames,
    pass1_obj_externs, pass1_object, pass1_pubdef, pass1_segdef, pass1_theadr,
};
use omflink::record::Record;
use omflink::segment::{Align, Combine, SegDef, SegName, Segment};
use omflink::symbols::Symbol;

#[test]
fn test_theadr() -> Result<(), LinkerError> {
    let rec = [0x80, 0x05, 0x00, 0x03, 0x41, 0x42, 0x43, 0x00];
    let mut rec = Record::new(&rec)?;

    let mut obj = Object::new();
    assert_eq!(obj.name, "");
    pass1_theadr(&mut obj, &mut rec)?;
    assert_eq!(obj.name, "ABC");

    let rec = [0x80, 0x04, 0x00, 0x03, 0x41, 0x42, 0x43];
    let mut rec = Record::new(&rec)?;

    let mut obj = Object::new();
    assert_eq!(obj.name, "");
    assert!(pass1_theadr(&mut obj, &mut rec).is_err());

    Ok(())
}

#[test]
fn test_lnames() -> Result<(), LinkerError> {
    let rec = [0x96, 0x09, 0x00, 0x03, 0x41, 0x42, 0x43, 0x03, 0x44, 0x45, 0x46, 0x00];
    let mut rec = Record::new(&rec)?;

    let mut obj = Object::new();
    let mut state: LinkState = LinkState::new();

    //
    // Force indices in the object to not be the same as the global state
    //
    state.lnames.add("XYZ");

    pass1_lnames(&mut obj, &mut state, &mut rec)?;

    assert_eq!(obj.lnames.len(), 2);
    assert_eq!(obj.lnames.get(1), 2);
    assert_eq!(obj.lnames.get(2), 3);

    assert_eq!(state.lnames.len(), 3);
    assert_eq!(state.lnames.get(1), "XYZ");
    assert_eq!(state.lnames.get(2), "ABC");
    assert_eq!(state.lnames.get(3), "DEF");

    Ok(())
}

#[test]
fn test_segdef_new() -> Result<(), LinkerError> {
    //                                        PARA PUB     len=0x024f  name  class ovly
    let rec = [0x98, 0x07, 0x00, 0b011_010_00, 0x4f, 0x02, 0x01, 0x02, 0x00, 0x00];
    let mut rec = Record::new(&rec)?;

    let mut obj = Object::new();
    let mut state: LinkState = LinkState::new();

    state.lnames.add("");

    obj.lnames.add(state.lnames.add("_TEXT")); // index 1 == _TEXT
    obj.lnames.add(state.lnames.add("CODE")); // index 2 == CODE

    let seg = Segment::new(SegName::new(0, 0, 0), 0, Align::Byte, Combine::Private);

    // Make sure segment we add is at index 2 in the global list
    //
    state.segments.push(seg);

    pass1_segdef(&mut obj, &mut state, &mut rec)?;

    assert_eq!(state.segments.len(), 2);
    assert_eq!(obj.segdefs.len(), 1);

    let segdef = obj.segdefs.get(1);

    assert_eq!(segdef.segidx, 2);
    assert_eq!(segdef.base, 0);
    assert_eq!(segdef.length, 0x24f);
    assert_eq!(segdef.align, Align::Para);
    assert_eq!(segdef.combine, Combine::Public);

    let segment = state.segments.get(2);

    assert_eq!(segment.length, 0x24f);
    assert_eq!(state.segname(&segment.name), "_TEXT.CODE.");

    Ok(())
}

#[test]
fn test_segdef_combine() -> Result<(), LinkerError> {
    //                                        PARA PUB     len=0x024f  name  class ovly
    let rec = [0x98, 0x07, 0x00, 0b011_010_00, 0x4f, 0x02, 0x01, 0x02, 0x00, 0x00];
    let mut rec = Record::new(&rec)?;

    let mut obj = Object::new();
    let mut state: LinkState = LinkState::new();

    obj.lnames.add(state.lnames.add("_TEXT")); // index 1 == _TEXT
    obj.lnames.add(state.lnames.add("CODE")); // index 2 == CODE

    let seg = Segment::new(SegName::new(0, 0, 0), 0, Align::Byte, Combine::Private);

    // Make sure segment we add is at index 2 in the global list
    //
    state.segments.push(seg);

    let seg = Segment::new(SegName::new(1, 2, 0), 0x100, Align::Byte, Combine::Public);

    // We should combine with this segment
    //
    state.segments.push(seg);

    pass1_segdef(&mut obj, &mut state, &mut rec)?;

    assert_eq!(state.segments.len(), 2);
    assert_eq!(obj.segdefs.len(), 1);

    let segdef = obj.segdefs.get(1);

    assert_eq!(segdef.segidx, 2);
    assert_eq!(segdef.base, 0x100);
    assert_eq!(segdef.length, 0x24f);
    assert_eq!(segdef.align, Align::Para);
    assert_eq!(segdef.combine, Combine::Public);

    let segment = state.segments.get(2);

    assert_eq!(segment.length, 0x34f);

    Ok(())
}

#[test]
fn grpdef_new() -> Result<(), LinkerError> {
    //                                     NAME  ---   SEG0  ---   SEG1
    let rec = [0x9a, 0x06, 0x00, 0x04, 0xFF, 0x01, 0xFF, 0x02, 0xff];
    let mut rec = Record::new(&rec)?;

    let mut obj = Object::new();
    let mut state: LinkState = LinkState::new();

    state.lnames.add("");

    obj.lnames.add(state.lnames.add("_TEXT")); // index 1 == _TEXT
    obj.lnames.add(state.lnames.add("CODE")); // index 2 == CODE
    obj.lnames.add(state.lnames.add("DATA")); // index 3 == DATA
    obj.lnames.add(state.lnames.add("DGROUP")); // index 4 == DRGROUP

    let seg = Segment::new(SegName::new(0, 0, 0), 0, Align::Byte, Combine::Private);
    state.segments.push(seg);

    let seg = Segment::new(SegName::new(1, 2, 0), 0, Align::Byte, Combine::Public);
    let index = state.segments.add(seg);

    let acbp = 0x28;
    let segdef = SegDef::new(index, 100, acbp, Align::Byte, Combine::Public);
    obj.segdefs.push(segdef);

    let seg = Segment::new(SegName::new(3, 3, 0), 0, Align::Byte, Combine::Public);
    let index = state.segments.add(seg);

    let segdef = SegDef::new(index, 200, acbp, Align::Byte, Combine::Public);
    obj.segdefs.push(segdef);

    assert_eq!(obj.grpdefs.len(), 0);

    pass1_grpdef(&mut obj, &mut state, &mut rec)?;

    assert_eq!(obj.grpdefs.len(), 1);
    assert_eq!(obj.grpdefs.get(1), 1);

    assert_eq!(state.groups.len(), 1);

    assert!(state.groups.get(1).has(2));
    assert!(state.groups.get(1).has(3));

    Ok(())
}

#[test]
fn grpdef_add() -> Result<(), LinkerError> {
    //                                     NAME  ---   SEG0  ---   SEG1
    let rec = [0x9a, 0x06, 0x00, 0x04, 0xFF, 0x01, 0xFF, 0x02, 0xff];
    let mut rec = Record::new(&rec)?;

    let mut obj = Object::new();
    let mut state: LinkState = LinkState::new();

    state.lnames.add("");

    obj.lnames.add(state.lnames.add("_TEXT")); // index 1 == _TEXT
    obj.lnames.add(state.lnames.add("CODE")); // index 2 == CODE
    obj.lnames.add(state.lnames.add("DATA")); // index 3 == DATA
    obj.lnames.add(state.lnames.add("DGROUP")); // index 4 == DRGROUP

    let seg = Segment::new(SegName::new(0, 0, 0), 0, Align::Byte, Combine::Private);
    state.segments.push(seg);

    let seg = Segment::new(SegName::new(1, 2, 0), 0, Align::Byte, Combine::Public);
    let index = state.segments.add(seg);

    let acbp = 0x28;
    let segdef = SegDef::new(index, 100, acbp, Align::Byte, Combine::Public);
    obj.segdefs.push(segdef);

    let seg = Segment::new(SegName::new(3, 3, 0), 0, Align::Byte, Combine::Public);
    let index = state.segments.add(seg);

    let segdef = SegDef::new(index, 200, acbp, Align::Byte, Combine::Public);
    obj.segdefs.push(segdef);

    let mut group = Group::new(5);
    group.add(1);

    state.groups.add(group);

    pass1_grpdef(&mut obj, &mut state, &mut rec)?;

    assert_eq!(state.groups.len(), 1);

    assert!(state.groups.get(1).has(1));
    assert!(state.groups.get(1).has(2));
    assert!(state.groups.get(1).has(3));

    Ok(())
}

#[test]
fn extdef() -> Result<(), LinkerError> {
    let rec = [
        0x9a, 0x0b, 0x00, 0x03, 0x41, 0x42, 0x43, 0x02, 0x03, 0x44, 0x45, 0x46, 0x02, 0xff,
    ];
    let mut rec = Record::new(&rec)?;

    let mut obj = Object::new();
    let mut state: LinkState = LinkState::new();

    pass1_extdef(&mut obj, &mut state, &mut rec)?;

    assert_eq!(obj.extdefs.len(), 2);
    assert_eq!(obj.extdefs.get(1), "ABC");
    assert_eq!(obj.extdefs.get(2), "DEF");

    //
    // EXTDEF's also get put into the symbol table as undefined's
    //
    let symbol = state.symbols.get("ABC");

    match symbol {
        Some(Symbol::Undefined) => {}
        None => panic!("Symbol was not added as undefined."),
        _ => panic!("Symbol was added as something else {:?}", symbol),
    }

    Ok(())
}

#[test]
fn pubdefs() -> Result<(), LinkerError> {
    let rec = [
        0x9a, 0x11, 0x00, 0x01, // base group index
        0x02, // base segment index
        0x03, 0x41, 0x42, 0x43, 0x34, 0x12, 0x02, 0x03, 0x44, 0x45, 0x46, 0x78, 0x56, 0x02, 0xff,
    ];
    let mut rec = Record::new(&rec)?;

    let mut obj = Object::new();
    let mut state: LinkState = LinkState::new();

    state.lnames.add("");
    obj.lnames.add(state.lnames.add("_TEXT")); // index 1 == _TEXT
    obj.lnames.add(state.lnames.add("CODE")); // index 2 == CODE
    obj.lnames.add(state.lnames.add("DATA")); // index 3 == DATA
    obj.lnames.add(state.lnames.add("DGROUP")); // index 4 == DRGROUP
    obj.lnames.add(state.lnames.add("ZGROUP")); // index 5 == ZRGROUP

    let group = Group::new(5);
    state.groups.add(group);

    let group = Group::new(4);
    obj.grpdefs.add(state.groups.add(group));

    let acbp = 0x28;
    let segment = Segment::new(SegName::new(1, 2, 0), 0, Align::Byte, Combine::Public);
    state.segments.add(segment);

    let segment = Segment::new(SegName::new(1, 2, 0), 0, Align::Byte, Combine::Public);
    let segidx = state.segments.add(segment);
    obj.segdefs.add(SegDef::new(segidx, 100, acbp, Align::Byte, Combine::Public));

    let segment = Segment::new(SegName::new(3, 3, 0), 0, Align::Byte, Combine::Public);
    let segidx = state.segments.add(segment);
    obj.segdefs.add(SegDef::new(segidx, 0x6000, acbp, Align::Byte, Combine::Public));

    pass1_pubdef(&mut obj, &mut state, &mut rec)?;

    let symbol = state.symbols.get("ABC");

    match symbol {
        Some(Symbol::Public(public)) => {
            assert_eq!(public.segment, 3);
            assert_eq!(public.group, 2);
            assert_eq!(public.frame, 0);
            assert_eq!(public.offset, 0x1234);
        }
        None => panic!("Symbol ABC not added"),
        _ => panic!("Symbol ABC had an invalid value {:?}", symbol),
    }

    let symbol = state.symbols.get("DEF");

    match symbol {
        Some(Symbol::Public(public)) => {
            assert_eq!(public.segment, 3);
            assert_eq!(public.group, 2);
            assert_eq!(public.frame, 0);
            assert_eq!(public.offset, 0x5678);
        }
        None => panic!("Symbol DEF not added"),
        _ => panic!("Symbol DEF had an invalid value {:?}", symbol),
    }

    Ok(())
}

fn record(ty: u8, payload: &[u8]) -> Vec<u8> {
    let len = payload.len() + 1;
    let mut bytes = vec![ty, (len & 0xff) as u8, (len >> 8) as u8];
    bytes.extend_from_slice(payload);
    bytes.push(0);
    bytes
}

fn counted(name: &str) -> Vec<u8> {
    let mut bytes = vec![name.len() as u8];
    bytes.extend_from_slice(name.as_bytes());
    bytes
}

#[test]
fn segdef_joins_the_segment_of_its_name() {
    let mut obj = Object::new();
    let mut state = LinkState::new();
    obj.lnames.add(state.lnames.add("_TEXT"));
    obj.lnames.add(state.lnames.add("CODE"));
    state.segments.push(Segment::new(SegName::new(1, 2, 0), 0x100, Align::Byte, Combine::Public));
    let bytes = record(0x98, &[0b011_010_00, 0x4f, 0x02, 0x01, 0x02, 0x00]);
    let mut rec = Record::new(&bytes).unwrap();
    pass1_segdef(&mut obj, &mut state, &mut rec).unwrap();
    assert_eq!(obj.segdefs.get(1).base, 0x100);
    assert_eq!(state.segments.get(1).length, 0x34f);
    assert_eq!(state.segments.get(1).align, Align::Para);
    assert_eq!(state.segname(&state.segments.get(1).name), "_TEXT.CODE.");
}

#[test]
fn segdef_big_bit() {
    let mut obj = Object::new();
    let mut state = LinkState::new();
    obj.lnames.add(state.lnames.add("BIG"));
    let bytes = record(0x98, &[0b011_010_01, 0x00, 0x00, 0x01, 0x00, 0x00]);
    let mut rec = Record::new(&bytes).unwrap();
    pass1_segdef(&mut obj, &mut state, &mut rec).unwrap();
    assert_eq!(obj.segdefs.get(1).length, 0x10000);
    assert_eq!(state.segments.get(1).length, 0x10000);

    let bytes = record(0x98, &[0b011_010_01, 0x01, 0x00, 0x01, 0x00, 0x00]);
    let mut rec = Record::new(&bytes).unwrap();
    assert!(pass1_segdef(&mut obj, &mut state, &mut rec).is_err());
}

#[test]
fn segdef_rejects_unknown_names_and_private_segments() {
    let mut obj = Object::new();
    let mut state = LinkState::new();
    obj.lnames.add(state.lnames.add("A"));
    let bytes = record(0x98, &[0b011_010_00, 0x10, 0x00, 0x02, 0x00, 0x81, 0x04]);
    let mut rec = Record::new(&bytes).unwrap();
    let err = pass1_segdef(&mut obj, &mut state, &mut rec).unwrap_err();
    assert_eq!(err.to_string(), "invalid name triplet 2.0.260 for SEGDEF");
    assert_eq!(state.segments.len(), 0);
    assert_eq!(obj.segdefs.len(), 0);
    let bytes = record(0x98, &[0b011_000_00, 0x10, 0x00, 0x01, 0x00, 0x00]);
    let mut rec = Record::new(&bytes).unwrap();
    assert!(pass1_segdef(&mut obj, &mut state, &mut rec).is_err());
    let bytes = record(0x98, &[0b111_010_00, 0x10, 0x00, 0x01, 0x00, 0x00]);
    let mut rec = Record::new(&bytes).unwrap();
    assert!(pass1_segdef(&mut obj, &mut state, &mut rec).is_err());
    let bytes = record(0x98, &[0b011_001_00, 0x10, 0x00, 0x01, 0x00, 0x00]);
    let mut rec = Record::new(&bytes).unwrap();
    assert!(pass1_segdef(&mut obj, &mut state, &mut rec).is_err());
}

#[test]
fn segdef_absolute_leaves_a_warning() {
    let mut obj = Object::new();
    let mut state = LinkState::new();
    obj.lnames.add(state.lnames.add("A"));
    let bytes = record(0x98, &[0b000_010_00, 0x34, 0x12, 0x00, 0x08, 0x00, 0x01, 0x00, 0x00]);
    let mut rec = Record::new(&bytes).unwrap();
    pass1_segdef(&mut obj, &mut state, &mut rec).unwrap();
    assert_eq!(state.warnings, [Warning::AbsoluteSegment]);
    assert_eq!(obj.segdefs.get(1).length, 8);
    assert_eq!(obj.segdefs.get(1).align, Align::Absolute);
}

#[test]
fn grpdef_warns_about_a_second_group() {
    let mut obj = Object::new();
    let mut state = LinkState::new();
    obj.lnames.add(state.lnames.add("G1"));
    obj.lnames.add(state.lnames.add("G2"));
    let index = state.segments.add(Segment::new(
        SegName::new(7, 0, 0),
        0,
        Align::Byte,
        Combine::Public,
    ));
    obj.segdefs.push(SegDef::new(index, 1, 0x28, Align::Byte, Combine::Public));
    let bytes = record(0x9a, &[0x01, 0xff, 0x01]);
    let mut rec = Record::new(&bytes).unwrap();
    pass1_grpdef(&mut obj, &mut state, &mut rec).unwrap();
    assert_eq!(state.segments.get(1).group, 1);
    assert!(state.warnings.is_empty());
    let bytes = record(0x9a, &[0x02, 0xff, 0x01]);
    let mut rec = Record::new(&bytes).unwrap();
    pass1_grpdef(&mut obj, &mut state, &mut rec).unwrap();
    assert_eq!(state.segments.get(1).group, 1);
    assert_eq!(state.warnings, [Warning::SegmentInSeveralGroups { segment: 1 }]);
    assert_eq!(state.groups.get(2).members, [1]);
    assert_eq!(obj.grpdefs.get(2), 2);
    let bytes = record(0x9a, &[0x01, 0xff, 0x02]);
    let mut rec = Record::new(&bytes).unwrap();
    assert!(pass1_grpdef(&mut obj, &mut state, &mut rec).is_err());
}

#[test]
fn pubdef_offsets() {
    let mut obj = Object::new();
    let mut state = LinkState::new();
    let index = state.segments.add(Segment::new(
        SegName::new(1, 0, 0),
        0x30,
        Align::Byte,
        Combine::Public,
    ));
    let mut segdef = SegDef::new(index, 0x10, 0x28, Align::Byte, Combine::Public);
    segdef.base = 0x20;
    obj.segdefs.push(segdef);
    let mut empty = SegDef::new(index, 0, 0x28, Align::Byte, Combine::Public);
    empty.base = 0x30;
    obj.segdefs.push(empty);
    let mut far = SegDef::new(index, 0x10, 0x28, Align::Byte, Combine::Public);
    far.base = 0xfff8;
    obj.segdefs.push(far);

    let mut payload = vec![0x00, 0x01];
    payload.extend(counted("in"));
    payload.extend([0x0f, 0x00, 0x00]);
    let bytes = record(0x90, &payload);
    pass1_pubdef(&mut obj, &mut state, &mut Record::new(&bytes).unwrap()).unwrap();
    assert_eq!(state.symbols.get("in"), Some(Symbol::public(0, 1, 0, 0x2f)));

    let mut payload = vec![0x00, 0x01];
    payload.extend(counted("out"));
    payload.extend([0x10, 0x00, 0x00]);
    let bytes = record(0x90, &payload);
    let err = pass1_pubdef(&mut obj, &mut state, &mut Record::new(&bytes).unwrap()).unwrap_err();
    assert_eq!(err.to_string(), "public out offset 0010H is outside of SEGDEF.");

    let mut payload = vec![0x00, 0x02];
    payload.extend(counted("empty"));
    payload.extend([0x00, 0x00, 0x00]);
    let bytes = record(0x90, &payload);
    pass1_pubdef(&mut obj, &mut state, &mut Record::new(&bytes).unwrap()).unwrap();
    assert_eq!(state.symbols.get("empty"), Some(Symbol::public(0, 1, 0, 0x30)));

    let mut payload = vec![0x00, 0x03];
    payload.extend(counted("fits"));
    payload.extend([0x07, 0x00, 0x00]);
    payload.extend(counted("wide"));
    payload.extend([0x08, 0x00, 0x00]);
    let bytes = record(0x90, &payload);
    let err = pass1_pubdef(&mut obj, &mut state, &mut Record::new(&bytes).unwrap()).unwrap_err();
    assert_eq!(err.to_string(), "public wide offset 10000H does not fit in 16 bits.");
    assert_eq!(state.symbols.get("fits"), Some(Symbol::public(0, 1, 0, 0xffff)));
    assert_eq!(state.symbols.get("wide"), None);

    let mut payload = vec![0x00, 0x00, 0x34, 0x12];
    payload.extend(counted("abs"));
    payload.extend([0xcd, 0xab, 0x00]);
    let bytes = record(0x90, &payload);
    pass1_pubdef(&mut obj, &mut state, &mut Record::new(&bytes).unwrap()).unwrap();
    assert_eq!(state.symbols.get("abs"), Some(Symbol::public(0, 0, 0x1234, 0xabcd)));

    let mut payload = vec![0x01, 0x01];
    payload.extend(counted("nogroup"));
    payload.extend([0x00, 0x00, 0x00]);
    let bytes = record(0x90, &payload);
    let err = pass1_pubdef(&mut obj, &mut state, &mut Record::new(&bytes).unwrap()).unwrap_err();
    assert_eq!(err.to_string(), "invalid group index 1 in PUBDEF");
    let mut payload = vec![0x00, 0x04];
    payload.extend(counted("noseg"));
    payload.extend([0x00, 0x00, 0x00]);
    let bytes = record(0x90, &payload);
    let err = pass1_pubdef(&mut obj, &mut state, &mut Record::new(&bytes).unwrap()).unwrap_err();
    assert_eq!(err.to_string(), "invalid segment index 4 in PUBDEF");
}

#[test]
fn extern_names() {
    let mut payload = counted("one");
    payload.push(0x00);
    payload.extend(counted("two"));
    payload.extend([0x81, 0x00]);
    let bytes = record(0x8c, &payload);
    let names = pass1_extdef_names(&mut Record::new(&bytes).unwrap()).unwrap();
    assert_eq!(names, ["one", "two"]);

    let mut payload = counted("near");
    payload.extend([0x00, 0x62, 0x04]);
    payload.extend(counted("far"));
    payload.extend([0x00, 0x61, 0x81, 0x00, 0x01, 0x02]);
    payload.extend(counted("other"));
    payload.extend([0x00, 0x01]);
    let comdef = record(0xb0, &payload);
    let names = pass1_comdef_names(&mut Record::new(&comdef).unwrap()).unwrap();
    assert_eq!(names, ["near", "far", "other"]);

    let mut module = record(0x80, &counted("m"));
    module.extend(&bytes);
    module.extend(record(0xb4, &payload));
    module.extend(&comdef);
    module.extend(record(0x8a, &[0x00]));
    let names = pass1_obj_externs(&module).unwrap();
    assert_eq!(names, ["one", "two", "near", "far", "other"]);

    module.push(0x80);
    assert!(pass1_obj_externs(&module).is_err());
    let mut broken = counted("near");
    broken.extend([0x00, 0x61, 0x04]);
    let bytes = record(0xb0, &broken);
    assert!(pass1_comdef_names(&mut Record::new(&bytes).unwrap()).is_err());
}

#[test]
fn object_records_in_sequence() {
    let mut data = record(0x80, &counted("hello.asm"));
    data.extend(record(0x88, &[0x00, 0x00, 0x41]));
    let mut names = counted("");
    names.extend(counted("_TEXT"));
    names.extend(counted("CODE"));
    names.extend(counted("DGROUP"));
    data.extend(record(0x96, &names));
    data.extend(record(0x98, &[0b011_010_00, 0x10, 0x00, 0x02, 0x03, 0x01]));
    data.extend(record(0x9a, &[0x04, 0xff, 0x01]));
    let mut ext = counted("printf");
    ext.push(0x00);
    data.extend(record(0x8c, &ext));
    let mut public = vec![0x01, 0x01];
    public.extend(counted("main"));
    public.extend([0x04, 0x00, 0x00]);
    data.extend(record(0x90, &public));
    data.extend(record(0xa0, &[0x01, 0x00, 0x00, 0x90]));
    data.extend(record(0x8a, &[0x00]));
    data.extend([0xde, 0xad]);

    let mut state = LinkState::new();
    let mut obj = Object::new();
    pass1_object(&mut state, &data, &mut obj, "hello.obj").unwrap();
    assert_eq!(obj.name, "hello.asm");
    assert_eq!(state.lnames.len(), 4);
    assert_eq!(state.segments.len(), 1);
    assert_eq!(state.segments.get(1).name, SegName::new(2, 3, 1));
    assert_eq!(state.segments.get(1).group, 1);
    assert_eq!(state.groups.get(1).name, 4);
    assert_eq!(state.symbols.get("printf"), Some(Symbol::Undefined));
    assert_eq!(state.symbols.get("main"), Some(Symbol::public(1, 1, 0, 4)));
    assert_eq!(state.symbols.undefined_symbols(), ["printf"]);
}

#[test]
fn object_errors_name_the_module_and_the_offset() {
    let mut data = record(0x80, &counted("hello.asm"));
    let at = data.len();
    data.extend(record(0x98, &[0b111_010_00, 0x10, 0x00, 0x00, 0x00, 0x00]));
    let mut state = LinkState::new();
    let mut obj = Object::new();
    let err = pass1_object(&mut state, &data, &mut obj, "hello.obj").unwrap_err();
    assert_eq!(at, 14);
    assert_eq!(
        err.to_string(),
        "pass1: module hello.obj (module hello.asm) at 0000EH: invalid align in SEGDEF 07"
    );

    let data = record(0xf0, &[0x00]);
    let mut obj = Object::new();
    let err = pass1_object(&mut state, &data, &mut obj, "lib").unwrap_err();
    assert_eq!(err.to_string(), "pass1: module lib at 00000H: unhandled record LIBHDR");

    let mut data = record(0x80, &counted("hello.asm"));
    data.extend([0x80, 0x05, 0x00]);
    let mut obj = Object::new();
    let err = pass1_object(&mut state, &data, &mut obj, "cut").unwrap_err();
    assert_eq!(
        err.to_string(),
        "pass1: module cut (module hello.asm) at 0000EH: Truncated OMF record."
    );
    let err = pass1_object(&mut state, &[0x42, 0x02, 0x00, 0x00, 0x00], &mut obj, "odd")
        .unwrap_err();
    assert_eq!(
        err.to_string(),
        "pass1: module odd (module hello.asm) at 00000H: unhandled record 42"
    );
}

fn segments_of(classes: &[(usize, usize, Align)]) -> OmfVec<Segment> {
    let mut segments = OmfVec::new();
    for (i, (class, length, align)) in classes.iter().enumerate() {
        segments.push(Segment::new(SegName::new(i + 1, *class, 0), *length, *align, Combine::Public));
    }
    segments
}

#[test]
fn placement_follows_classes() {
    let segments = segments_of(&[
        (5, 1, Align::Byte),
        (0, 1, Align::Byte),
        (5, 1, Align::Byte),
        (7, 1, Align::Byte),
        (0, 1, Align::Byte),
        (7, 1, Align::Byte),
        (5, 1, Align::Byte),
    ]);
    assert_eq!(placement_order(&segments), [1, 3, 7, 2, 4, 6, 5]);
    assert!(placement_order(&OmfVec::new()).is_empty());
}

#[test]
fn memory_map_places_segments_and_groups() {
    let mut state = LinkState::new();
    state.segments = segments_of(&[
        (1, 0x11, Align::Para),
        (2, 0x05, Align::Word),
        (1, 0x03, Align::Page),
        (0, 0x00, Align::Dword),
        (2, 0x01, Align::Byte),
    ]);
    let mut group = Group::new(9);
    group.add(5);
    group.add(2);
    state.groups.push(group);
    state.groups.push(Group::new(10));
    pass1_build_memory_map(&mut state).unwrap();
    assert_eq!(state.segment_order, [1, 3, 2, 5, 4]);
    assert_eq!(state.segments.get(1).base, 0);
    assert_eq!(state.segments.get(3).base, 0x100);
    assert_eq!(state.segments.get(2).base, 0x104);
    assert_eq!(state.segments.get(5).base, 0x109);
    assert_eq!(state.segments.get(4).base, 0x10c);
    for pair in state.segment_order.windows(2) {
        let before = state.segments.get(pair[0]);
        let after = state.segments.get(pair[1]);
        assert_eq!(after.base, after.align.align_by(before.base + before.length));
    }
    assert_eq!(state.groups.get(1).base, 0x104);
    assert_eq!(state.groups.get(2).base, 0);
    assert_eq!(state.segments.get(3).length, 3);
}

#[test]
fn memory_map_rejects_groups_of_unknown_segments() {
    let mut state = LinkState::new();
    state.segments = segments_of(&[(1, 1, Align::Byte)]);
    let mut group = Group::new(1);
    group.add(2);
    state.groups.push(group);
    assert!(pass1_build_memory_map(&mut state).is_err());
    assert_eq!(state.segment_order, [1]);
}

#[test]
fn memory_map_that_fails_places_nothing() {
    let mut state = LinkState::new();
    state.segments = segments_of(&[(1, 0x11, Align::Byte), (1, 5, Align::Para)]);
    let mut first = *state.segments.get(1);
    first.base = 0x77;
    state.segments.set(1, first);
    let mut group = Group::new(1);
    group.add(2);
    state.groups.push(group);
    let mut group = Group::new(2);
    group.add(3);
    state.groups.push(group);
    let err = pass1_build_memory_map(&mut state).unwrap_err();
    assert_eq!(err.to_string(), "a group names a segment that does not exist");
    assert_eq!(state.segment_order, [1, 2]);
    assert_eq!(state.segments.get(1).base, 0x77);
    assert_eq!(state.segments.get(2).base, 0);
    assert_eq!(state.groups.get(1).base, 0);
}
