use omflink::linker_error::LinkerError;
use omflink::record::{Record, RecordType};

#[test]
fn construct() {
    //
    // Too short for header.
    //
    let rec = [0x88, 0x04];
    assert!(Record::new(&rec).is_err());

    //
    // Invalid length
    //
    let rec = [0x88, 0x04, 0x00];
    assert!(Record::new(&rec).is_err());

    //
    // Too short for checksum
    //
    let rec = [0x88, 0x00, 0x00];
    assert!(Record::new(&rec).is_err());

    //
    // Empty but ok
    //
    let rec = [0x88, 0x01, 0x00, 0x00];
    assert!(Record::new(&rec).is_ok());

    //
    // Empty, should fail to get byte.
    //
    let mut rec = Record::new(&rec).unwrap();
    assert!(rec.byte().is_err());

    //
    // Exactly one byte has one byte.
    //
    let rec = [0x88, 0x02, 0x00, 0xff, 0x00];
    let mut rec = Record::new(&rec).unwrap();

    assert_eq!(rec.rectype, RecordType::COMENT);

    assert_eq!(rec.byte().expect("failed to get byte"), 0xff);

    assert!(rec.end());
    assert!(rec.byte().is_err());
    assert_eq!(rec.total_length(), 5);
}

#[test]
fn get() -> Result<(), LinkerError> {
    let rec = [0x88, 0x05, 0x00, 0x03, 0x41, 0x42, 0x43, 0x00];

    let mut rec = Record::new(&rec)?;

    assert_eq!(rec.get(4)?, [0x03, 0x41, 0x42, 0x43]);

    Ok(())
}

#[test]
fn get_truncated() -> Result<(), LinkerError> {
    let rec = [0x88, 0x05, 0x00, 0x03, 0x41, 0x42, 0x43, 0x00];

    let mut rec = Record::new(&rec)?;

    assert!(rec.get(5).is_err());

    Ok(())
}

#[test]
fn counted_string_ok() -> Result<(), LinkerError> {
    let rec = [0x88, 0x05, 0x00, 0x03, 0x41, 0x42, 0x43, 0x00];

    let mut rec = Record::new(&rec)?;

    assert_eq!(rec.counted_string()?, "ABC");

    Ok(())
}

#[test]
fn counted_string_truncated() -> Result<(), LinkerError> {
    //
    // Count is too short
    //
    let rec = [0x88, 0x05, 0x00, 0x04, 0x41, 0x42, 0x43, 0x00];
    let mut rec = Record::new(&rec)?;
    assert!(rec.counted_string().is_err());

    //
    // Not even room for count
    //
    let rec = [0x88, 0x01, 0x00, 0x00];
    let mut rec = Record::new(&rec)?;
    assert!(rec.counted_string().is_err());
    Ok(())
}

#[test]
fn word_ok() -> Result<(), LinkerError> {
    let rec = [0x88, 0x03, 0x00, 0x34, 0x12, 0x00];
    let mut rec = Record::new(&rec)?;
    assert_eq!(rec.word()?, 0x1234);

    Ok(())
}

#[test]
fn word_truncated() -> Result<(), LinkerError> {
    //
    // Count is too short
    //
    let rec = [0x88, 0x02, 0x00, 0x34, 0x12];
    let mut rec = Record::new(&rec)?;
    assert!(rec.word().is_err());

    Ok(())
}

#[test]
fn dword_ok() -> Result<(), LinkerError> {
    let rec = [0x88, 0x05, 0x00, 0x78, 0x56, 0x34, 0x12, 0x00];
    let mut rec = Record::new(&rec)?;
    assert_eq!(rec.dword()?, 0x12345678);

    Ok(())
}

#[test]
fn dword_truncated() -> Result<(), LinkerError> {
    //
    // Count is too short
    //
    let rec = [0x88, 0x04, 0x00, 0x78, 0x56, 0x34, 0x12];
    let mut rec = Record::new(&rec)?;
    assert!(rec.dword().is_err());

    Ok(())
}

#[test]
fn index_short_ok() -> Result<(), LinkerError> {
    let rec = [0x88, 0x02, 0x00, 0x7f, 0x00];
    let mut rec = Record::new(&rec)?;
    assert_eq!(rec.index()?, 0x7f);

    Ok(())
}

#[test]
fn index_long_ok() -> Result<(), LinkerError> {
    let rec = [0x88, 0x03, 0x00, 0xc0, 0x7a, 0x00];
    let mut rec = Record::new(&rec)?;
    assert_eq!(rec.index()?, 0x407a);

    Ok(())
}

#[test]
fn index_truncated() -> Result<(), LinkerError> {
    let rec = [0x88, 0x02, 0x00, 0xc0, 0x00];
    let mut rec = Record::new(&rec)?;
    assert!(rec.index().is_err());

    Ok(())
}

#[test]
fn comdef_one_byte() -> Result<(), LinkerError> {
    let rec = [0x88, 0x02, 0x00, 0x42, 0x00];
    let mut rec = Record::new(&rec)?;

    assert_eq!(rec.comdef_length()?, 0x42);

    Ok(())
}

#[test]
fn comdef_one_byte_truncated() -> Result<(), LinkerError> {
    let rec = [0x88, 0x01, 0x00, 0x00];
    let mut rec = Record::new(&rec)?;

    assert!(rec.comdef_length().is_err());

    Ok(())
}

#[test]
fn comdef_two_bytes() -> Result<(), LinkerError> {
    let rec = [0x88, 0x04, 0x00, 0x81, 0x42, 0x12, 0x00];
    let mut rec = Record::new(&rec)?;

    assert_eq!(rec.comdef_length()?, 0x1242);

    Ok(())
}

#[test]
fn comdef_two_bytes_truncated() -> Result<(), LinkerError> {
    let rec = [0x88, 0x03, 0x00, 0x81, 0x42, 0x00];
    let mut rec = Record::new(&rec)?;

    assert!(rec.comdef_length().is_err());

    Ok(())
}

#[test]
fn comdef_three_bytes() -> Result<(), LinkerError> {
    let rec = [0x88, 0x05, 0x00, 0x84, 0xff, 0x42, 0x12, 0x00];
    let mut rec = Record::new(&rec)?;

    assert_eq!(rec.comdef_length()?, 0x1242ff);

    Ok(())
}

#[test]
fn comdef_three_bytes_truncated() -> Result<(), LinkerError> {
    let rec = [0x88, 0x03, 0x00, 0x81, 0x42, 0x00];
    let mut rec = Record::new(&rec)?;

    assert!(rec.comdef_length().is_err());

    Ok(())
}

#[test]
fn comdef_four_bytes() -> Result<(), LinkerError> {
    let rec = [0x88, 0x06, 0x00, 0x88, 0xee, 0xff, 0x42, 0x12, 0x00];
    let mut rec = Record::new(&rec)?;

    assert_eq!(rec.comdef_length()?, 0x1242ffee);

    Ok(())
}

#[test]
fn comdef_four_bytes_truncated() -> Result<(), LinkerError> {
    let rec = [0x88, 0x05, 0x00, 0x88, 0xee, 0xff, 0x42, 0x12];
    let mut rec = Record::new(&rec)?;

    assert!(rec.comdef_length().is_err());

    Ok(())
}

#[test]
fn comdef_invalid_lead_byte() -> Result<(), LinkerError> {
    let rec = [0x88, 0x06, 0x00, 0x89, 0xee, 0xff, 0x42, 0x12, 0x00];
    let mut rec = Record::new(&rec)?;

    assert!(rec.comdef_length().is_err());

    Ok(())
}

#[test]
fn errors_name_what_was_read() {
    let bytes = [0x88, 0x06, 0x00, 0x89, 0xee, 0xff, 0x42, 0x12, 0x00];
    let mut rec = Record::new(&bytes).unwrap();
    let err = rec.comdef_length().unwrap_err();
    assert_eq!(err.to_string(), "invalid comdef length lead byte 89H");
    assert_eq!(rec.rest().len(), 4);
    let err = rec.byte().unwrap_err();
    assert_eq!(err.to_string(), "OMF record truncated; expected byte at offset 5");
    let err = Record::new(&[0x07, 0x02, 0x00, 0x00, 0x00]).err().unwrap();
    assert_eq!(err.to_string(), "unhandled record 07");
    let err = Record::new(&[0x88, 0x00, 0x00, 0x00]).err().unwrap();
    assert_eq!(err.to_string(), "Invalid OMF record length.");
    let err = Record::new(&[0x88, 0x09, 0x00, 0x00]).err().unwrap();
    assert_eq!(err.to_string(), "Truncated OMF record.");
    let err = RecordType::from_data(0xff).unwrap_err();
    assert_eq!(err.to_string(), "unhandled record FF");
}

#[test]
fn counted_string_fills_the_record() {
    let bytes = [0x88, 0x05, 0x00, 0x03, b'A', b'B', b'C', 0x00];
    let mut rec = Record::new(&bytes).unwrap();
    assert_eq!(rec.counted_string().unwrap(), "ABC");
    assert!(rec.end());
    assert_eq!(rec.total_length(), 8);
}

#[test]
fn record_ignores_what_follows_it() {
    let bytes = [0x96, 0x03, 0x00, 0x11, 0x22, 0x00, 0xaa, 0xbb];
    let mut rec = Record::new(&bytes).unwrap();
    assert_eq!(rec.rectype, RecordType::LNAMES);
    assert_eq!(rec.total_length(), 6);
    assert_eq!(rec.word().unwrap(), 0x2211);
    assert!(rec.end());
    assert!(rec.byte().is_err());
}

#[test]
fn unknown_record_type_is_rejected() {
    let bytes = [0x42, 0x02, 0x00, 0x00, 0x00];
    assert!(Record::new(&bytes).is_err());
}

#[test]
fn every_known_record_type_is_recognised() {
    let known = [
        (0x80, RecordType::THEADR),
        (0x88, RecordType::COMENT),
        (0x8a, RecordType::MODEND),
        (0x8c, RecordType::EXTDEF),
        (0x90, RecordType::PUBDEF),
        (0x96, RecordType::LNAMES),
        (0x98, RecordType::SEGDEF),
        (0x9a, RecordType::GRPDEF),
        (0x9c, RecordType::FIXUPP),
        (0xa0, RecordType::LEDATA),
        (0xa2, RecordType::LIDATA),
        (0xb0, RecordType::COMDEF),
        (0xb4, RecordType::LEXTDEF),
        (0xb6, RecordType::LPUBDEF),
        (0xb8, RecordType::LCOMDEF),
        (0xf0, RecordType::LIBHDR),
        (0xf1, RecordType::LIBEND),
        (0xf2, RecordType::EXTDCT),
    ];
    for (code, ty) in known {
        assert_eq!(RecordType::from_data(code).unwrap(), ty);
    }
    let mut unknown = 0;
    for code in 0..=255u8 {
        if RecordType::from_data(code).is_err() {
            unknown += 1;
        }
    }
    assert_eq!(unknown, 256 - 18);
}

#[test]
fn index_round_trip() {
    for n in [0usize, 1, 0x7f, 0x80, 0x81, 0xff, 0x100, 0x407a, 0x7fff] {
        let mut payload = Vec::new();
        if n < 0x80 {
            payload.push(n as u8);
        } else {
            payload.push(0x80 | (n >> 8) as u8);
            payload.push((n & 0xff) as u8);
        }
        let mut bytes = vec![0x88, (payload.len() + 1) as u8, 0x00];
        bytes.extend_from_slice(&payload);
        bytes.push(0);
        let mut rec = Record::new(&bytes).unwrap();
        assert_eq!(rec.index().unwrap(), n);
        assert!(rec.end());
    }
}

#[test]
fn fields_read_back_in_order() {
    let bytes = [
        0x88, 0x10, 0x00, 0x7e, 0x34, 0x12, 0x78, 0x56, 0x34, 0x12, 0x81, 0x00, 0x01, 0x02, b'h',
        b'i', 0x05, 0x06, 0x00,
    ];
    let mut rec = Record::new(&bytes).unwrap();
    assert_eq!(rec.byte().unwrap(), 0x7e);
    assert_eq!(rec.word().unwrap(), 0x1234);
    assert_eq!(rec.dword().unwrap(), 0x12345678);
    assert_eq!(rec.comdef_length().unwrap(), 0x100);
    assert_eq!(rec.counted_string().unwrap(), "hi");
    assert_eq!(rec.rest(), [0x05, 0x06]);
    assert!(rec.end());
    assert!(rec.word().is_err());
    assert!(rec.index().is_err());
    assert!(rec.counted_bytes().is_err());
}

#[test]
fn counted_bytes_ok() {
    let bytes = [0x88, 0x05, 0x00, 0x02, 0xfe, 0xff, 0x09, 0x00];
    let mut rec = Record::new(&bytes).unwrap();
    assert_eq!(rec.counted_bytes().unwrap(), [0xfe, 0xff]);
    assert_eq!(rec.byte().unwrap(), 0x09);
}

#[test]
fn counted_string_must_be_text() {
    let bytes = [0x88, 0x04, 0x00, 0x02, 0xff, 0xfe, 0x00];
    let mut rec = Record::new(&bytes).unwrap();
    assert!(rec.counted_string().is_err());
    assert!(rec.end());
}

#[test]
fn comdef_length_of_0x80_is_one_byte() {
    let bytes = [0x88, 0x02, 0x00, 0x80, 0x00];
    let mut rec = Record::new(&bytes).unwrap();
    assert_eq!(rec.comdef_length().unwrap(), 0x80);
    assert!(rec.end());
}

#[test]
fn error_text() {
    let inner = LinkerError::new("record is truncated.");
    assert_eq!(inner.to_string(), "record is truncated.");
    let outer = LinkerError::located("pass1", "a.obj", "HELLO", 0x1f, &inner);
    assert_eq!(
        outer.to_string(),
        "pass1: module a.obj (module HELLO) at 0001FH: record is truncated."
    );
    let plain = LinkerError::located("pass2", "b", "", 0x123456, &inner);
    assert_eq!(plain.to_string(), "pass2: module b at 123456H: record is truncated.");
    assert_eq!(LinkerError::counted(12, " undefined externals").to_string(), "12 undefined externals");
    assert_eq!(LinkerError::counted(0, "x").to_string(), "0x");
    assert_eq!(LinkerError::with_detail("a: ", "b").to_string(), "a: b");
    assert_eq!(LinkerError::with_context("ctx: ", &inner).to_string(), "ctx: record is truncated.");
}
