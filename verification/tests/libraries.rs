use omflink::library::{DictHash, Dictionary, Library};
use omflink::linker_error::LinkerError;
use omflink::record::{Record, RecordType};

const PAGE_SIZE: usize = 16;
const MOD1_PAGE: usize = 1;
const MOD2_PAGE: usize = 3;
const DICT_OFFSET: usize = 512;

fn record(ty: u8, payload: &[u8]) -> Vec<u8> {
    let len = payload.len() + 1;
    let mut bytes = vec![ty, (len & 0xff) as u8, (len >> 8) as u8];
    bytes.extend_from_slice(payload);
    bytes.push(0);
    bytes
}

fn counted(name: &str) -> Vec<u8> {
    let mut bytes = vec![name.len() as u8];
    bytes.extend_from_slice(name.as_bytes());
    bytes
}

fn pad_to(bytes: &mut Vec<u8>, len: usize) {
    assert!(bytes.len() <= len);
    bytes.resize(len, 0);
}

/// One dictionary block that holds each of `entries` in the bucket given
/// with it.
fn dict_block(entries: &[(&str, u16, usize)], full: bool) -> Vec<u8> {
    let mut block = vec![0u8; 512];
    let mut free = 38;
    for (name, page, bucket) in entries {
        assert_eq!(block[*bucket], 0);
        assert_eq!(free % 2, 0);
        block[*bucket] = (free / 2) as u8;
        block[free] = name.len() as u8;
        block[free + 1..free + 1 + name.len()].copy_from_slice(name.as_bytes());
        block[free + 1 + name.len()] = (*page & 0xff) as u8;
        block[free + 2 + name.len()] = (*page >> 8) as u8;
        free += 3 + name.len();
        free += free % 2;
    }
    block[37] = if full { 0xff } else { (free / 2) as u8 };
    block
}

/// A library of two modules: `mod1.ASM` at page 1, which defines `FOO`, and
/// `mod2.ASM` at page 3, which needs `FOO` and so depends on the first.
fn get_testlib() -> Vec<u8> {
    let mut header = vec![0u8; PAGE_SIZE - 4];
    header[0] = (DICT_OFFSET & 0xff) as u8;
    header[1] = (DICT_OFFSET >> 8) as u8;
    header[4] = 1;
    let mut lib = record(0xf0, &header);
    assert_eq!(lib.len(), PAGE_SIZE);

    let mut public = vec![0x00, 0x00, 0x00, 0x00];
    public.extend(counted("FOO"));
    public.extend([0x00, 0x00, 0x00]);
    lib.extend(record(0x80, &counted("mod1.ASM")));
    lib.extend(record(0x8a, &[0x00]));
    assert!(lib.len() <= MOD2_PAGE * PAGE_SIZE);
    pad_to(&mut lib, MOD2_PAGE * PAGE_SIZE);

    let mut ext = counted("FOO");
    ext.push(0x00);
    lib.extend(record(0x80, &counted("mod2.ASM")));
    lib.extend(record(0x8c, &ext));
    lib.extend(record(0x8a, &[0x00]));
    let used = lib.len();
    lib.extend(record(0xf1, &vec![0u8; DICT_OFFSET - used - 4]));
    assert_eq!(lib.len(), DICT_OFFSET);

    lib.extend(dict_block(&[("FOO", MOD1_PAGE as u16, 16)], false));

    let mut extdict = vec![0x02, 0x00];
    extdict.extend([MOD1_PAGE as u8, 0x00, 0x08, 0x00]);
    extdict.extend([MOD2_PAGE as u8, 0x00, 0x0a, 0x00]);
    extdict.extend([0x00, 0x00]);
    extdict.extend([0x01, 0x00, 0x00, 0x00]);
    lib.extend(record(0xf2, &extdict));
    lib
}

#[test]
fn basic_parsing() -> Result<(), LinkerError> {
    Library::from_data(get_testlib(), "testlib")?;
    Ok(())
}

#[test]
fn find_dependencies() -> Result<(), LinkerError> {
    let lib = Library::from_data(get_testlib(), "testlib")?;

    assert_eq!(lib.get_all_module_dependencies(MOD1_PAGE)?, Vec::from([MOD1_PAGE]));
    assert_eq!(lib.get_all_module_dependencies(MOD2_PAGE)?, Vec::from([MOD1_PAGE, MOD2_PAGE]));

    Ok(())
}

#[test]
fn find_symbols() -> Result<(), LinkerError> {
    let lib = Library::from_data(get_testlib(), "testlib")?;

    assert_eq!(lib.find_symbol_in_dictionary("FOO")?, Some(MOD1_PAGE));
    assert_eq!(lib.find_symbol_in_dictionary("BAR")?, None);

    Ok(())
}

#[test]
fn extract_object() -> Result<(), LinkerError> {
    let lib = Library::from_data(get_testlib(), "testlib")?;

    let mut obj = lib.extract_module(MOD1_PAGE)?;
    let data = obj.data.take().unwrap();
    let mut rec = Record::new(&data[..])?;

    assert_eq!(rec.rectype, RecordType::THEADR);
    assert_eq!(rec.counted_string()?, "mod1.ASM");

    Ok(())
}

#[test]
fn header_fields() {
    let lib = Library::from_data(get_testlib(), "testlib").unwrap();
    assert_eq!(lib.name, "testlib");
    assert_eq!(lib.page_size, PAGE_SIZE);
    assert_eq!(lib.dictionary, Some(Dictionary { offset: DICT_OFFSET, block: 1 }));
    let ext = lib.extdict.unwrap();
    assert_eq!(ext.offset, DICT_OFFSET + 512 + 5);
    assert_eq!(ext.nodecount, 2);
    assert!(!lib.case_sensitive);
}

#[test]
fn not_a_library() {
    assert!(Library::from_data(record(0x80, &counted("mod1.ASM")), "x").is_err());
    assert!(Library::from_data(vec![0xf0, 0x05, 0x00, 0x00, 0x00, 0x00, 0x00, 0x00], "x").is_err());
    assert!(Library::from_data(vec![], "x").is_err());
}

#[test]
fn library_without_dictionary() {
    let lib = Library::from_data(record(0xf0, &[0u8; 12]), "bare").unwrap();
    assert_eq!(lib.dictionary, None);
    assert_eq!(lib.extdict, None);
    assert!(lib.hash_symbol("FOO").is_none());
    assert!(lib.find_symbol_in_dictionary("FOO").is_err());
    assert_eq!(lib.get_module_dependencies(1).unwrap(), Vec::<usize>::new());
    assert_eq!(lib.get_all_module_dependencies(7).unwrap(), [7]);
}

#[test]
fn hashes() {
    let mut lib = Library::from_data(get_testlib(), "testlib").unwrap();
    let hash = |lib: &Library, name: &str| lib.hash_symbol(name).unwrap();
    assert_eq!(
        hash(&lib, "FOO"),
        DictHash { block: 0, bucket: 16, block_delta: 1, bucket_delta: 32 }
    );
    assert_eq!(hash(&lib, "foo"), hash(&lib, "FOO"));
    assert_eq!(
        hash(&lib, "BAR"),
        DictHash { block: 0, bucket: 22, block_delta: 1, bucket_delta: 2 }
    );
    assert_eq!(
        hash(&lib, "A"),
        DictHash { block: 0, bucket: 23, block_delta: 1, bucket_delta: 33 }
    );
    lib.dictionary = Some(Dictionary { offset: DICT_OFFSET, block: 5 });
    assert_eq!(
        hash(&lib, "FOO"),
        DictHash { block: 2, bucket: 16, block_delta: 4, bucket_delta: 32 }
    );
    assert_eq!(
        hash(&lib, "main"),
        DictHash { block: 0, bucket: 24, block_delta: 2, bucket_delta: 8 }
    );
    assert_eq!(
        hash(&lib, "_printf"),
        DictHash { block: 4, bucket: 22, block_delta: 1, bucket_delta: 6 }
    );
    lib.dictionary = Some(Dictionary { offset: DICT_OFFSET, block: 3 });
    assert_eq!(
        hash(&lib, "_printf"),
        DictHash { block: 1, bucket: 22, block_delta: 2, bucket_delta: 6 }
    );
    assert!(lib.hash_symbol("").is_none());
    lib.dictionary = Some(Dictionary { offset: DICT_OFFSET, block: 0 });
    assert!(lib.hash_symbol("FOO").is_none());
}

#[test]
fn lookup_ignores_case_unless_told_otherwise() {
    let mut lib = Library::from_data(get_testlib(), "testlib").unwrap();
    assert_eq!(lib.find_symbol_in_dictionary("foo").unwrap(), Some(MOD1_PAGE));
    assert_eq!(lib.find_symbol_in_dictionary("Foo").unwrap(), Some(MOD1_PAGE));
    assert_eq!(lib.find_symbol_in_dictionary("").unwrap(), None);
    lib.case_sensitive = true;
    assert_eq!(lib.find_symbol_in_dictionary("foo").unwrap(), None);
    assert_eq!(lib.find_symbol_in_dictionary("FOO").unwrap(), Some(MOD1_PAGE));
}

/// A library that is nothing but a header and a dictionary of the blocks
/// given.
fn dictionary_only(blocks: &[Vec<u8>]) -> Library {
    let mut header = vec![0u8; 12];
    header[1] = 0x02;
    header[4] = blocks.len() as u8;
    let mut data = record(0xf0, &header);
    pad_to(&mut data, 512);
    for block in blocks {
        data.extend(block);
    }
    Library::from_data(data, "dict").unwrap()
}

#[test]
fn lookup_probes_buckets_and_blocks() {
    // FOO hashes to bucket 16 and steps by 32: its second probe is bucket
    // 11. BAR hashes to bucket 22.
    let lib = dictionary_only(&[dict_block(&[("ZED", 1, 16), ("FOO", 2, 11)], false)]);
    assert_eq!(lib.find_symbol_in_dictionary("FOO").unwrap(), Some(2));
    // A walk comes by every bucket of a block, so a name is found wherever
    // it is.
    assert_eq!(lib.find_symbol_in_dictionary("ZED").unwrap(), Some(1));
    assert_eq!(lib.find_symbol_in_dictionary("BAR").unwrap(), None);
    for bucket in 0..37 {
        let lib = dictionary_only(&[dict_block(&[("FOO", 7, bucket)], false)]);
        assert_eq!(lib.find_symbol_in_dictionary("FOO").unwrap(), Some(7));
    }

    // With 5 blocks FOO starts in block 2 and steps by 4, to block 1.
    let empty = dict_block(&[], false);
    let full = dict_block(&[], true);
    let holds = dict_block(&[("FOO", 9, 16)], false);
    let lib = dictionary_only(&[
        empty.clone(),
        holds.clone(),
        full.clone(),
        empty.clone(),
        empty.clone(),
    ]);
    assert_eq!(lib.find_symbol_in_dictionary("FOO").unwrap(), Some(9));
    let lib = dictionary_only(&[
        empty.clone(),
        holds.clone(),
        empty.clone(),
        empty.clone(),
        empty.clone(),
    ]);
    assert_eq!(lib.find_symbol_in_dictionary("FOO").unwrap(), None);
    let lib = dictionary_only(&[full.clone(), full.clone(), full.clone(), full.clone(), full]);
    assert_eq!(lib.find_symbol_in_dictionary("FOO").unwrap(), None);
}

#[test]
fn broken_dictionaries() {
    let mut lib = dictionary_only(&[dict_block(&[("FOO", 2, 16)], false)]);
    lib.dictionary = Some(Dictionary { offset: 512, block: 2 });
    // With two blocks FOO starts in block 1, which the file does not hold.
    assert!(lib.find_symbol_in_dictionary("FOO").is_err());
    lib.dictionary = Some(Dictionary { offset: 512, block: 0 });
    assert!(lib.find_symbol_in_dictionary("FOO").is_err());

    let mut block = dict_block(&[], false);
    block[16] = 0xff;
    block[510] = 0x04;
    let lib = dictionary_only(&[block]);
    assert!(lib.find_symbol_in_dictionary("FOO").is_err());

    let mut block = dict_block(&[("F\u{0}O", 2, 16)], false);
    block[40] = 0xff;
    let lib = dictionary_only(&[block]);
    assert!(lib.find_symbol_in_dictionary("FOO").is_err());
}

#[test]
fn direct_dependencies() {
    let lib = Library::from_data(get_testlib(), "testlib").unwrap();
    assert_eq!(lib.get_module_dependencies(MOD1_PAGE).unwrap(), Vec::<usize>::new());
    assert_eq!(lib.get_module_dependencies(MOD2_PAGE).unwrap(), [MOD1_PAGE]);
    assert_eq!(lib.get_module_dependencies(0).unwrap(), Vec::<usize>::new());
    assert_eq!(lib.get_module_dependencies(2).unwrap(), Vec::<usize>::new());
    assert_eq!(lib.get_module_dependencies(4).unwrap(), Vec::<usize>::new());
}

#[test]
fn dependency_cycles_end() {
    let mut data = get_testlib();
    let nodes = DICT_OFFSET + 512 + 5;
    // Let the first module depend on the second in turn.
    data[nodes + 2] = 0x0a;
    let lib = Library::from_data(data, "cycle").unwrap();
    assert_eq!(lib.get_module_dependencies(MOD1_PAGE).unwrap(), [MOD1_PAGE]);
    assert_eq!(lib.get_all_module_dependencies(MOD1_PAGE).unwrap(), [MOD1_PAGE]);

    // Let the first module depend on the second, and the second, by a list
    // of its own after the record, on the first.
    let mut data = get_testlib();
    data[nodes + 2] = 0x0a;
    data[nodes + 12] = 0x01;
    data[nodes + 6] = (data.len() - nodes) as u8;
    data.extend([0x01, 0x00, 0x00, 0x00]);
    let lib = Library::from_data(data, "cycle").unwrap();
    assert_eq!(lib.get_module_dependencies(MOD1_PAGE).unwrap(), [MOD2_PAGE]);
    assert_eq!(lib.get_all_module_dependencies(MOD1_PAGE).unwrap(), [MOD1_PAGE, MOD2_PAGE]);
    assert_eq!(lib.get_all_module_dependencies(MOD2_PAGE).unwrap(), [MOD1_PAGE, MOD2_PAGE]);
}

#[test]
fn broken_extended_dictionaries() {
    let nodes = DICT_OFFSET + 512 + 5;
    let mut data = get_testlib();
    data[nodes + 12] = 0x02;
    let lib = Library::from_data(data, "bad").unwrap();
    assert!(lib.get_module_dependencies(MOD2_PAGE).is_err());
    assert!(lib.get_all_module_dependencies(MOD2_PAGE).is_err());
    assert_eq!(lib.get_all_module_dependencies(MOD1_PAGE).unwrap(), [MOD1_PAGE]);

    let mut data = get_testlib();
    data[nodes + 6] = 0xf0;
    let lib = Library::from_data(data, "bad").unwrap();
    assert!(lib.get_module_dependencies(MOD2_PAGE).is_err());

    let mut data = get_testlib();
    data[nodes + 10] = 0x09;
    let lib = Library::from_data(data, "bad").unwrap();
    assert!(lib.get_module_dependencies(MOD2_PAGE).is_err());
}

#[test]
fn extraction() {
    let lib = Library::from_data(get_testlib(), "testlib").unwrap();
    let obj = lib.extract_module(MOD2_PAGE).unwrap();
    let data = obj.data.unwrap();
    let mut expected = record(0x80, &counted("mod2.ASM"));
    let mut ext = counted("FOO");
    ext.push(0x00);
    expected.extend(record(0x8c, &ext));
    expected.extend(record(0x8a, &[0x00]));
    assert_eq!(data, expected);
    assert_eq!(obj.name, "");
    assert_eq!(obj.segdefs.len(), 0);

    assert!(lib.extract_module(0).is_err());
    assert!(lib.extract_module(2).is_err());
    assert!(lib.extract_module(1000).is_err());
    assert!(lib.extract_module(usize::MAX).is_err());
    // The dictionary is no module either.
    assert!(lib.extract_module(DICT_OFFSET / PAGE_SIZE).is_err());
}
