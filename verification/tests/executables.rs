use omflink::dosexe::{DosExe, Relocation};
use omflink::linkstate::FarPtr;

fn word(bytes: &[u8], at: usize) -> u16 {
    bytes[at] as u16 | (bytes[at + 1] as u16) << 8
}

#[test]
fn header_of_an_empty_program() {
    let exe = DosExe::new(&[]);
    let file = exe.encode().unwrap();
    assert_eq!(file.len(), 512);
    assert_eq!(&file[0..2], b"MZ");
    assert_eq!(word(&file, 0x02), 0);
    assert_eq!(word(&file, 0x04), 1);
    assert_eq!(word(&file, 0x06), 0);
    assert_eq!(word(&file, 0x08), 32);
    assert_eq!(word(&file, 0x0a), 0);
    assert_eq!(word(&file, 0x0c), 0xffff);
    assert_eq!(word(&file, 0x0e), 0);
    assert_eq!(word(&file, 0x10), 0);
    assert_eq!(word(&file, 0x12), 0);
    assert_eq!(word(&file, 0x14), 0);
    assert_eq!(word(&file, 0x16), 0);
    assert_eq!(word(&file, 0x18), 0x3e);
    assert_eq!(word(&file, 0x1a), 0);
    assert_eq!(word(&file, 0x1c), 1);
    assert!(file[0x1e..].iter().all(|b| *b == 0));
}

#[test]
fn header_fields_and_relocations() {
    let image: Vec<u8> = (0..700).map(|i| (i % 251) as u8).collect();
    let mut exe = DosExe::new(&image);
    exe.set_min_alloc(0x0102);
    exe.set_max_alloc(0x0304);
    exe.set_stack(0x0506, 0x0708);
    exe.set_entry_point(&FarPtr::new(0x0001, 0x0002)).unwrap();
    exe.add_relocation(Relocation { seg: 0x1122, offset: 0x3344 });
    exe.add_relocation(Relocation { seg: 0x5566, offset: 0x7788 });
    let file = exe.encode().unwrap();
    assert_eq!(file.len(), 512 + 700);
    assert_eq!(&file[0..2], b"MZ");
    assert_eq!(word(&file, 0x02), 700 - 512);
    assert_eq!(word(&file, 0x04), 3);
    assert_eq!(word(&file, 0x06), 2);
    assert_eq!(word(&file, 0x08), 32);
    assert_eq!(word(&file, 0x0a), 0x0102);
    assert_eq!(word(&file, 0x0c), 0x0304);
    assert_eq!(word(&file, 0x0e), 0x0506);
    assert_eq!(word(&file, 0x10), 0x0708);
    assert_eq!(word(&file, 0x12), 0);
    assert_eq!(word(&file, 0x14), 0x0002);
    assert_eq!(word(&file, 0x16), 0x0001);
    assert_eq!(word(&file, 0x18), 0x3e);
    assert_eq!(word(&file, 0x1a), 0);
    assert_eq!(word(&file, 0x1c), 1);
    assert!(file[0x1e..0x3e].iter().all(|b| *b == 0));
    assert_eq!(&file[0x3e..0x46], [0x44, 0x33, 0x22, 0x11, 0x88, 0x77, 0x66, 0x55]);
    assert!(file[0x46..512].iter().all(|b| *b == 0));
    assert_eq!(&file[512..], &image[..]);
}

#[test]
fn header_grows_with_the_relocations() {
    let image = [0x90u8; 512];
    let mut exe = DosExe::new(&image);
    // 0x3e + 4 * 112 = 510 still fits in one page, one more does not.
    for i in 0..112 {
        exe.add_relocation(Relocation { seg: i, offset: 0 });
    }
    let file = exe.encode().unwrap();
    assert_eq!(file.len(), 1024);
    assert_eq!(word(&file, 0x02), 0);
    assert_eq!(word(&file, 0x04), 2);
    assert_eq!(word(&file, 0x08), 32);
    exe.add_relocation(Relocation { seg: 0xabcd, offset: 0x1234 });
    let file = exe.encode().unwrap();
    assert_eq!(file.len(), 1536);
    assert_eq!(word(&file, 0x04), 3);
    assert_eq!(word(&file, 0x06), 113);
    assert_eq!(word(&file, 0x08), 64);
    assert_eq!(&file[510..514], [0x34, 0x12, 0xcd, 0xab]);
    assert_eq!(&file[1024..], &image[..]);
}

#[test]
fn entry_point_must_lie_in_the_image() {
    let image = [0u8; 0x21];
    let mut exe = DosExe::new(&image);
    assert!(exe.far_ptr_in_range(&FarPtr::new(2, 0), 1));
    assert!(!exe.far_ptr_in_range(&FarPtr::new(2, 0), 2));
    assert!(exe.far_ptr_in_range(&FarPtr::new(1, 0x10), 1));
    assert!(!exe.far_ptr_in_range(&FarPtr::new(1, 0x11), 1));
    assert!(exe.far_ptr_in_range(&FarPtr::new(0, 0), 0x21));
    assert!(!exe.far_ptr_in_range(&FarPtr::new(0, 0), usize::MAX));
    assert!(exe.set_entry_point(&FarPtr::new(2, 1)).is_err());
    assert!(exe.set_entry_point(&FarPtr::new(2, 0)).is_ok());
    let file = exe.encode().unwrap();
    assert_eq!(word(&file, 0x14), 0);
    assert_eq!(word(&file, 0x16), 2);
    assert!(exe.set_entry_point(&FarPtr::new(0x1000, 0)).is_err());
    let file = exe.encode().unwrap();
    assert_eq!(word(&file, 0x16), 2);

    let mut empty = DosExe::new(&[]);
    assert!(empty.set_entry_point(&FarPtr::null()).is_err());
}

#[test]
fn too_many_relocations() {
    let mut exe = DosExe::new(&[]);
    for _ in 0..0xffff {
        exe.add_relocation(Relocation { seg: 0, offset: 0 });
    }
    let file = exe.encode().unwrap();
    assert_eq!(word(&file, 0x06), 0xffff);
    assert_eq!(file.len(), 512 * 513);
    assert_eq!(word(&file, 0x04), 513);
    assert_eq!(word(&file, 0x08), 513 * 32);
    exe.add_relocation(Relocation { seg: 0, offset: 0 });
    assert!(exe.encode().is_err());
}

#[test]
fn too_large_an_image() {
    let image = vec![0u8; 0xffff * 512 + 1];
    let exe = DosExe::new(&image);
    assert!(exe.encode().is_err());
    let exe = DosExe::new(&image[..0xffff * 512]);
    let file = exe.encode().unwrap();
    assert_eq!(word(&file, 0x02), 0);
    assert_eq!(word(&file, 0x04), 0);
    assert_eq!(file.len(), 512 + 0xffff * 512);
}
