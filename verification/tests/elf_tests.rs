use kernel_loader::elf::{addr_range, try_addr_range, Ehdr64, Phdr64};

/// File header fields encoded with bincode's standard configuration: each
/// integer below 251 is one byte, larger ones a marker and the value.
fn bincode_header(phoff: u8, phnum: u8) -> Vec<u8> {
    let mut v = vec![0x7f, b'E', b'L', b'F', 2, 1, 1, 0, 0, 0, 0, 0, 0, 0, 0, 0];
    v.push(2); // e_type
    v.push(0x3e); // e_machine
    v.push(1); // e_version
    v.extend_from_slice(&[251, 0x00, 0x10]); // e_entry = 0x1000
    v.push(phoff); // e_phoff
    v.push(0); // e_shoff
    v.push(0); // e_flags
    v.push(64); // e_ehsize
    v.push(56); // e_phentsize
    v.push(phnum); // e_phnum
    v.push(64); // e_shentsize
    v.push(0); // e_shnum
    v.push(0); // e_shstrndx
    v.resize(64, 0);
    v
}

fn raw_phdr(p_type: u32, vaddr: u64, memsz: u64) -> Vec<u8> {
    let mut v = Vec::new();
    v.extend_from_slice(&p_type.to_le_bytes());
    v.extend_from_slice(&0u32.to_le_bytes());
    v.extend_from_slice(&0u64.to_le_bytes());
    v.extend_from_slice(&vaddr.to_le_bytes());
    v.extend_from_slice(&vaddr.to_le_bytes());
    v.extend_from_slice(&memsz.to_le_bytes());
    v.extend_from_slice(&memsz.to_le_bytes());
    v.extend_from_slice(&0x1000u64.to_le_bytes());
    v
}

#[test]
fn deserializes_file_header() {
    let buf = bincode_header(64, 2);
    let h = Ehdr64::deserialize(&buf).unwrap();
    assert_eq!(&h.e_ident[..4], &[0x7f, b'E', b'L', b'F']);
    assert_eq!(h.e_type, 2);
    assert_eq!(h.e_machine, 0x3e);
    assert_eq!(h.e_version, 1);
    assert_eq!(h.e_entry, 0x1000);
    assert_eq!(h.e_phoff, 64);
    assert_eq!(h.e_shoff, 0);
    assert_eq!(h.e_flags, 0);
    assert_eq!(h.e_ehsize, 64);
    assert_eq!(h.e_phentsize, 56);
    assert_eq!(h.e_phnum, 2);
    assert_eq!(h.e_shentsize, 64);
    assert_eq!(h.e_shnum, 0);
    assert_eq!(h.e_shstrndx, 0);
}

#[test]
fn file_header_with_bad_varint_does_not_decode() {
    let mut buf = bincode_header(64, 2);
    buf[16] = 252; // a four-byte marker where a u16 is expected
    assert!(Ehdr64::deserialize(&buf).is_err());
}

#[test]
fn deserializes_program_header() {
    let mut buf = vec![1, 5, 251, 0x00, 0x02, 251, 0x00, 0x10, 0, 16, 32, 251, 0x00, 0x10];
    buf.resize(56, 0);
    let p = Phdr64::deserialize(&buf).unwrap();
    assert_eq!(p.p_type, 1);
    assert_eq!(p.p_flags, 5);
    assert_eq!(p.p_offset, 0x200);
    assert_eq!(p.p_vaddr, 0x1000);
    assert_eq!(p.p_paddr, 0);
    assert_eq!(p.p_filesz, 16);
    assert_eq!(p.p_memsz, 32);
    assert_eq!(p.p_align, 0x1000);
}

#[test]
fn program_header_with_bad_varint_does_not_decode() {
    let mut buf = vec![1, 5, 251, 0x00, 0x02, 254];
    buf.resize(56, 0); // 254 announces a u128 where a u64 is expected
    assert!(Phdr64::deserialize(&buf).is_err());
}

#[test]
fn addr_range_spans_all_program_headers() {
    let mut buf = bincode_header(64, 2);
    buf.extend(raw_phdr(1, 0x20000, 0x100));
    buf.extend(raw_phdr(4, 0x10000, 0x8));
    assert_eq!(addr_range(&buf), (0x10000, 0x20100));
    assert_eq!(try_addr_range(&buf), Some((0x10000, 0x20100)));
}

#[test]
fn addr_range_without_program_headers() {
    let buf = bincode_header(64, 0);
    assert_eq!(addr_range(&buf), (u64::MAX, 0));
}

#[test]
fn try_addr_range_rejects_bad_input() {
    assert_eq!(try_addr_range(&[0u8; 10]), None);
    let mut bad = bincode_header(64, 1);
    bad[16] = 252;
    bad.extend(raw_phdr(1, 0x1000, 0x10));
    assert_eq!(try_addr_range(&bad), None);
    let short = bincode_header(64, 1);
    assert_eq!(try_addr_range(&short), None);
    let mut overflow = bincode_header(64, 1);
    overflow.extend(raw_phdr(1, u64::MAX, 0x10));
    assert_eq!(try_addr_range(&overflow), None);
}

#[test]
fn empty_table_may_lie_anywhere() {
    let buf = bincode_header(200, 0);
    assert_eq!(addr_range(&buf), (u64::MAX, 0));
    assert_eq!(try_addr_range(&buf), Some((u64::MAX, 0)));
}

#[test]
fn one_more_header_widens_the_range() {
    let mut one = bincode_header(64, 1);
    one.extend(raw_phdr(1, 0x20000, 0x100));
    assert_eq!(addr_range(&one), (0x20000, 0x20100));
    let mut two = bincode_header(64, 2);
    two.extend(raw_phdr(1, 0x20000, 0x100));
    two.extend(raw_phdr(1, 0x30000, 0x10));
    assert_eq!(addr_range(&two), (0x20000, 0x30010));
    let mut three = bincode_header(64, 3);
    three.extend(raw_phdr(1, 0x20000, 0x100));
    three.extend(raw_phdr(1, 0x30000, 0x10));
    three.extend(raw_phdr(4, 0x1000, 0x10));
    assert_eq!(addr_range(&three), (0x1000, 0x30010));
}
