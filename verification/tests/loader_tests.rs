use kernel_loader::elf64::{phdrs, Elf64_Ehdr, PT_LOAD};
use kernel_loader::loader::{
    calc_load_address_range, copy_load_segments, load_address_range, page_region, plan_load,
    PlanError,
};
use kernel_loader::page::{align_page, size_in_pages, PAGE_UNIT_SIZE};

struct Seg {
    p_type: u32,
    offset: u64,
    vaddr: u64,
    filesz: u64,
    memsz: u64,
}

fn put(buf: &mut Vec<u8>, off: usize, bytes: &[u8]) {
    buf[off..off + bytes.len()].copy_from_slice(bytes);
}

/// An ELF64 image with the given program headers right after the file
/// header, `total` bytes long, whose byte `i` past the headers is `i as u8`.
fn image(segs: &[Seg], total: usize, entry: u64) -> Vec<u8> {
    let mut buf: Vec<u8> = (0..total).map(|i| i as u8).collect();
    for b in buf.iter_mut().take(64 + 56 * segs.len()) {
        *b = 0;
    }
    put(&mut buf, 0, &[0x7f, b'E', b'L', b'F', 2, 1, 1, 0]);
    put(&mut buf, 16, &2u16.to_le_bytes());
    put(&mut buf, 18, &0x3eu16.to_le_bytes());
    put(&mut buf, 20, &1u32.to_le_bytes());
    put(&mut buf, 24, &entry.to_le_bytes());
    put(&mut buf, 32, &64u64.to_le_bytes());
    put(&mut buf, 52, &64u16.to_le_bytes());
    put(&mut buf, 54, &56u16.to_le_bytes());
    put(&mut buf, 56, &(segs.len() as u16).to_le_bytes());
    for (i, s) in segs.iter().enumerate() {
        let o = 64 + 56 * i;
        put(&mut buf, o, &s.p_type.to_le_bytes());
        put(&mut buf, o + 4, &5u32.to_le_bytes());
        put(&mut buf, o + 8, &s.offset.to_le_bytes());
        put(&mut buf, o + 16, &s.vaddr.to_le_bytes());
        put(&mut buf, o + 24, &s.vaddr.to_le_bytes());
        put(&mut buf, o + 32, &s.filesz.to_le_bytes());
        put(&mut buf, o + 40, &s.memsz.to_le_bytes());
        put(&mut buf, o + 48, &0x1000u64.to_le_bytes());
    }
    buf
}

fn kernel_segments() -> Vec<Seg> {
    vec![
        Seg { p_type: PT_LOAD, offset: 0x200, vaddr: 0x10010, filesz: 0x10, memsz: 0x20 },
        Seg { p_type: 4, offset: 0x0, vaddr: 0x0, filesz: 0x8, memsz: 0x8 },
        Seg { p_type: PT_LOAD, offset: 0x300, vaddr: 0x12000, filesz: 0x8, memsz: 0x8 },
    ]
}

#[test]
fn align_page_rounds_down() {
    assert_eq!(PAGE_UNIT_SIZE, 0x1000);
    assert_eq!(align_page(0), 0);
    assert_eq!(align_page(0x1234), 0x1000);
    assert_eq!(align_page(0x1000), 0x1000);
    assert_eq!(align_page(0x1fff), 0x1000);
    assert_eq!(align_page(align_page(0x5678)), align_page(0x5678));
}

#[test]
fn size_in_pages_rounds_up() {
    assert_eq!(size_in_pages(0), 0);
    assert_eq!(size_in_pages(1), 1);
    assert_eq!(size_in_pages(4096), 1);
    assert_eq!(size_in_pages(4097), 2);
    assert_eq!(size_in_pages(3 * 4096), 3);
}

#[test]
fn page_region_covers_range() {
    assert_eq!(page_region(0x10010, 0x12008), (0x10000, 3));
    assert_eq!(page_region(0x10000, 0x11000), (0x10000, 1));
    assert_eq!(page_region(0x10000, 0x10000), (0x10000, 0));
}

#[test]
fn reads_file_header() {
    let img = image(&kernel_segments(), 0x400, 0x10010);
    let h = Elf64_Ehdr::read(&img);
    assert_eq!(&h.e_ident[..4], &[0x7f, b'E', b'L', b'F']);
    assert_eq!(h.e_type, 2);
    assert_eq!(h.e_machine, 0x3e);
    assert_eq!(h.e_version, 1);
    assert_eq!(h.e_entry, 0x10010);
    assert_eq!(h.e_phoff, 64);
    assert_eq!(h.e_ehsize, 64);
    assert_eq!(h.e_phentsize, 56);
    assert_eq!(h.e_phnum, 3);
    assert_eq!(h.e_shnum, 0);
}

#[test]
fn reads_program_headers() {
    let img = image(&kernel_segments(), 0x400, 0x10010);
    let table = phdrs(&img);
    assert_eq!(table.len(), 3);
    assert_eq!(table[0].p_type, PT_LOAD);
    assert_eq!(table[0].p_flags, 5);
    assert_eq!(table[0].p_offset, 0x200);
    assert_eq!(table[0].p_vaddr, 0x10010);
    assert_eq!(table[0].p_paddr, 0x10010);
    assert_eq!(table[0].p_filesz, 0x10);
    assert_eq!(table[0].p_memsz, 0x20);
    assert_eq!(table[0].p_align, 0x1000);
    assert_eq!(table[1].p_type, 4);
    assert_eq!(table[2].p_vaddr, 0x12000);
}

#[test]
fn load_range_spans_loadable_segments() {
    let img = image(&kernel_segments(), 0x400, 0x10010);
    assert_eq!(calc_load_address_range(&img), Some((0x10010, 0x12008)));
}

#[test]
fn load_range_ignores_other_segments() {
    let segs = vec![
        Seg { p_type: 4, offset: 0, vaddr: 0x5, filesz: 0, memsz: 0x100000 },
        Seg { p_type: PT_LOAD, offset: 0x200, vaddr: 0x20000, filesz: 0, memsz: 0x10 },
    ];
    let img = image(&segs, 0x300, 0);
    assert_eq!(calc_load_address_range(&img), Some((0x20000, 0x20010)));
}

#[test]
fn load_range_without_loadable_segment() {
    let segs = vec![Seg { p_type: 4, offset: 0, vaddr: 0x5, filesz: 0, memsz: 0x10 }];
    let img = image(&segs, 0x200, 0);
    assert_eq!(calc_load_address_range(&img), None);
    assert_eq!(load_address_range(&[]), None);
}

#[test]
fn copies_segments_and_zeroes_the_rest() {
    let img = image(&kernel_segments(), 0x400, 0x10010);
    let mut buffer = vec![0xaau8; 3 * 4096];
    copy_load_segments(&img, &mut buffer, 0x10000);
    for k in 0..0x10usize {
        assert_eq!(buffer[0x10 + k], (0x200 + k) as u8);
    }
    for k in 0x10..0x20usize {
        assert_eq!(buffer[0x10 + k], 0);
    }
    for k in 0..8usize {
        assert_eq!(buffer[0x2000 + k], (0x300 + k) as u8);
    }
    assert_eq!(buffer[0x0f], 0xaa);
    assert_eq!(buffer[0x30], 0xaa);
    assert_eq!(buffer[0x1fff], 0xaa);
    assert_eq!(buffer[0x2008], 0xaa);
}

#[test]
fn plans_kernel_load() {
    let img = image(&kernel_segments(), 0x400, 0x10010);
    let plan = plan_load(&img).unwrap();
    assert_eq!(plan.first, 0x10010);
    assert_eq!(plan.last, 0x12008);
    assert_eq!(plan.base, 0x10000);
    assert_eq!(plan.pages, 3);
    assert_eq!(plan.entry, 0x10010);
}

#[test]
fn plan_rejects_short_image() {
    let img = image(&kernel_segments(), 0x400, 0x10010);
    assert_eq!(plan_load(&img[..40]).unwrap_err(), PlanError::MalformedImage);
    assert_eq!(plan_load(&img[..100]).unwrap_err(), PlanError::MalformedImage);
}

#[test]
fn plan_rejects_invalid_segment() {
    let segs = vec![Seg { p_type: PT_LOAD, offset: 0x100, vaddr: 0x1000, filesz: 0x20, memsz: 0x10 }];
    assert_eq!(plan_load(&image(&segs, 0x200, 0)).unwrap_err(), PlanError::InvalidSegment);
    let segs = vec![Seg { p_type: PT_LOAD, offset: 0x1f0, vaddr: 0x1000, filesz: 0x20, memsz: 0x20 }];
    assert_eq!(plan_load(&image(&segs, 0x200, 0)).unwrap_err(), PlanError::InvalidSegment);
    let segs = vec![Seg { p_type: PT_LOAD, offset: 0x100, vaddr: u64::MAX, filesz: 0, memsz: 2 }];
    assert_eq!(plan_load(&image(&segs, 0x200, 0)).unwrap_err(), PlanError::InvalidSegment);
}

#[test]
fn plan_rejects_image_without_loadable_segment() {
    let segs = vec![Seg { p_type: 4, offset: 0, vaddr: 0x5, filesz: 0, memsz: 0x10 }];
    assert_eq!(plan_load(&image(&segs, 0x200, 0)).unwrap_err(), PlanError::NoLoadableSegment);
}

#[test]
fn plan_rejects_region_too_large() {
    let segs = vec![
        Seg { p_type: PT_LOAD, offset: 0x100, vaddr: 0, filesz: 0, memsz: 0x10 },
        Seg { p_type: PT_LOAD, offset: 0x100, vaddr: u64::MAX - 0xff, filesz: 0, memsz: 0xff },
    ];
    assert_eq!(plan_load(&image(&segs, 0x200, 0)).unwrap_err(), PlanError::RegionOverflow);
}

#[test]
fn size_in_pages_at_the_top_of_usize() {
    assert_eq!(size_in_pages(usize::MAX - 4095), usize::MAX / 4096);
    assert_eq!(size_in_pages(usize::MAX - 4096), usize::MAX / 4096);
    assert!(size_in_pages(100) <= size_in_pages(5000));
    assert_eq!(size_in_pages(5000) * 4096, align_page(5000 + 4095));
}

#[test]
fn page_region_at_the_top_of_usize() {
    assert_eq!(page_region(0, usize::MAX - 4095), (0, usize::MAX / 4096));
}

#[test]
fn plan_at_the_top_of_usize() {
    let top = (usize::MAX - 4095) as u64;
    let segs = vec![
        Seg { p_type: PT_LOAD, offset: 0x100, vaddr: 0, filesz: 0, memsz: 0x10 },
        Seg { p_type: PT_LOAD, offset: 0x100, vaddr: top - 0x10, filesz: 0, memsz: 0x10 },
    ];
    let plan = plan_load(&image(&segs, 0x200, 0)).unwrap();
    assert_eq!(plan.base, 0);
    assert_eq!(plan.pages, usize::MAX / 4096);
    let segs = vec![
        Seg { p_type: PT_LOAD, offset: 0x100, vaddr: 0, filesz: 0, memsz: 0x10 },
        Seg { p_type: PT_LOAD, offset: 0x100, vaddr: top - 0x10, filesz: 0, memsz: 0x11 },
    ];
    assert_eq!(plan_load(&image(&segs, 0x200, 0)).unwrap_err(), PlanError::RegionOverflow);
}

#[test]
fn headers_that_are_not_loadable_do_not_change_the_load() {
    let img1 = image(&kernel_segments(), 0x400, 0x10010);
    let mut segs = kernel_segments();
    segs[1] = Seg { p_type: 6, offset: 0x3f0, vaddr: 0x10000, filesz: 0x100, memsz: 0x1000 };
    let img2 = image(&segs, 0x400, 0x10010);
    let mut b1 = vec![0x55u8; 3 * 4096];
    let mut b2 = vec![0x55u8; 3 * 4096];
    copy_load_segments(&img1, &mut b1, 0x10000);
    copy_load_segments(&img2, &mut b2, 0x10000);
    assert_eq!(b1, b2);
}
