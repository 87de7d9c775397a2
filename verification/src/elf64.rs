//! ELF64 file and program headers as they lie in a kernel image, read
//! field by field in little-endian byte order.
use vstd::prelude::*;
use crate::bytes::{le_at, lemma_le_at_bound, read_le};

verus! {

/// Type for a 16-bit quantity (in ELF64)
pub type Elf64Half = u16;

/// Type for an unsigned 32-bit quantity (in ELF64)
pub type Elf64Word = u32;

/// Type for a signed 32-bit quantity (in ELF64)
pub type Elf64Sword = i32;

/// Type for an unsigned 64-bit quantity (in ELF64)
pub type Elf64Xword = u64;

/// Type for a signed 64-bit quantity (in ELF64)
pub type Elf64Sxword = i64;

/// Type of an address (in ELF64)
pub type Elf64Addr = u64;

/// Type of a file offset (in ELF64)
pub type Elf64Off = u64;

/// Type of a section index (in ELF64)
pub type Elf64Section = u16;

/// Type of a version symbol information (in ELF64)
pub type Elf64Versym = Elf64Half;

/// Program header type of a loadable segment.
pub const PT_LOAD: Elf64Word = 1;

/// Size in bytes of an ELF64 file header.
pub const EHDR_SIZE: usize = 64;

/// Size in bytes of an ELF64 program header.
pub const PHDR_SIZE: usize = 56;

/// The ELF64 file header.
#[allow(non_camel_case_types)]
#[derive(Clone, Copy, Debug)]
pub struct Elf64_Ehdr {
    pub e_ident: [u8; 16],
    pub e_type: Elf64Half,
    pub e_machine: Elf64Half,
    pub e_version: Elf64Word,
    pub e_entry: Elf64Addr,
    pub e_phoff: Elf64Off,
    pub e_shoff: Elf64Off,
    pub e_flags: Elf64Word,
    pub e_ehsize: Elf64Half,
    pub e_phentsize: Elf64Half,
    pub e_phnum: Elf64Half,
    pub e_shentsize: Elf64Half,
    pub e_shnum: Elf64Half,
    pub e_shstrndx: Elf64Half,
}

/// An ELF64 program header.
#[allow(non_camel_case_types)]
#[derive(Clone, Copy, Debug)]
pub struct Elf64_Phdr {
    pub p_type: Elf64Word,
    pub p_flags: Elf64Word,
    pub p_offset: Elf64Off,
    pub p_vaddr: Elf64Addr,
    pub p_paddr: Elf64Addr,
    pub p_filesz: Elf64Xword,
    pub p_memsz: Elf64Xword,
    pub p_align: Elf64Xword,
}

impl Elf64_Ehdr {
    /// `self` is the file header that the first 64 bytes of `data` hold.
    pub open spec fn is_read_from(self, data: Seq<u8>) -> bool {
        &&& self.e_ident@ == data.subrange(0, 16)
        &&& self.e_type == le_at(data, 16, 2)
        &&& self.e_machine == le_at(data, 18, 2)
        &&& self.e_version == le_at(data, 20, 4)
        &&& self.e_entry == le_at(data, 24, 8)
        &&& self.e_phoff == le_at(data, 32, 8)
        &&& self.e_shoff == le_at(data, 40, 8)
        &&& self.e_flags == le_at(data, 48, 4)
        &&& self.e_ehsize == le_at(data, 52, 2)
        &&& self.e_phentsize == le_at(data, 54, 2)
        &&& self.e_phnum == le_at(data, 56, 2)
        &&& self.e_shentsize == le_at(data, 58, 2)
        &&& self.e_shnum == le_at(data, 60, 2)
        &&& self.e_shstrndx == le_at(data, 62, 2)
    }

    /// Reads the file header at the start of a kernel image.
    pub fn read(image: &[u8]) -> (ehdr: Self)
        requires
            image@.len() >= 64,
        ensures
            ehdr.is_read_from(image@),
            ehdr.e_ident@ == image@.subrange(0, 16),
            ehdr.e_type == le_at(image@, 16, 2),
            ehdr.e_machine == le_at(image@, 18, 2),
            ehdr.e_version == le_at(image@, 20, 4),
            ehdr.e_entry == le_at(image@, 24, 8),
            ehdr.e_phoff == le_at(image@, 32, 8),
            ehdr.e_shoff == le_at(image@, 40, 8),
            ehdr.e_flags == le_at(image@, 48, 4),
            ehdr.e_ehsize == le_at(image@, 52, 2),
            ehdr.e_phentsize == le_at(image@, 54, 2),
            ehdr.e_phnum == le_at(image@, 56, 2),
            ehdr.e_shentsize == le_at(image@, 58, 2),
            ehdr.e_shnum == le_at(image@, 60, 2),
            ehdr.e_shstrndx == le_at(image@, 62, 2),
    {
        let e_ident = [
            image[0], image[1], image[2], image[3], image[4], image[5], image[6], image[7],
            image[8], image[9], image[10], image[11], image[12], image[13], image[14], image[15],
        ];
        assert(e_ident@ =~= image@.subrange(0, 16));
        Elf64_Ehdr {
            e_ident,
            e_type: read_le(image, 16, 2) as u16,
            e_machine: read_le(image, 18, 2) as u16,
            e_version: read_le(image, 20, 4) as u32,
            e_entry: read_le(image, 24, 8),
            e_phoff: read_le(image, 32, 8),
            e_shoff: read_le(image, 40, 8),
            e_flags: read_le(image, 48, 4) as u32,
            e_ehsize: read_le(image, 52, 2) as u16,
            e_phentsize: read_le(image, 54, 2) as u16,
            e_phnum: read_le(image, 56, 2) as u16,
            e_shentsize: read_le(image, 58, 2) as u16,
            e_shnum: read_le(image, 60, 2) as u16,
            e_shstrndx: read_le(image, 62, 2) as u16,
        }
    }
}

/// The program header whose 56 bytes start at `off` in `data`.
pub open spec fn phdr_at(data: Seq<u8>, off: int) -> Elf64_Phdr {
    Elf64_Phdr {
        p_type: le_at(data, off, 4) as u32,
        p_flags: le_at(data, off + 4, 4) as u32,
        p_offset: le_at(data, off + 8, 8) as u64,
        p_vaddr: le_at(data, off + 16, 8) as u64,
        p_paddr: le_at(data, off + 24, 8) as u64,
        p_filesz: le_at(data, off + 32, 8) as u64,
        p_memsz: le_at(data, off + 40, 8) as u64,
        p_align: le_at(data, off + 48, 8) as u64,
    }
}

/// The `num` program headers that lie one after the other from `off` in `data`.
pub open spec fn phdr_table_at(data: Seq<u8>, off: int, num: int) -> Seq<Elf64_Phdr> {
    Seq::new(num as nat, |i: int| phdr_at(data, off + 56 * i))
}

/// The program header table offset that an image's file header gives.
pub open spec fn image_phoff(image: Seq<u8>) -> int {
    le_at(image, 32, 8) as int
}

/// The number of program headers that an image's file header gives.
pub open spec fn image_phnum(image: Seq<u8>) -> int {
    le_at(image, 56, 2) as int
}

/// The image holds a whole file header and the whole program header table
/// that the file header points to.
pub open spec fn image_wf(image: Seq<u8>) -> bool {
    &&& image.len() >= 64
    &&& image_phoff(image) + 56 * image_phnum(image) <= image.len()
}

/// The program headers of an image.
pub open spec fn image_phdrs(image: Seq<u8>) -> Seq<Elf64_Phdr> {
    phdr_table_at(image, image_phoff(image), image_phnum(image))
}

/// Reads the program header whose 56 bytes start at `off` in `data`.
pub fn read_phdr(data: &[u8], off: usize) -> (phdr: Elf64_Phdr)
    requires
        off + 56 <= data@.len(),
    ensures
        phdr == phdr_at(data@, off as int),
        phdr.p_type == le_at(data@, off as int, 4),
        phdr.p_flags == le_at(data@, off + 4, 4),
        phdr.p_offset == le_at(data@, off + 8, 8),
        phdr.p_vaddr == le_at(data@, off + 16, 8),
        phdr.p_paddr == le_at(data@, off + 24, 8),
        phdr.p_filesz == le_at(data@, off + 32, 8),
        phdr.p_memsz == le_at(data@, off + 40, 8),
        phdr.p_align == le_at(data@, off + 48, 8),
{
    let len = data.len();
    assert(off + 56 <= len);
    proof {
        lemma_phdr_layout(data@, off as int);
    }
    Elf64_Phdr {
        p_type: read_le(data, off, 4) as u32,
        p_flags: read_le(data, off + 4, 4) as u32,
        p_offset: read_le(data, off + 8, 8),
        p_vaddr: read_le(data, off + 16, 8),
        p_paddr: read_le(data, off + 24, 8),
        p_filesz: read_le(data, off + 32, 8),
        p_memsz: read_le(data, off + 40, 8),
        p_align: read_le(data, off + 48, 8),
    }
}

/// Reads the `num` program headers that lie one after the other from `off` in `data`.
pub fn read_phdr_table(data: &[u8], off: usize, num: usize) -> (phdrs: Vec<Elf64_Phdr>)
    requires
        off + 56 * num <= data@.len(),
    ensures
        phdrs@ == phdr_table_at(data@, off as int, num as int),
{
    let len = data.len();
    let mut phdrs: Vec<Elf64_Phdr> = Vec::new();
    let mut i: usize = 0;
    let mut pos: usize = off;
    while i < num
        invariant
            off + 56 * num <= data@.len(),
            len == data@.len(),
            i <= num,
            pos == off + 56 * i,
            phdrs@ =~= phdr_table_at(data@, off as int, i as int),
        decreases num - i,
    {
        let phdr = read_phdr(data, pos);
        phdrs.push(phdr);
        i = i + 1;
        pos = pos + PHDR_SIZE;
    }
    phdrs
}

/// The program headers of a kernel image, located by its file header.
pub fn phdrs(image: &[u8]) -> (table: Vec<Elf64_Phdr>)
    requires
        image_wf(image@),
    ensures
        table@ == image_phdrs(image@),
{
    let len = image.len();
    let phoff = read_le(image, 32, 8);
    let phnum = read_le(image, 56, 2);
    read_phdr_table(image, phoff as usize, phnum as usize)
}

/// The ELF64 program header layout: each field of the header whose 56
/// bytes start at `off` is the little-endian number at its fixed offset in
/// those bytes — type at 0, flags at 4, file offset at 8, virtual address at
/// 16, physical address at 24, file size at 32, memory size at 40 and
/// alignment at 48.
pub proof fn lemma_phdr_layout(data: Seq<u8>, off: int)
    requires
        0 <= off,
        off + 56 <= data.len(),
    ensures
        phdr_at(data, off).p_type == le_at(data, off + 0, 4),
        phdr_at(data, off).p_flags == le_at(data, off + 4, 4),
        phdr_at(data, off).p_offset == le_at(data, off + 8, 8),
        phdr_at(data, off).p_vaddr == le_at(data, off + 16, 8),
        phdr_at(data, off).p_paddr == le_at(data, off + 24, 8),
        phdr_at(data, off).p_filesz == le_at(data, off + 32, 8),
        phdr_at(data, off).p_memsz == le_at(data, off + 40, 8),
        phdr_at(data, off).p_align == le_at(data, off + 48, 8),
{
    lemma_le_at_bound(data, off, 4);
    lemma_le_at_bound(data, off + 4, 4);
    lemma_le_at_bound(data, off + 8, 8);
    lemma_le_at_bound(data, off + 16, 8);
    lemma_le_at_bound(data, off + 24, 8);
    lemma_le_at_bound(data, off + 32, 8);
    lemma_le_at_bound(data, off + 40, 8);
    lemma_le_at_bound(data, off + 48, 8);
}

/// The ELF64 file header layout: a header read from `data` has the
/// identification bytes 0..16 and each other field at its fixed offset —
/// type at 16, machine at 18, version at 20, entry at 24, program header
/// offset at 32, section header offset at 40, flags at 48, then the six
/// two-byte fields at 52, 54, 56, 58, 60 and 62.
pub proof fn lemma_ehdr_layout(h: Elf64_Ehdr, data: Seq<u8>)
    requires
        h.is_read_from(data),
    ensures
        h.e_ident@ == data.subrange(0, 16),
        h.e_type == le_at(data, 16, 2),
        h.e_machine == le_at(data, 18, 2),
        h.e_version == le_at(data, 20, 4),
        h.e_entry == le_at(data, 24, 8),
        h.e_phoff == le_at(data, 32, 8),
        h.e_shoff == le_at(data, 40, 8),
        h.e_flags == le_at(data, 48, 4),
        h.e_ehsize == le_at(data, 52, 2),
        h.e_phentsize == le_at(data, 54, 2),
        h.e_phnum == le_at(data, 56, 2),
        h.e_shentsize == le_at(data, 58, 2),
        h.e_shnum == le_at(data, 60, 2),
        h.e_shstrndx == le_at(data, 62, 2),
{
}

/// The program headers of an image: header `i` is the 56 bytes at offset
/// `phoff + 56 * i`, where `phoff` is the eight bytes at 32 and the number of
/// headers is the two bytes at 56; its type is the four bytes at its start
/// and its virtual address the eight bytes at 16 within it.
pub proof fn lemma_image_phdrs_layout(image: Seq<u8>, i: int)
    requires
        image_wf(image),
        0 <= i < le_at(image, 56, 2),
    ensures
        image_phdrs(image).len() == le_at(image, 56, 2),
        image_phdrs(image)[i].p_type == le_at(image, le_at(image, 32, 8) + 56 * i, 4),
        image_phdrs(image)[i].p_vaddr == le_at(image, le_at(image, 32, 8) + 56 * i + 16, 8),
        image_phdrs(image)[i].p_paddr == le_at(image, le_at(image, 32, 8) + 56 * i + 24, 8),
        image_phdrs(image)[i].p_offset == le_at(image, le_at(image, 32, 8) + 56 * i + 8, 8),
        image_phdrs(image)[i].p_filesz == le_at(image, le_at(image, 32, 8) + 56 * i + 32, 8),
        image_phdrs(image)[i].p_memsz == le_at(image, le_at(image, 32, 8) + 56 * i + 40, 8),
{
    lemma_phdr_layout(image, le_at(image, 32, 8) + 56 * i);
}

} // verus!
