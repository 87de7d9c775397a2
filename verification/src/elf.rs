//! ELF64 headers decoded with bincode's standard configuration, and the
//! address range that all program headers of an image span.
use vstd::prelude::*;
use crate::elf64::{Elf64_Phdr, phdr_table_at, read_phdr_table};
use crate::loader::seg_end;

verus! {

/// Type for a 16-bit quantity (in ELF64)
pub type Elf64Half = u16;

/// Type for an unsigned 32-bit quantity (in ELF64)
pub type Elf64Word = u32;

/// Type for an unsigned 64-bit quantity (in ELF64)
pub type Elf64Xword = u64;

/// Type of an address (in ELF64)
pub type Elf64Addr = u64;

/// Type of a file offset (in ELF64)
pub type Elf64Off = u64;

/// The error that bincode reports when bytes do not decode.
#[verifier::external_type_specification]
#[verifier::external_body]
pub struct ExDecodeError(bincode::error::DecodeError);

/// The fields of an ELF64 file header, in declaration order.
pub type Ehdr64Fields = (
    [u8; 16],
    Elf64Half,
    Elf64Half,
    Elf64Word,
    Elf64Addr,
    Elf64Off,
    Elf64Off,
    Elf64Word,
    Elf64Half,
    Elf64Half,
    Elf64Half,
    Elf64Half,
    Elf64Half,
    Elf64Half,
);

/// The fields of an ELF64 program header, in declaration order.
pub type Phdr64Fields = (
    Elf64Word,
    Elf64Word,
    Elf64Off,
    Elf64Addr,
    Elf64Addr,
    Elf64Xword,
    Elf64Xword,
    Elf64Xword,
);

/// What bincode's standard configuration decodes from `bytes` as the
/// fields of a file header, the identification bytes taken by their view;
/// `None` where decoding fails.
pub uninterp spec fn bincode_ehdr64_fields(bytes: Seq<u8>) -> Option<
    (Seq<u8>, u16, u16, u32, u64, u64, u64, u32, u16, u16, u16, u16, u16, u16),
>;

/// What bincode's standard configuration decodes from `bytes` as the
/// fields of a program header; `None` where decoding fails.
pub uninterp spec fn bincode_phdr64_fields(bytes: Seq<u8>) -> Option<
    (u32, u32, u64, u64, u64, u64, u64, u64),
>;

/// Calls `bincode::decode_from_slice` with `bincode::config::standard()`
/// to decode the fields of a file header from the start of `bytes`, and
/// drops the count of bytes read. Claimed: the call succeeds exactly where
/// `bincode_ehdr64_fields` is `Some`, and then gives those fields; the result
/// depends on `bytes` alone.
#[verifier::external_body]
fn decode_ehdr64_fields(bytes: &[u8]) -> (r: Result<Ehdr64Fields, bincode::error::DecodeError>)
    ensures
        r is Err <==> bincode_ehdr64_fields(bytes@) is None,
        r matches Ok(t) ==> bincode_ehdr64_fields(bytes@) == Some(
            (t.0@, t.1, t.2, t.3, t.4, t.5, t.6, t.7, t.8, t.9, t.10, t.11, t.12, t.13),
        ),
{
    match bincode::decode_from_slice::<Ehdr64Fields, _>(bytes, bincode::config::standard()) {
        Ok((fields, _)) => Ok(fields),
        Err(e) => Err(e),
    }
}

/// Calls `bincode::decode_from_slice` with `bincode::config::standard()`
/// to decode the fields of a program header from the start of `bytes`, and
/// drops the count of bytes read. Claimed: the call succeeds exactly where
/// `bincode_phdr64_fields` is `Some`, and then gives those fields; the
/// result depends on `bytes` alone.
#[verifier::external_body]
fn decode_phdr64_fields(bytes: &[u8]) -> (r: Result<Phdr64Fields, bincode::error::DecodeError>)
    ensures
        r is Err <==> bincode_phdr64_fields(bytes@) is None,
        r matches Ok(t) ==> bincode_phdr64_fields(bytes@) == Some(t),
{
    match bincode::decode_from_slice::<Phdr64Fields, _>(bytes, bincode::config::standard()) {
        Ok((fields, _)) => Ok(fields),
        Err(e) => Err(e),
    }
}

/// Size in bytes of the in-memory `Ehdr64`: what `deserialize` hands to bincode.
pub const EHDR64_SIZE: usize = 64;

/// Size in bytes of the in-memory `Phdr64`: what `deserialize` hands to bincode.
pub const PHDR64_SIZE: usize = 56;

/// An ELF64 file header.
#[derive(Clone, Copy, Debug)]
pub struct Ehdr64 {
    pub e_ident: [u8; 16],
    pub e_type: Elf64Half,
    pub e_machine: Elf64Half,
    pub e_version: Elf64Word,
    pub e_entry: Elf64Addr,
    pub e_phoff: Elf64Off,
    pub e_shoff: Elf64Off,
    pub e_flags: Elf64Word,
    pub e_ehsize: Elf64Half,
    pub e_phentsize: Elf64Half,
    pub e_phnum: Elf64Half,
    pub e_shentsize: Elf64Half,
    pub e_shnum: Elf64Half,
    pub e_shstrndx: Elf64Half,
}

/// An ELF64 program header.
#[derive(Clone, Copy, Debug)]
pub struct Phdr64 {
    /// Segment type
    pub p_type: Elf64Word,
    /// Segment flags
    pub p_flags: Elf64Word,
    /// Segment file offset
    pub p_offset: Elf64Off,
    /// Segment virtual address
    pub p_vaddr: Elf64Addr,
    /// Segment physical address
    pub p_paddr: Elf64Addr,
    /// Segment size in file
    pub p_filesz: Elf64Xword,
    /// Segment size in memory
    pub p_memsz: Elf64Xword,
    /// Segment alignment
    pub p_align: Elf64Xword,
}

/// The file header fields that bincode decodes from the first 64 bytes of
/// `buf`; `None` where `buf` is shorter or decoding fails.
pub open spec fn decoded_ehdr64(buf: Seq<u8>) -> Option<
    (Seq<u8>, u16, u16, u32, u64, u64, u64, u32, u16, u16, u16, u16, u16, u16),
> {
    if buf.len() >= 64 {
        bincode_ehdr64_fields(buf.subrange(0, 64))
    } else {
        None
    }
}

/// The program header fields that bincode decodes from the first 56 bytes
/// of `buf`; `None` where `buf` is shorter or decoding fails.
pub open spec fn decoded_phdr64(buf: Seq<u8>) -> Option<(u32, u32, u64, u64, u64, u64, u64, u64)> {
    if buf.len() >= 56 {
        bincode_phdr64_fields(buf.subrange(0, 56))
    } else {
        None
    }
}

impl Ehdr64 {
    /// The header's fields are `t`.
    pub open spec fn has_fields(
        self,
        t: (Seq<u8>, u16, u16, u32, u64, u64, u64, u32, u16, u16, u16, u16, u16, u16),
    ) -> bool {
        &&& self.e_ident@ == t.0
        &&& self.e_type == t.1
        &&& self.e_machine == t.2
        &&& self.e_version == t.3
        &&& self.e_entry == t.4
        &&& self.e_phoff == t.5
        &&& self.e_shoff == t.6
        &&& self.e_flags == t.7
        &&& self.e_ehsize == t.8
        &&& self.e_phentsize == t.9
        &&& self.e_phnum == t.10
        &&& self.e_shentsize == t.11
        &&& self.e_shnum == t.12
        &&& self.e_shstrndx == t.13
    }

    /// Decodes a file header with bincode's standard configuration from the
    /// first 64 bytes of `buf` (the size of the header in memory).
    pub fn deserialize(buf: &[u8]) -> (r: Result<Self, bincode::error::DecodeError>)
        requires
            buf@.len() >= 64,
        ensures
            r is Ok <==> decoded_ehdr64(buf@) is Some,
            r matches Ok(h) ==> h.has_fields(decoded_ehdr64(buf@)->Some_0),
            r matches Ok(h) ==> h.e_ident@ == decoded_ehdr64(buf@)->Some_0.0,
            r matches Ok(h) ==> h.e_type == decoded_ehdr64(buf@)->Some_0.1,
            r matches Ok(h) ==> h.e_machine == decoded_ehdr64(buf@)->Some_0.2,
            r matches Ok(h) ==> h.e_version == decoded_ehdr64(buf@)->Some_0.3,
            r matches Ok(h) ==> h.e_entry == decoded_ehdr64(buf@)->Some_0.4,
            r matches Ok(h) ==> h.e_phoff == decoded_ehdr64(buf@)->Some_0.5,
            r matches Ok(h) ==> h.e_shoff == decoded_ehdr64(buf@)->Some_0.6,
            r matches Ok(h) ==> h.e_flags == decoded_ehdr64(buf@)->Some_0.7,
            r matches Ok(h) ==> h.e_ehsize == decoded_ehdr64(buf@)->Some_0.8,
            r matches Ok(h) ==> h.e_phentsize == decoded_ehdr64(buf@)->Some_0.9,
            r matches Ok(h) ==> h.e_phnum == decoded_ehdr64(buf@)->Some_0.10,
            r matches Ok(h) ==> h.e_shentsize == decoded_ehdr64(buf@)->Some_0.11,
            r matches Ok(h) ==> h.e_shnum == decoded_ehdr64(buf@)->Some_0.12,
            r matches Ok(h) ==> h.e_shstrndx == decoded_ehdr64(buf@)->Some_0.13,
    {
        let bytes = vstd::slice::slice_subrange(buf, 0, EHDR64_SIZE);
        match decode_ehdr64_fields(bytes) {
            Ok(t) => Ok(
                Ehdr64 {
                    e_ident: t.0,
                    e_type: t.1,
                    e_machine: t.2,
                    e_version: t.3,
                    e_entry: t.4,
                    e_phoff: t.5,
                    e_shoff: t.6,
                    e_flags: t.7,
                    e_ehsize: t.8,
                    e_phentsize: t.9,
                    e_phnum: t.10,
                    e_shentsize: t.11,
                    e_shnum: t.12,
                    e_shstrndx: t.13,
                },
            ),
            Err(e) => Err(e),
        }
    }
}

impl Phdr64 {
    /// The header's fields are `t`.
    pub open spec fn has_fields(self, t: (u32, u32, u64, u64, u64, u64, u64, u64)) -> bool {
        self == Phdr64 {
            p_type: t.0,
            p_flags: t.1,
            p_offset: t.2,
            p_vaddr: t.3,
            p_paddr: t.4,
            p_filesz: t.5,
            p_memsz: t.6,
            p_align: t.7,
        }
    }

    /// Decodes a program header with bincode's standard configuration from
    /// the first 56 bytes of `buf` (the size of the header in memory).
    pub fn deserialize(buf: &[u8]) -> (r: Result<Self, bincode::error::DecodeError>)
        requires
            buf@.len() >= 56,
        ensures
            r is Ok <==> decoded_phdr64(buf@) is Some,
            r matches Ok(h) ==> h.has_fields(decoded_phdr64(buf@)->Some_0),
            r matches Ok(h) ==> h.p_type == decoded_phdr64(buf@)->Some_0.0,
            r matches Ok(h) ==> h.p_flags == decoded_phdr64(buf@)->Some_0.1,
            r matches Ok(h) ==> h.p_offset == decoded_phdr64(buf@)->Some_0.2,
            r matches Ok(h) ==> h.p_vaddr == decoded_phdr64(buf@)->Some_0.3,
            r matches Ok(h) ==> h.p_paddr == decoded_phdr64(buf@)->Some_0.4,
            r matches Ok(h) ==> h.p_filesz == decoded_phdr64(buf@)->Some_0.5,
            r matches Ok(h) ==> h.p_memsz == decoded_phdr64(buf@)->Some_0.6,
            r matches Ok(h) ==> h.p_align == decoded_phdr64(buf@)->Some_0.7,
    {
        let bytes = vstd::slice::slice_subrange(buf, 0, PHDR64_SIZE);
        match decode_phdr64_fields(bytes) {
            Ok(t) => Ok(
                Phdr64 {
                    p_type: t.0,
                    p_flags: t.1,
                    p_offset: t.2,
                    p_vaddr: t.3,
                    p_paddr: t.4,
                    p_filesz: t.5,
                    p_memsz: t.6,
                    p_align: t.7,
                },
            ),
            Err(e) => Err(e),
        }
    }
}

/// No program header among `ps` ends past the 64-bit address space.
pub open spec fn all_fit_u64(ps: Seq<Elf64_Phdr>) -> bool {
    forall|i: int| 0 <= i < ps.len() ==> seg_end(#[trigger] ps[i]) <= u64::MAX
}

/// `first` is the lowest start address of the program headers `ps`, or
/// `u64::MAX` where none is lower, and `last` is their highest end address,
/// or 0 where none is higher.
pub open spec fn is_addr_range(ps: Seq<Elf64_Phdr>, first: u64, last: u64) -> bool {
    &&& forall|i: int|
        0 <= i < ps.len() ==> first <= (#[trigger] ps[i]).p_vaddr && seg_end(ps[i]) <= last
    &&& first == u64::MAX || exists|i: int| 0 <= i < ps.len() && (#[trigger] ps[i]).p_vaddr == first
    &&& last == 0 || exists|j: int| 0 <= j < ps.len() && seg_end(#[trigger] ps[j]) == last
}

/// The `phnum` program headers that lie one after the other from offset
/// `phoff` in `buf`.
pub open spec fn header_phdrs(buf: Seq<u8>, phoff: u64, phnum: u16) -> Seq<Elf64_Phdr> {
    phdr_table_at(buf, phoff as int, phnum as int)
}

/// The address range spanned by all program headers that `header` locates
/// in `buf`: the lowest start address, starting from `u64::MAX`, and the
/// highest end address, starting from 0.
pub fn addr_range_with(buf: &[u8], header: &Ehdr64) -> (range: (u64, u64))
    requires
        header.e_phnum > 0 ==> header.e_phoff + 56 * header.e_phnum <= buf@.len(),
        all_fit_u64(header_phdrs(buf@, header.e_phoff, header.e_phnum)),
    ensures
        is_addr_range(header_phdrs(buf@, header.e_phoff, header.e_phnum), range.0, range.1),
{
    if header.e_phnum == 0 {
        return (u64::MAX, 0);
    }
    let len = buf.len();
    assert(header.e_phoff + 56 * header.e_phnum <= len);
    let table = read_phdr_table(buf, header.e_phoff as usize, header.e_phnum as usize);
    let ghost ps = table@;
    assert(ps == header_phdrs(buf@, header.e_phoff, header.e_phnum));
    let n = table.len();
    let mut first: u64 = u64::MAX;
    let mut last: u64 = 0;
    let mut i: usize = 0;
    while i < n
        invariant
            n == ps.len(),
            table@ == ps,
            all_fit_u64(ps),
            i <= n,
            is_addr_range(ps.subrange(0, i as int), first, last),
        decreases n - i,
    {
        let ghost sub = ps.subrange(0, i as int);
        let ghost next = ps.subrange(0, i + 1);
        let p = &table[i];
        assert(seg_end(ps[i as int]) <= u64::MAX);
        let end = p.p_vaddr + p.p_memsz;
        proof {
            assert forall|k: int| 0 <= k < i implies next[k] == sub[k] by {}
            assert(next[i as int] == ps[i as int]);
        }
        if p.p_vaddr < first {
            first = p.p_vaddr;
        }
        if end > last {
            last = end;
        }
        proof {
            assert forall|k: int| 0 <= k < next.len() implies first <= (#[trigger] next[k]).p_vaddr
                && seg_end(next[k]) <= last by {
                if k < i {
                    assert(next[k] == sub[k]);
                }
            }
            if first != u64::MAX {
                if first == ps[i as int].p_vaddr {
                    assert(next[i as int].p_vaddr == first);
                } else {
                    let w = choose|w: int| 0 <= w < sub.len() && (#[trigger] sub[w]).p_vaddr == first;
                    assert(next[w] == sub[w]);
                }
            }
            if last != 0 {
                if last == seg_end(ps[i as int]) {
                    assert(seg_end(next[i as int]) == last);
                } else {
                    let w = choose|w: int| 0 <= w < sub.len() && seg_end(#[trigger] sub[w]) == last;
                    assert(next[w] == sub[w]);
                }
            }
        }
        i = i + 1;
    }
    proof {
        assert(ps.subrange(0, n as int) =~= ps);
    }
    (first, last)
}

/// The header that bincode decodes from `buf` has no program headers or
/// locates a program header table inside `buf`, and no program header there
/// ends past the 64-bit address space.
pub open spec fn addr_range_defined(buf: Seq<u8>) -> bool {
    &&& decoded_ehdr64(buf) is Some
    &&& decoded_ehdr64(buf)->Some_0.10 > 0 ==> decoded_ehdr64(buf)->Some_0.5 + 56
        * decoded_ehdr64(buf)->Some_0.10 <= buf.len()
    &&& all_fit_u64(
        header_phdrs(buf, decoded_ehdr64(buf)->Some_0.5, decoded_ehdr64(buf)->Some_0.10),
    )
}

/// The address range spanned by all program headers of the image in `buf`,
/// whose file header is decoded with bincode's standard configuration.
pub fn addr_range(buf: &[u8]) -> (range: (u64, u64))
    requires
        addr_range_defined(buf@),
    ensures
        is_addr_range(
            header_phdrs(buf@, decoded_ehdr64(buf@)->Some_0.5, decoded_ehdr64(buf@)->Some_0.10),
            range.0,
            range.1,
        ),
{
    match Ehdr64::deserialize(buf) {
        Ok(header) => addr_range_with(buf, &header),
        Err(_) => {
            proof {
                assert(false);
            }
            (u64::MAX, 0)
        },
    }
}

/// `addr_range` where it is defined, and `None` where the file header does
/// not decode, a nonempty program header table does not lie inside `buf`, or a
/// program header ends past the 64-bit address space.
pub fn try_addr_range(buf: &[u8]) -> (range: Option<(u64, u64)>)
    ensures
        range is Some <==> addr_range_defined(buf@),
        range matches Some(r) ==> is_addr_range(
            header_phdrs(buf@, decoded_ehdr64(buf@)->Some_0.5, decoded_ehdr64(buf@)->Some_0.10),
            r.0,
            r.1,
        ),
{
    let len = buf.len();
    if len < EHDR64_SIZE {
        return None;
    }
    let header = match Ehdr64::deserialize(buf) {
        Ok(h) => h,
        Err(_) => return None,
    };
    let phoff = header.e_phoff;
    let phnum = header.e_phnum as u64;
    if phnum == 0 {
        return Some(addr_range(buf));
    }
    if phoff > len as u64 || phnum * 56 > len as u64 - phoff {
        return None;
    }
    let table = read_phdr_table(buf, phoff as usize, phnum as usize);
    let ghost ps = table@;
    let n = table.len();
    let mut i: usize = 0;
    while i < n
        invariant
            n == ps.len(),
            table@ == ps,
            ps == header_phdrs(buf@, decoded_ehdr64(buf@)->Some_0.5, decoded_ehdr64(buf@)->Some_0.10),
            decoded_ehdr64(buf@) is Some,
            i <= n,
            forall|k: int| 0 <= k < i ==> seg_end(#[trigger] ps[k]) <= u64::MAX,
        decreases n - i,
    {
        if table[i].p_memsz > u64::MAX - table[i].p_vaddr {
            assert(!all_fit_u64(ps)) by {
                assert(seg_end(ps[i as int]) > u64::MAX);
            }
            return None;
        }
        i = i + 1;
    }
    Some(addr_range(buf))
}

/// The address range of a set of program headers is unique.
pub proof fn lemma_addr_range_unique(ps: Seq<Elf64_Phdr>, f1: u64, l1: u64, f2: u64, l2: u64)
    requires
        is_addr_range(ps, f1, l1),
        is_addr_range(ps, f2, l2),
    ensures
        f1 == f2,
        l1 == l2,
{
    if f1 != u64::MAX {
        let w = choose|i: int| 0 <= i < ps.len() && (#[trigger] ps[i]).p_vaddr == f1;
        assert(f2 <= ps[w].p_vaddr);
    }
    if f2 != u64::MAX {
        let w = choose|i: int| 0 <= i < ps.len() && (#[trigger] ps[i]).p_vaddr == f2;
        assert(f1 <= ps[w].p_vaddr);
    }
    if l1 != 0 {
        let w = choose|j: int| 0 <= j < ps.len() && seg_end(#[trigger] ps[j]) == l1;
        assert(seg_end(ps[w]) <= l2);
    }
    if l2 != 0 {
        let w = choose|j: int| 0 <= j < ps.len() && seg_end(#[trigger] ps[j]) == l2;
        assert(seg_end(ps[w]) <= l1);
    }
}

/// One more program header `q` lowers the range's start to `q`'s start
/// where that is lower, and raises its end to `q`'s end where that is
/// higher.
pub proof fn lemma_addr_range_push(ps: Seq<Elf64_Phdr>, q: Elf64_Phdr, first: u64, last: u64)
    requires
        is_addr_range(ps, first, last),
        seg_end(q) <= u64::MAX,
    ensures
        is_addr_range(
            ps.push(q),
            if q.p_vaddr < first { q.p_vaddr } else { first },
            (if seg_end(q) > last { seg_end(q) } else { last as int }) as u64,
        ),
{
    let qs = ps.push(q);
    let f = if q.p_vaddr < first { q.p_vaddr } else { first };
    let l = (if seg_end(q) > last { seg_end(q) } else { last as int }) as u64;
    assert(qs[ps.len() as int] == q);
    assert forall|i: int| 0 <= i < qs.len() implies f <= (#[trigger] qs[i]).p_vaddr && seg_end(qs[i]) <= l by {
        if i < ps.len() {
            assert(qs[i] == ps[i]);
        }
    }
    if f != u64::MAX && f == first {
        let w = choose|i: int| 0 <= i < ps.len() && (#[trigger] ps[i]).p_vaddr == first;
        assert(qs[w] == ps[w]);
    }
    if l != 0 && l == last {
        let w = choose|j: int| 0 <= j < ps.len() && seg_end(#[trigger] ps[j]) == last;
        assert(qs[w] == ps[w]);
    }
}

/// A file header has the decoded fields in declaration order: the tuple's
/// elements are, in turn, the identification bytes, type, machine, version,
/// entry, program header offset, section header offset, flags, header size,
/// program header entry size and count, section header entry size and count,
/// and the section name string table index.
pub proof fn lemma_ehdr64_fields_in_order(
    h: Ehdr64,
    t: (Seq<u8>, u16, u16, u32, u64, u64, u64, u32, u16, u16, u16, u16, u16, u16),
)
    ensures
        h.has_fields(t) <==> (h.e_ident@ == t.0 && h.e_type == t.1 && h.e_machine == t.2 && h.e_version == t.3 && h.e_entry == t.4 && h.e_phoff == t.5 && h.e_shoff == t.6 && h.e_flags == t.7 && h.e_ehsize == t.8 && h.e_phentsize == t.9 && h.e_phnum == t.10 && h.e_shentsize == t.11 && h.e_shnum == t.12 && h.e_shstrndx == t.13),
{
}

/// A program header has the decoded fields in declaration order: type,
/// flags, file offset, virtual address, physical address, file size, memory
/// size and alignment.
pub proof fn lemma_phdr64_fields_in_order(h: Phdr64, t: (u32, u32, u64, u64, u64, u64, u64, u64))
    ensures
        h.has_fields(t) <==> (h.p_type == t.0 && h.p_flags == t.1 && h.p_offset == t.2 && h.p_vaddr == t.3 && h.p_paddr == t.4 && h.p_filesz == t.5 && h.p_memsz == t.6 && h.p_align == t.7),
{
}

/// What the address range of program headers is: every header starts at or
/// above `first` and ends at or below `last`; with no headers the range is
/// `(2^64 - 1, 0)`, and otherwise some header starts exactly at `first` and
/// some header ends exactly at `last`.
pub proof fn lemma_addr_range_meaning(ps: Seq<Elf64_Phdr>, first: u64, last: u64)
    requires
        is_addr_range(ps, first, last),
    ensures
        forall|i: int|
            0 <= i < ps.len() ==> first <= (#[trigger] ps[i]).p_vaddr && ps[i].p_vaddr
                + ps[i].p_memsz <= last,
        ps.len() == 0 ==> first == 0xffff_ffff_ffff_ffffu64 && last == 0,
        ps.len() > 0 ==> exists|i: int| 0 <= i < ps.len() && (#[trigger] ps[i]).p_vaddr == first,
        ps.len() > 0 ==> exists|j: int|
            0 <= j < ps.len() && (#[trigger] ps[j]).p_vaddr + ps[j].p_memsz == last,
{
    if ps.len() > 0 {
        assert(first <= ps[0].p_vaddr && seg_end(ps[0]) <= last);
        if first == u64::MAX {
            assert(ps[0].p_vaddr == first);
        }
        if last == 0 {
            assert(ps[0].p_vaddr + ps[0].p_memsz == last);
        }
    }
}

/// A file header is decoded from exactly the first 64 bytes, and a program
/// header from exactly the first 56, whatever follows them.
pub proof fn lemma_decoded_prefix(buf: Seq<u8>)
    ensures
        buf.len() >= 64 ==> decoded_ehdr64(buf) == bincode_ehdr64_fields(buf.subrange(0, 64)),
        buf.len() < 64 ==> decoded_ehdr64(buf) is None,
        buf.len() >= 56 ==> decoded_phdr64(buf) == bincode_phdr64_fields(buf.subrange(0, 56)),
        buf.len() < 56 ==> decoded_phdr64(buf) is None,
{
}

/// When `addr_range` is defined: the header decodes; where it counts any
/// program headers (field 10), their table of 56-byte entries from the
/// offset in field 5 lies inside `buf`; and each of them has virtual address
/// (bytes 16..24) plus memory size (bytes 40..48) at most `2^64 - 1`.
pub proof fn lemma_addr_range_defined_meaning(buf: Seq<u8>)
    ensures
        addr_range_defined(buf) <==> {
            &&& decoded_ehdr64(buf) is Some
            &&& decoded_ehdr64(buf)->Some_0.10 > 0 ==> decoded_ehdr64(buf)->Some_0.5 + 56
                * decoded_ehdr64(buf)->Some_0.10 <= buf.len()
            &&& forall|i: int|
                0 <= i < decoded_ehdr64(buf)->Some_0.10 ==> #[trigger] crate::bytes::le_at(
                    buf,
                    decoded_ehdr64(buf)->Some_0.5 + 56 * i + 16,
                    8,
                ) + crate::bytes::le_at(buf, decoded_ehdr64(buf)->Some_0.5 + 56 * i + 40, 8)
                    <= 0xffff_ffff_ffff_ffff
        },
{
    if decoded_ehdr64(buf) is Some {
        let t = decoded_ehdr64(buf)->Some_0;
        let ps = header_phdrs(buf, t.5, t.10);
        if t.10 > 0 && t.5 + 56 * t.10 <= buf.len() {
            assert forall|i: int| 0 <= i < t.10 implies {
                &&& ps[i].p_vaddr == crate::bytes::le_at(buf, t.5 + 56 * i + 16, 8)
                &&& ps[i].p_memsz == crate::bytes::le_at(buf, t.5 + 56 * i + 40, 8)
            } by {
                crate::elf64::lemma_phdr_layout(buf, t.5 + 56 * i);
            }
            if all_fit_u64(ps) {
                assert forall|i: int| 0 <= i < t.10 implies #[trigger] crate::bytes::le_at(
                    buf,
                    t.5 + 56 * i + 16,
                    8,
                ) + crate::bytes::le_at(buf, t.5 + 56 * i + 40, 8) <= 0xffff_ffff_ffff_ffff by {
                    assert(seg_end(ps[i]) <= u64::MAX);
                }
            }
            if forall|i: int|
                0 <= i < t.10 ==> #[trigger] crate::bytes::le_at(buf, t.5 + 56 * i + 16, 8)
                    + crate::bytes::le_at(buf, t.5 + 56 * i + 40, 8) <= 0xffff_ffff_ffff_ffff {
                assert forall|i: int| 0 <= i < ps.len() implies seg_end(#[trigger] ps[i])
                    <= u64::MAX by {
                    assert(crate::bytes::le_at(buf, t.5 + 56 * i + 16, 8) + crate::bytes::le_at(
                        buf,
                        t.5 + 56 * i + 40,
                        8,
                    ) <= 0xffff_ffff_ffff_ffff);
                }
            }
        }
    }
}

} // verus!
