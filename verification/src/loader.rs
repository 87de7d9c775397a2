//! What the loader decides and computes about a kernel image: the address
//! range that its loadable segments occupy, the pages that hold that range,
//! and the copying of the segments into those pages.
use vstd::prelude::*;
use crate::elf64::{Elf64_Phdr, PT_LOAD, image_wf, image_phdrs, phdrs, lemma_image_phdrs_layout};
use crate::bytes::le_at;
use crate::page::{align_page, size_in_pages, spec_align_page, spec_size_in_pages};

verus! {

/// `p` describes a loadable segment.
pub open spec fn is_load(p: Elf64_Phdr) -> bool {
    p.p_type == PT_LOAD
}

/// The first address past the memory image of segment `p`.
pub open spec fn seg_end(p: Elf64_Phdr) -> int {
    p.p_vaddr + p.p_memsz
}

/// No loadable segment among `ps` ends past the 64-bit address space.
pub open spec fn loads_fit_u64(ps: Seq<Elf64_Phdr>) -> bool {
    forall|i: int| 0 <= i < ps.len() && is_load(#[trigger] ps[i]) ==> seg_end(ps[i]) <= u64::MAX
}

/// Some header among `ps` describes a loadable segment.
pub open spec fn has_load(ps: Seq<Elf64_Phdr>) -> bool {
    exists|i: int| 0 <= i < ps.len() && is_load(#[trigger] ps[i])
}

/// `first` is the lowest start address and `last` the highest end address
/// of the loadable segments among `ps`.
pub open spec fn is_load_range(ps: Seq<Elf64_Phdr>, first: int, last: int) -> bool {
    &&& forall|i: int|
        0 <= i < ps.len() && is_load(#[trigger] ps[i]) ==> first <= ps[i].p_vaddr && seg_end(ps[i])
            <= last
    &&& exists|i: int| 0 <= i < ps.len() && is_load(#[trigger] ps[i]) && ps[i].p_vaddr == first
    &&& exists|j: int| 0 <= j < ps.len() && is_load(#[trigger] ps[j]) && seg_end(ps[j]) == last
}

/// The range of virtual addresses that the loadable segments among `phdrs`
/// occupy: the lowest start address and the highest end address, or `None`
/// where there is no loadable segment.
pub fn load_address_range(phdrs: &[Elf64_Phdr]) -> (range: Option<(u64, u64)>)
    requires
        loads_fit_u64(phdrs@),
    ensures
        range is None <==> !has_load(phdrs@),
        range matches Some((first, last)) ==> is_load_range(phdrs@, first as int, last as int),
{
    let n = phdrs.len();
    let mut found = false;
    let mut first: u64 = 0;
    let mut last: u64 = 0;
    let ghost mut wf: int = 0;
    let ghost mut wl: int = 0;
    let mut i: usize = 0;
    while i < n
        invariant
            n == phdrs@.len(),
            i <= n,
            loads_fit_u64(phdrs@),
            found ==> {
                &&& forall|k: int|
                    0 <= k < i && is_load(#[trigger] phdrs@[k]) ==> first <= phdrs@[k].p_vaddr
                        && seg_end(phdrs@[k]) <= last
                &&& 0 <= wf < i && is_load(phdrs@[wf]) && phdrs@[wf].p_vaddr == first
                &&& 0 <= wl < i && is_load(phdrs@[wl]) && seg_end(phdrs@[wl]) == last
            },
            !found ==> forall|k: int| 0 <= k < i ==> !is_load(#[trigger] phdrs@[k]),
        decreases n - i,
    {
        let p = &phdrs[i];
        if p.p_type == PT_LOAD {
            assert(is_load(phdrs@[i as int]));
            let end = p.p_vaddr + p.p_memsz;
            if !found {
                found = true;
                first = p.p_vaddr;
                last = end;
                proof {
                    wf = i as int;
                    wl = i as int;
                }
            } else {
                if p.p_vaddr < first {
                    first = p.p_vaddr;
                    proof {
                        wf = i as int;
                    }
                }
                if end > last {
                    last = end;
                    proof {
                        wl = i as int;
                    }
                }
            }
        }
        i = i + 1;
    }
    if found {
        Some((first, last))
    } else {
        None
    }
}

/// The address range of the loadable segments of a kernel image: the lowest
/// start address and the highest end address, or `None` where the image has
/// no loadable segment.
pub fn calc_load_address_range(image: &[u8]) -> (range: Option<(u64, u64)>)
    requires
        image_wf(image@),
        loads_fit_u64(image_phdrs(image@)),
    ensures
        range is None <==> !has_load(image_phdrs(image@)),
        range matches Some((first, last)) ==> is_load_range(
            image_phdrs(image@),
            first as int,
            last as int,
        ),
{
    let table = phdrs(image);
    load_address_range(table.as_slice())
}

/// Where in a buffer that starts at address `base` segment `p` begins.
pub open spec fn seg_start(p: Elf64_Phdr, base: u64) -> int {
    p.p_vaddr - base
}

/// Segment `p`, if it is loadable, can be copied out of an image of
/// `image_len` bytes into a buffer of `buf_len` bytes that starts at address
/// `base`: its memory image lies inside the buffer, its file image inside the
/// image, and the file image is no longer than the memory image.
pub open spec fn segment_fits(p: Elf64_Phdr, image_len: int, base: u64, buf_len: int) -> bool {
    is_load(p) ==> {
        &&& base <= p.p_vaddr
        &&& p.p_filesz <= p.p_memsz
        &&& seg_start(p, base) + p.p_memsz <= buf_len
        &&& p.p_offset + p.p_filesz <= image_len
    }
}

/// Every segment among `ps` fits in the sense of `segment_fits`.
pub open spec fn segments_fit(ps: Seq<Elf64_Phdr>, image_len: int, base: u64, buf_len: int) -> bool {
    forall|i: int| 0 <= i < ps.len() ==> segment_fits(#[trigger] ps[i], image_len, base, buf_len)
}

/// The byte that a loadable segment `p` puts at index `x` of a buffer that
/// starts at address `base`: a byte of its file image, or zero past it.
pub open spec fn segment_byte(image: Seq<u8>, p: Elf64_Phdr, base: u64, x: int) -> u8 {
    if x < seg_start(p, base) + p.p_filesz {
        image[p.p_offset + (x - seg_start(p, base))]
    } else {
        0
    }
}

/// Segment `p` covers index `x` of a buffer that starts at address `base`.
pub open spec fn covers(p: Elf64_Phdr, base: u64, x: int) -> bool {
    is_load(p) && seg_start(p, base) <= x < seg_start(p, base) + p.p_memsz
}

/// The buffer `buf` after segment `p` has been loaded into it.
pub open spec fn apply_segment(image: Seq<u8>, p: Elf64_Phdr, base: u64, buf: Seq<u8>) -> Seq<u8> {
    Seq::new(
        buf.len(),
        |x: int|
            if covers(p, base, x) {
                segment_byte(image, p, base, x)
            } else {
                buf[x]
            },
    )
}

/// The buffer `buf` after the segments `ps` have been loaded into it in turn.
pub open spec fn apply_segments(image: Seq<u8>, ps: Seq<Elf64_Phdr>, base: u64, buf: Seq<u8>) -> Seq<u8>
    decreases ps.len(),
{
    if ps.len() == 0 {
        buf
    } else {
        apply_segment(image, ps.last(), base, apply_segments(image, ps.drop_last(), base, buf))
    }
}

/// Copies one segment into `buffer`, which starts at address `buffer_base`:
/// its file image from the kernel image, then zeros up to its memory size.
/// Other segments are left as they are.
pub fn load_segment(image: &[u8], phdr: &Elf64_Phdr, buffer: &mut [u8], buffer_base: u64)
    requires
        segment_fits(*phdr, image@.len() as int, buffer_base, old(buffer)@.len() as int),
    ensures
        final(buffer)@ == apply_segment(image@, *phdr, buffer_base, old(buffer)@),
{
    if phdr.p_type != PT_LOAD {
        proof {
            assert(buffer@ =~= apply_segment(image@, *phdr, buffer_base, buffer@));
        }
        return;
    }
    let ghost pre = buffer@;
    let image_len = image.len();
    let len = buffer.len();
    let start = (phdr.p_vaddr - buffer_base) as usize;
    let filesz = phdr.p_filesz as usize;
    let memsz = phdr.p_memsz as usize;
    let offset = phdr.p_offset as usize;
    let mut k: usize = 0;
    while k < filesz
        invariant
            len == buffer@.len(),
            len == pre.len(),
            image_len == image@.len(),
            start + memsz <= len,
            filesz <= memsz,
            offset + filesz <= image_len,
            k <= filesz,
            forall|x: int|
                0 <= x < len ==> #[trigger] buffer@[x] == if start <= x < start + k {
                    image@[offset + (x - start)]
                } else {
                    pre[x]
                },
        decreases filesz - k,
    {
        buffer[start + k] = image[offset + k];
        k = k + 1;
    }
    let remain = memsz - filesz;
    let bss = start + filesz;
    let mut k: usize = 0;
    while k < remain
        invariant
            len == buffer@.len(),
            len == pre.len(),
            image_len == image@.len(),
            start + memsz <= len,
            filesz <= memsz,
            remain == memsz - filesz,
            bss == start + filesz,
            offset + filesz <= image_len,
            k <= remain,
            forall|x: int|
                0 <= x < len ==> #[trigger] buffer@[x] == if start <= x < start + filesz {
                    image@[offset + (x - start)]
                } else if bss <= x < bss + k {
                    0u8
                } else {
                    pre[x]
                },
        decreases remain - k,
    {
        buffer[bss + k] = 0;
        k = k + 1;
    }
    proof {
        assert(buffer@ =~= apply_segment(image@, *phdr, buffer_base, pre));
    }
}

/// Copies every loadable segment of a kernel image, in program header order,
/// into `buffer`, which starts at address `buffer_base`: each segment's file
/// image goes to its virtual address, and the rest of its memory image is
/// zeroed.
pub fn copy_load_segments(image: &[u8], buffer: &mut [u8], buffer_base: u64)
    requires
        image_wf(image@),
        segments_fit(image_phdrs(image@), image@.len() as int, buffer_base, old(buffer)@.len() as int),
    ensures
        final(buffer)@ == apply_segments(image@, image_phdrs(image@), buffer_base, old(buffer)@),
{
    let table = phdrs(image);
    let ghost ps = table@;
    let ghost pre = buffer@;
    let n = table.len();
    let mut i: usize = 0;
    proof {
        assert(ps.subrange(0, 0) =~= Seq::<Elf64_Phdr>::empty());
    }
    while i < n
        invariant
            n == ps.len(),
            ps == image_phdrs(image@),
            table@ == ps,
            i <= n,
            buffer@.len() == pre.len(),
            segments_fit(ps, image@.len() as int, buffer_base, pre.len() as int),
            buffer@ == apply_segments(image@, ps.subrange(0, i as int), buffer_base, pre),
        decreases n - i,
    {
        let ghost before = buffer@;
        assert(segment_fits(ps[i as int], image@.len() as int, buffer_base, pre.len() as int));
        load_segment(image, &table[i], buffer, buffer_base);
        proof {
            let next = ps.subrange(0, i + 1);
            assert(next.drop_last() =~= ps.subrange(0, i as int));
            assert(next.last() == ps[i as int]);
        }
        i = i + 1;
    }
    proof {
        assert(ps.subrange(0, n as int) =~= ps);
    }
}

/// The pages that the loader sets aside for the address range
/// `[first_addr, last_addr)`: the page-aligned address at which they start,
/// and how many they are.
pub fn page_region(first_addr: usize, last_addr: usize) -> (region: (usize, usize))
    requires
        spec_align_page(first_addr as int) <= last_addr,
        last_addr - spec_align_page(first_addr as int) + 4095 <= usize::MAX,
    ensures
        region.0 == spec_align_page(first_addr as int),
        region.1 == spec_size_in_pages(last_addr - region.0),
        region.0 % 4096 == 0,
        region.0 <= first_addr,
        first_addr - region.0 < 4096,
        last_addr <= region.0 + region.1 * 4096 < last_addr + 4096,
{
    let aligned = align_page(first_addr);
    let pages = size_in_pages(last_addr - aligned);
    (aligned, pages)
}

/// The pages that `page_region` gives for the load range of a set of
/// program headers hold every loadable segment among them: each one starts
/// at or above the first page and ends within the last.
pub proof fn lemma_region_holds_segments(ps: Seq<Elf64_Phdr>, first: u64, last: u64)
    requires
        is_load_range(ps, first as int, last as int),
    ensures
        spec_align_page(first as int) <= last,
        forall|i: int|
            0 <= i < ps.len() && is_load(#[trigger] ps[i]) ==> {
                &&& spec_align_page(first as int) <= ps[i].p_vaddr
                &&& seg_start(ps[i], spec_align_page(first as int) as u64) + ps[i].p_memsz
                    <= spec_size_in_pages(last - spec_align_page(first as int)) * 4096
            },
{
    crate::page::lemma_align_page(first as int);
    let base = spec_align_page(first as int);
    let w = choose|i: int| 0 <= i < ps.len() && is_load(#[trigger] ps[i]) && ps[i].p_vaddr == first;
    assert(first <= last) by {
        assert(seg_end(ps[w]) <= last);
    }
    crate::page::lemma_size_in_pages(last - base);
}

/// The buffer after loading has the length it had before.
pub proof fn lemma_apply_segments_len(image: Seq<u8>, ps: Seq<Elf64_Phdr>, base: u64, buf: Seq<u8>)
    ensures
        apply_segments(image, ps, base, buf).len() == buf.len(),
    decreases ps.len(),
{
    if ps.len() > 0 {
        lemma_apply_segments_len(image, ps.drop_last(), base, buf);
    }
}

proof fn lemma_untouched(image: Seq<u8>, ps: Seq<Elf64_Phdr>, base: u64, buf: Seq<u8>, x: int)
    requires
        0 <= x < buf.len(),
        forall|j: int| 0 <= j < ps.len() ==> !covers(#[trigger] ps[j], base, x),
    ensures
        apply_segments(image, ps, base, buf)[x] == buf[x],
    decreases ps.len(),
{
    if ps.len() > 0 {
        let rest = ps.drop_last();
        assert forall|j: int| 0 <= j < rest.len() implies !covers(#[trigger] rest[j], base, x) by {
            assert(rest[j] == ps[j]);
        }
        lemma_untouched(image, rest, base, buf, x);
        lemma_apply_segments_len(image, rest, base, buf);
        assert(!covers(ps[ps.len() - 1], base, x));
    }
}

proof fn lemma_last_writer(
    image: Seq<u8>,
    ps: Seq<Elf64_Phdr>,
    base: u64,
    buf: Seq<u8>,
    i: int,
    x: int,
)
    requires
        0 <= x < buf.len(),
        0 <= i < ps.len(),
        covers(ps[i], base, x),
        forall|j: int| i < j < ps.len() ==> !covers(#[trigger] ps[j], base, x),
    ensures
        apply_segments(image, ps, base, buf)[x] == segment_byte(image, ps[i], base, x),
    decreases ps.len(),
{
    let rest = ps.drop_last();
    lemma_apply_segments_len(image, rest, base, buf);
    if i < ps.len() - 1 {
        assert forall|j: int| i < j < rest.len() implies !covers(#[trigger] rest[j], base, x) by {
            assert(rest[j] == ps[j]);
        }
        assert(rest[i] == ps[i]);
        lemma_last_writer(image, rest, base, buf, i, x);
        assert(!covers(ps[ps.len() - 1], base, x));
    }
}

/// The memory images of the loadable segments among `ps` do not overlap in
/// a buffer that starts at address `base`.
pub open spec fn load_dests_disjoint(ps: Seq<Elf64_Phdr>, base: u64) -> bool {
    forall|i: int, j: int|
        0 <= i < ps.len() && 0 <= j < ps.len() && i != j && is_load(#[trigger] ps[i]) && is_load(
            #[trigger] ps[j],
        ) ==> seg_start(ps[i], base) + ps[i].p_memsz <= seg_start(ps[j], base) || seg_start(
            ps[j],
            base,
        ) + ps[j].p_memsz <= seg_start(ps[i], base)
}

/// Loading segments whose memory images do not overlap puts each segment's
/// file image at its place in the buffer, zeros the rest of its memory
/// image, and leaves every byte that no loadable segment covers as it was.
pub proof fn lemma_loaded_segments(image: Seq<u8>, ps: Seq<Elf64_Phdr>, base: u64, buf: Seq<u8>)
    requires
        segments_fit(ps, image.len() as int, base, buf.len() as int),
        load_dests_disjoint(ps, base),
    ensures
        apply_segments(image, ps, base, buf).len() == buf.len(),
        forall|i: int, k: int|
            0 <= i < ps.len() && is_load(ps[i]) && 0 <= k < ps[i].p_filesz ==> #[trigger] apply_segments(
                image,
                ps,
                base,
                buf,
            )[seg_start(#[trigger] ps[i], base) + k] == image[ps[i].p_offset + k],
        forall|i: int, k: int|
            0 <= i < ps.len() && is_load(ps[i]) && ps[i].p_filesz <= k < ps[i].p_memsz
                ==> #[trigger] apply_segments(image, ps, base, buf)[seg_start(
                #[trigger] ps[i],
                base,
            ) + k] == 0,
        forall|x: int|
            0 <= x < buf.len() && (forall|j: int| 0 <= j < ps.len() ==> !covers(#[trigger] ps[j], base, x))
                ==> #[trigger] apply_segments(image, ps, base, buf)[x] == buf[x],
{
    lemma_apply_segments_len(image, ps, base, buf);
    let out = apply_segments(image, ps, base, buf);
    assert forall|i: int, k: int|
        0 <= i < ps.len() && is_load(ps[i]) && 0 <= k < ps[i].p_memsz implies #[trigger] out[seg_start(
        #[trigger] ps[i],
        base,
    ) + k] == if k < ps[i].p_filesz {
        image[ps[i].p_offset + k]
    } else {
        0u8
    } by {
        let x = seg_start(ps[i], base) + k;
        assert(segment_fits(ps[i], image.len() as int, base, buf.len() as int));
        assert forall|j: int| i < j < ps.len() implies !covers(#[trigger] ps[j], base, x) by {
            if is_load(ps[j]) {
                assert(segment_fits(ps[j], image.len() as int, base, buf.len() as int));
            }
        }
        lemma_last_writer(image, ps, base, buf, i, x);
    }
    assert forall|x: int|
        0 <= x < buf.len() && (forall|j: int| 0 <= j < ps.len() ==> !covers(#[trigger] ps[j], base, x))
        implies #[trigger] out[x] == buf[x] by {
        lemma_untouched(image, ps, base, buf, x);
    }
}

/// Two ranges that both are the load range of `ps` are the same range.
pub proof fn lemma_load_range_unique(ps: Seq<Elf64_Phdr>, f1: int, l1: int, f2: int, l2: int)
    requires
        is_load_range(ps, f1, l1),
        is_load_range(ps, f2, l2),
    ensures
        f1 == f2,
        l1 == l2,
{
    let a = choose|i: int| 0 <= i < ps.len() && is_load(#[trigger] ps[i]) && ps[i].p_vaddr == f1;
    let b = choose|i: int| 0 <= i < ps.len() && is_load(#[trigger] ps[i]) && ps[i].p_vaddr == f2;
    let c = choose|j: int| 0 <= j < ps.len() && is_load(#[trigger] ps[j]) && seg_end(ps[j]) == l1;
    let d = choose|j: int| 0 <= j < ps.len() && is_load(#[trigger] ps[j]) && seg_end(ps[j]) == l2;
    assert(f2 <= ps[a].p_vaddr && f1 <= ps[b].p_vaddr);
    assert(seg_end(ps[c]) <= l2 && seg_end(ps[d]) <= l1);
}

/// Every loadable segment among `ps` has a file image no longer than its
/// memory image, lying inside an image of `image_len` bytes.
pub open spec fn files_fit(ps: Seq<Elf64_Phdr>, image_len: int) -> bool {
    forall|i: int|
        0 <= i < ps.len() && is_load(#[trigger] ps[i]) ==> ps[i].p_filesz <= ps[i].p_memsz
            && ps[i].p_offset + ps[i].p_filesz <= image_len
}

/// The load range `[first, last)` is beyond `usize`: `last` does not fit in
/// `usize`, or the bytes from the page of `first` up to `last`, rounded up
/// to a whole page, do not.
pub open spec fn region_too_large(first: int, last: int) -> bool {
    last > usize::MAX || last - spec_align_page(first) + 4095 > usize::MAX
}

/// Why a kernel image cannot be loaded.
#[derive(Clone, Copy, Debug, PartialEq, Eq)]
pub enum PlanError {
    /// The image is too short for a file header, or for the program header
    /// table that the file header points to.
    MalformedImage,
    /// A loadable segment ends past the 64-bit address space, has a file
    /// image longer than its memory image, or a file image past the end of
    /// the image.
    InvalidSegment,
    /// The image has no loadable segment.
    NoLoadableSegment,
    /// The load range, rounded out to whole pages, is beyond `usize`.
    RegionOverflow,
}

/// Where and how a kernel image is loaded.
#[derive(Clone, Copy, Debug)]
pub struct LoadPlan {
    /// Lowest start address of the loadable segments.
    pub first: u64,
    /// Highest end address of the loadable segments.
    pub last: u64,
    /// Address of the first page to allocate: `first` rounded down to a page.
    pub base: usize,
    /// Number of pages to allocate from `base`.
    pub pages: usize,
    /// The kernel's entry point.
    pub entry: u64,
}

/// Decides where a kernel image goes: the load range of its segments, the
/// pages that hold it, and the entry point; or why the image cannot be
/// loaded. Once the pages are allocated at `base`, `copy_load_segments` can
/// copy the segments into them.
pub fn plan_load(image: &[u8]) -> (plan: Result<LoadPlan, PlanError>)
    ensures
        plan == Err::<LoadPlan, PlanError>(PlanError::MalformedImage) <==> !image_wf(image@),
        plan == Err::<LoadPlan, PlanError>(PlanError::InvalidSegment) <==> image_wf(image@) && !(
        loads_fit_u64(image_phdrs(image@)) && files_fit(image_phdrs(image@), image@.len() as int)),
        plan == Err::<LoadPlan, PlanError>(PlanError::NoLoadableSegment) <==> image_wf(image@)
            && loads_fit_u64(image_phdrs(image@)) && files_fit(image_phdrs(image@), image@.len() as int)
            && !has_load(image_phdrs(image@)),
        plan == Err::<LoadPlan, PlanError>(PlanError::RegionOverflow) <==> image_wf(image@)
            && loads_fit_u64(image_phdrs(image@)) && files_fit(image_phdrs(image@), image@.len() as int)
            && exists|f: u64, l: u64|
            is_load_range(image_phdrs(image@), f as int, l as int) && region_too_large(
                f as int,
                l as int,
            ),
        plan matches Ok(p) ==> {
            &&& image_wf(image@)
            &&& is_load_range(image_phdrs(image@), p.first as int, p.last as int)
            &&& !region_too_large(p.first as int, p.last as int)
            &&& p.base == spec_align_page(p.first as int)
            &&& p.pages == spec_size_in_pages(p.last - p.base)
            &&& p.entry == crate::bytes::le_at(image@, 24, 8)
            &&& segments_fit(image_phdrs(image@), image@.len() as int, p.base as u64, p.pages * 4096)
        },
{
    let len = image.len();
    if len < crate::elf64::EHDR_SIZE {
        return Err(PlanError::MalformedImage);
    }
    let phoff = crate::bytes::read_le(image, 32, 8);
    let phnum = crate::bytes::read_le(image, 56, 2);
    if phoff > len as u64 || phnum * 56 > len as u64 - phoff {
        return Err(PlanError::MalformedImage);
    }
    let table = phdrs(image);
    let ghost ps = table@;
    let n = table.len();
    let mut i: usize = 0;
    while i < n
        invariant
            n == ps.len(),
            table@ == ps,
            ps == image_phdrs(image@),
            image_wf(image@),
            len == image@.len(),
            i <= n,
            forall|k: int|
                0 <= k < i && is_load(#[trigger] ps[k]) ==> seg_end(ps[k]) <= u64::MAX
                    && ps[k].p_filesz <= ps[k].p_memsz && ps[k].p_offset + ps[k].p_filesz <= len,
        decreases n - i,
    {
        let p = &table[i];
        if p.p_type == PT_LOAD {
            if p.p_memsz > u64::MAX - p.p_vaddr || p.p_filesz > p.p_memsz || p.p_offset > len as u64
                || p.p_filesz > len as u64 - p.p_offset {
                assert(!(loads_fit_u64(ps) && files_fit(ps, len as int))) by {
                    assert(is_load(ps[i as int]));
                }
                return Err(PlanError::InvalidSegment);
            }
        }
        i = i + 1;
    }
    assert(loads_fit_u64(ps));
    assert(files_fit(ps, len as int));
    let range = load_address_range(table.as_slice());
    let (first, last) = match range {
        None => return Err(PlanError::NoLoadableSegment),
        Some(r) => r,
    };
    if last > usize::MAX as u64 {
        proof {
            assert forall|f: u64, l: u64| is_load_range(ps, f as int, l as int) implies region_too_large(
                f as int,
                l as int,
            ) by {
                lemma_load_range_unique(ps, f as int, l as int, first as int, last as int);
            }
            lemma_region_holds_segments(ps, first, last);
            assert(is_load_range(image_phdrs(image@), first as int, last as int) && region_too_large(
                first as int,
                last as int,
            ));
        }
        return Err(PlanError::RegionOverflow);
    }
    proof {
        lemma_region_holds_segments(ps, first, last);
    }
    let aligned = align_page(first as usize);
    if last as usize - aligned > usize::MAX - 4095 {
        proof {
            assert forall|f: u64, l: u64| is_load_range(ps, f as int, l as int) implies region_too_large(
                f as int,
                l as int,
            ) by {
                lemma_load_range_unique(ps, f as int, l as int, first as int, last as int);
            }
            assert(is_load_range(image_phdrs(image@), first as int, last as int) && region_too_large(
                first as int,
                last as int,
            ));
        }
        return Err(PlanError::RegionOverflow);
    }
    let (base, pages) = page_region(first as usize, last as usize);
    let entry = crate::bytes::read_le(image, 24, 8);
    proof {
        assert forall|f: u64, l: u64| is_load_range(ps, f as int, l as int) implies !region_too_large(
            f as int,
            l as int,
        ) by {
            lemma_load_range_unique(ps, f as int, l as int, first as int, last as int);
        }
        assert forall|k: int| 0 <= k < ps.len() implies segment_fits(
            #[trigger] ps[k],
            len as int,
            base as u64,
            pages * 4096,
        ) by {
            if is_load(ps[k]) {
                assert(seg_start(ps[k], base as u64) + ps[k].p_memsz <= spec_size_in_pages(
                    last - spec_align_page(first as int),
                ) * 4096);
            }
        }
    }
    Ok(LoadPlan { first, last, base, pages, entry })
}

/// Headers that are not loadable have no effect on loading: two header
/// lists of the same length that agree wherever either one is loadable,
/// loaded from two images that agree on every loadable segment's file
/// image, leave the same buffer.
pub proof fn lemma_non_load_headers_ignored(
    image1: Seq<u8>,
    image2: Seq<u8>,
    ps1: Seq<Elf64_Phdr>,
    ps2: Seq<Elf64_Phdr>,
    base: u64,
    buf: Seq<u8>,
)
    requires
        ps1.len() == ps2.len(),
        forall|i: int|
            0 <= i < ps1.len() && (is_load(#[trigger] ps1[i]) || is_load(ps2[i])) ==> ps1[i]
                == ps2[i],
        forall|i: int, k: int|
            #![trigger image1[ps1[i].p_offset + k]]
            0 <= i < ps1.len() && is_load(ps1[i]) && 0 <= k < ps1[i].p_filesz
                ==> image1[ps1[i].p_offset + k] == image2[ps1[i].p_offset + k],
    ensures
        apply_segments(image1, ps1, base, buf) == apply_segments(image2, ps2, base, buf),
    decreases ps1.len(),
{
    if ps1.len() > 0 {
        let n = ps1.len() - 1;
        let r1 = ps1.drop_last();
        let r2 = ps2.drop_last();
        assert forall|i: int|
            0 <= i < r1.len() && (is_load(#[trigger] r1[i]) || is_load(r2[i])) implies r1[i]
            == r2[i] by {
            assert(r1[i] == ps1[i] && r2[i] == ps2[i]);
        }
        assert forall|i: int, k: int|
            #![trigger image1[r1[i].p_offset + k]]
            0 <= i < r1.len() && is_load(r1[i]) && 0 <= k < r1[i].p_filesz
            implies image1[r1[i].p_offset + k] == image2[r1[i].p_offset + k] by {
            assert(r1[i] == ps1[i]);
            assert(image1[ps1[i].p_offset + k] == image2[ps1[i].p_offset + k]);
        }
        lemma_non_load_headers_ignored(image1, image2, r1, r2, base, buf);
        let prev = apply_segments(image1, r1, base, buf);
        let p1 = ps1[n];
        let p2 = ps2[n];
        let out1 = apply_segment(image1, p1, base, prev);
        let out2 = apply_segment(image2, p2, base, prev);
        assert forall|x: int| 0 <= x < out1.len() implies out1[x] == out2[x] by {
            if is_load(p1) || is_load(p2) {
                assert(p1 == p2);
                if covers(p1, base, x) && x < seg_start(p1, base) + p1.p_filesz {
                    let k = x - seg_start(p1, base);
                    assert(image1[p1.p_offset + k] == image2[p1.p_offset + k]);
                }
            }
        }
        assert(out1 =~= out2);
    }
}

/// Loading keeps every byte when no header is loadable.
pub proof fn lemma_no_load_keeps_buffer(image: Seq<u8>, ps: Seq<Elf64_Phdr>, base: u64, buf: Seq<u8>)
    requires
        !has_load(ps),
    ensures
        apply_segments(image, ps, base, buf) == buf,
    decreases ps.len(),
{
    if ps.len() > 0 {
        let r = ps.drop_last();
        assert(!has_load(r)) by {
            if has_load(r) {
                let w = choose|i: int| 0 <= i < r.len() && is_load(#[trigger] r[i]);
                assert(ps[w] == r[w]);
            }
        }
        lemma_no_load_keeps_buffer(image, r, base, buf);
        assert(!is_load(ps[ps.len() - 1]));
        assert(apply_segment(image, ps.last(), base, buf) =~= buf);
    }
}

/// Loadable means exactly program header type 1.
pub proof fn lemma_load_is_type_one(p: Elf64_Phdr)
    ensures
        is_load(p) <==> p.p_type == 1,
{
}

/// The `n` bytes at offset `rel` inside program header `i` of an image, whose
/// headers are 56 bytes apart from the offset held in bytes 32..40.
pub open spec fn phdr_bytes(image: Seq<u8>, i: int, rel: int, n: int) -> nat {
    le_at(image, le_at(image, 32, 8) + 56 * i + rel, n)
}

/// The load range of an image, in terms of its bytes: among the program
/// headers (their number is bytes 56..58) whose type bytes hold 1, `first`
/// is the lowest virtual address (bytes 16..24 of the header) and `last`
/// the highest virtual address plus memory size (bytes 40..48); there is no
/// load range exactly when no header has type 1.
pub proof fn lemma_load_range_bytes(image: Seq<u8>, first: int, last: int)
    requires
        image_wf(image),
    ensures
        has_load(image_phdrs(image)) <==> exists|i: int|
            0 <= i < le_at(image, 56, 2) && #[trigger] phdr_bytes(image, i, 0, 4) == 1,
        is_load_range(image_phdrs(image), first, last) ==> {
            &&& forall|i: int|
                0 <= i < le_at(image, 56, 2) && #[trigger] phdr_bytes(image, i, 0, 4) == 1 ==> first
                    <= phdr_bytes(image, i, 16, 8) && phdr_bytes(image, i, 16, 8) + phdr_bytes(
                    image,
                    i,
                    40,
                    8,
                ) <= last
            &&& exists|i: int|
                0 <= i < le_at(image, 56, 2) && #[trigger] phdr_bytes(image, i, 0, 4) == 1
                    && phdr_bytes(image, i, 16, 8) == first
            &&& exists|j: int|
                0 <= j < le_at(image, 56, 2) && #[trigger] phdr_bytes(image, j, 0, 4) == 1
                    && phdr_bytes(image, j, 16, 8) + phdr_bytes(image, j, 40, 8) == last
        },
{
    let ps = image_phdrs(image);
    let n = le_at(image, 56, 2) as int;
    assert forall|i: int| 0 <= i < n implies {
        &&& ps[i].p_type == phdr_bytes(image, i, 0, 4)
        &&& ps[i].p_vaddr == phdr_bytes(image, i, 16, 8)
        &&& ps[i].p_memsz == phdr_bytes(image, i, 40, 8)
    } by {
        lemma_image_phdrs_layout(image, i);
    }
    assert(ps.len() == n);
    if has_load(ps) {
        let w = choose|i: int| 0 <= i < ps.len() && is_load(#[trigger] ps[i]);
        assert(phdr_bytes(image, w, 0, 4) == 1);
    }
    if exists|i: int| 0 <= i < n && #[trigger] phdr_bytes(image, i, 0, 4) == 1 {
        let w = choose|i: int| 0 <= i < n && #[trigger] phdr_bytes(image, i, 0, 4) == 1;
        assert(is_load(ps[w]));
    }
    if is_load_range(ps, first, last) {
        assert forall|i: int|
            0 <= i < n && #[trigger] phdr_bytes(image, i, 0, 4) == 1 implies first <= phdr_bytes(
            image,
            i,
            16,
            8,
        ) && phdr_bytes(image, i, 16, 8) + phdr_bytes(image, i, 40, 8) <= last by {
            assert(is_load(ps[i]));
        }
        let a = choose|i: int| 0 <= i < ps.len() && is_load(#[trigger] ps[i]) && ps[i].p_vaddr == first;
        assert(phdr_bytes(image, a, 0, 4) == 1 && phdr_bytes(image, a, 16, 8) == first);
        let b = choose|j: int| 0 <= j < ps.len() && is_load(#[trigger] ps[j]) && seg_end(ps[j]) == last;
        assert(phdr_bytes(image, b, 0, 4) == 1 && phdr_bytes(image, b, 16, 8) + phdr_bytes(
            image,
            b,
            40,
            8,
        ) == last);
    }
}

/// Loading, stated over the header fields: for headers of type 1 whose
/// memory images do not overlap, the buffer byte at `p_vaddr - base + k` is
/// file byte `p_offset + k` below `p_filesz` and zero from there up to
/// `p_memsz`; a byte that no type-1 header's memory image reaches keeps its
/// value, and headers of any other type change nothing.
pub proof fn lemma_loaded_bytes(image: Seq<u8>, ps: Seq<Elf64_Phdr>, base: u64, buf: Seq<u8>)
    requires
        segments_fit(ps, image.len() as int, base, buf.len() as int),
        load_dests_disjoint(ps, base),
    ensures
        apply_segments(image, ps, base, buf).len() == buf.len(),
        forall|i: int, k: int|
            0 <= i < ps.len() && ps[i].p_type == 1 && 0 <= k < ps[i].p_filesz
                ==> #[trigger] apply_segments(image, ps, base, buf)[(#[trigger] ps[i]).p_vaddr - base
                + k] == image[ps[i].p_offset + k],
        forall|i: int, k: int|
            0 <= i < ps.len() && ps[i].p_type == 1 && ps[i].p_filesz <= k < ps[i].p_memsz
                ==> #[trigger] apply_segments(image, ps, base, buf)[(#[trigger] ps[i]).p_vaddr - base
                + k] == 0,
        forall|x: int|
            0 <= x < buf.len() && (forall|j: int|
                0 <= j < ps.len() && (#[trigger] ps[j]).p_type == 1 ==> !(ps[j].p_vaddr - base <= x
                    < ps[j].p_vaddr - base + ps[j].p_memsz)) ==> #[trigger] apply_segments(
                image,
                ps,
                base,
                buf,
            )[x] == buf[x],
{
    lemma_loaded_segments(image, ps, base, buf);
    let out = apply_segments(image, ps, base, buf);
    assert forall|i: int, k: int|
        0 <= i < ps.len() && ps[i].p_type == 1 && 0 <= k < ps[i].p_filesz implies #[trigger] out[(
        #[trigger] ps[i]).p_vaddr - base + k] == image[ps[i].p_offset + k] by {
        assert(is_load(ps[i]));
        assert(out[seg_start(ps[i], base) + k] == image[ps[i].p_offset + k]);
    }
    assert forall|i: int, k: int|
        0 <= i < ps.len() && ps[i].p_type == 1 && ps[i].p_filesz <= k < ps[i].p_memsz
        implies #[trigger] out[(#[trigger] ps[i]).p_vaddr - base + k] == 0 by {
        assert(is_load(ps[i]));
        assert(out[seg_start(ps[i], base) + k] == 0);
    }
    assert forall|x: int|
        0 <= x < buf.len() && (forall|j: int|
            0 <= j < ps.len() && (#[trigger] ps[j]).p_type == 1 ==> !(ps[j].p_vaddr - base <= x
                < ps[j].p_vaddr - base + ps[j].p_memsz)) implies #[trigger] out[x] == buf[x] by {
        assert forall|j: int| 0 <= j < ps.len() implies !covers(#[trigger] ps[j], base, x) by {
            if is_load(ps[j]) {
                assert(ps[j].p_type == 1);
            }
        }
    }
}

/// Where segments overlap, the later header wins: a buffer byte inside the
/// memory image of type-1 header `i`, and inside no later type-1 header's,
/// ends up as header `i` leaves it — file byte `p_offset + (x - (p_vaddr -
/// base))` below the file size, zero above it.
pub proof fn lemma_later_header_wins(
    image: Seq<u8>,
    ps: Seq<Elf64_Phdr>,
    base: u64,
    buf: Seq<u8>,
    i: int,
    x: int,
)
    requires
        0 <= x < buf.len(),
        0 <= i < ps.len(),
        ps[i].p_type == 1,
        ps[i].p_vaddr - base <= x < ps[i].p_vaddr - base + ps[i].p_memsz,
        forall|j: int|
            i < j < ps.len() && (#[trigger] ps[j]).p_type == 1 ==> !(ps[j].p_vaddr - base <= x
                < ps[j].p_vaddr - base + ps[j].p_memsz),
    ensures
        apply_segments(image, ps, base, buf)[x] == if x < ps[i].p_vaddr - base + ps[i].p_filesz {
            image[ps[i].p_offset + (x - (ps[i].p_vaddr - base))]
        } else {
            0u8
        },
{
    assert forall|j: int| i < j < ps.len() implies !covers(#[trigger] ps[j], base, x) by {
        if is_load(ps[j]) {
            assert(ps[j].p_type == 1);
        }
    }
    lemma_last_writer(image, ps, base, buf, i, x);
}

/// What the fitting conditions on headers mean, header by header: only
/// type-1 headers are constrained; such a header must start at or above
/// `base`, have a file image no longer than its memory image, end its memory
/// image within `buf_len` bytes of `base`, and end its file image within the
/// image; it must not end past `2^64 - 1`.
pub proof fn lemma_fit_conditions(
    ps: Seq<Elf64_Phdr>,
    image_len: int,
    base: u64,
    buf_len: int,
    first: int,
    last: int,
)
    ensures
        segments_fit(ps, image_len, base, buf_len) <==> forall|i: int|
            0 <= i < ps.len() && (#[trigger] ps[i]).p_type == 1 ==> base <= ps[i].p_vaddr
                && ps[i].p_filesz <= ps[i].p_memsz && ps[i].p_vaddr - base + ps[i].p_memsz <= buf_len
                && ps[i].p_offset + ps[i].p_filesz <= image_len,
        files_fit(ps, image_len) <==> forall|i: int|
            0 <= i < ps.len() && (#[trigger] ps[i]).p_type == 1 ==> ps[i].p_filesz <= ps[i].p_memsz
                && ps[i].p_offset + ps[i].p_filesz <= image_len,
        loads_fit_u64(ps) <==> forall|i: int|
            0 <= i < ps.len() && (#[trigger] ps[i]).p_type == 1 ==> ps[i].p_vaddr + ps[i].p_memsz
                <= 0xffff_ffff_ffff_ffff,
        region_too_large(first, last) <==> (last > usize::MAX || last - first / 4096 * 4096 + 4095
            > usize::MAX),
{
    assert(segments_fit(ps, image_len, base, buf_len) ==> forall|i: int|
        0 <= i < ps.len() && (#[trigger] ps[i]).p_type == 1 ==> base <= ps[i].p_vaddr
            && ps[i].p_filesz <= ps[i].p_memsz && ps[i].p_vaddr - base + ps[i].p_memsz <= buf_len
            && ps[i].p_offset + ps[i].p_filesz <= image_len) by {
        if segments_fit(ps, image_len, base, buf_len) {
            assert forall|i: int| 0 <= i < ps.len() && (#[trigger] ps[i]).p_type == 1 implies base
                <= ps[i].p_vaddr && ps[i].p_filesz <= ps[i].p_memsz && ps[i].p_vaddr - base
                + ps[i].p_memsz <= buf_len && ps[i].p_offset + ps[i].p_filesz <= image_len by {
                assert(segment_fits(ps[i], image_len, base, buf_len));
            }
        }
    }
}

} // verus!
