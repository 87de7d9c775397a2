//! Page arithmetic of the loader: pages are 4 KiB.
use vstd::prelude::*;

verus! {

/// Size of one page, in bytes.
pub const PAGE_UNIT_SIZE: usize = 0x1000;

/// `addr` rounded down to the start of its page.
pub open spec fn spec_align_page(addr: int) -> int {
    addr / 4096 * 4096
}

/// The number of pages that `size` bytes take up.
pub open spec fn spec_size_in_pages(size: int) -> int {
    (size + 4095) / 4096
}

/// Rounding down to a page boundary gives the page-aligned address at most
/// one page below `addr`.
pub proof fn lemma_align_page(addr: int)
    requires
        addr >= 0,
    ensures
        spec_align_page(addr) % 4096 == 0,
        0 <= spec_align_page(addr) <= addr,
        addr - spec_align_page(addr) < 4096,
{
    vstd::arithmetic::div_mod::lemma_fundamental_div_mod(addr, 4096);
    vstd::arithmetic::div_mod::lemma_mod_multiples_basic(addr / 4096, 4096);
}

/// Rounding down to a page boundary twice is rounding down once.
pub proof fn lemma_align_page_idempotent(addr: int)
    requires
        addr >= 0,
    ensures
        spec_align_page(spec_align_page(addr)) == spec_align_page(addr),
{
    lemma_align_page(addr);
    let a = spec_align_page(addr);
    vstd::arithmetic::div_mod::lemma_fundamental_div_mod(a, 4096);
}

/// The pages that `size` bytes take up hold them, with less than one page
/// to spare.
pub proof fn lemma_size_in_pages(size: int)
    requires
        size >= 0,
    ensures
        spec_size_in_pages(size) >= 0,
        spec_size_in_pages(size) * 4096 >= size,
        spec_size_in_pages(size) * 4096 < size + 4096,
{
    vstd::arithmetic::div_mod::lemma_fundamental_div_mod(size + 4095, 4096);
}

/// Rounds `addr` down to a page boundary.
pub fn align_page(addr: usize) -> (aligned: usize)
    ensures
        aligned == spec_align_page(addr as int),
        aligned % 4096 == 0,
        aligned <= addr,
        addr - aligned < 4096,
{
    proof {
        lemma_align_page(addr as int);
    }
    addr / PAGE_UNIT_SIZE * PAGE_UNIT_SIZE
}

/// Fewer whole pages are needed for fewer bytes.
pub proof fn lemma_size_in_pages_monotonic(a: int, b: int)
    requires
        0 <= a <= b,
    ensures
        spec_size_in_pages(a) <= spec_size_in_pages(b),
{
    vstd::arithmetic::div_mod::lemma_div_is_ordered(a + 4095, b + 4095, 4096);
}

/// The bytes of `size` whole pages are `size` rounded up to a page boundary.
pub proof fn lemma_size_in_pages_align(size: int)
    requires
        size >= 0,
    ensures
        spec_size_in_pages(size) * 4096 == spec_align_page(size + 4095),
{
}

/// The number of whole pages needed to hold `size_in_bytes` bytes.
pub fn size_in_pages(size_in_bytes: usize) -> (pages: usize)
    requires
        size_in_bytes + 4095 <= usize::MAX,
    ensures
        pages == spec_size_in_pages(size_in_bytes as int),
        pages * 4096 >= size_in_bytes,
        pages * 4096 < size_in_bytes + 4096,
{
    proof {
        lemma_size_in_pages(size_in_bytes as int);
    }
    (size_in_bytes + (PAGE_UNIT_SIZE - 1)) / PAGE_UNIT_SIZE
}

} // verus!
