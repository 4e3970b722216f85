//! Page-granular address arithmetic.

use vstd::prelude::*;

verus! {

/// The size of a 4K page, in bytes.
pub const PAGE_SIZE_4K: usize = 0x1000;

/// The greatest multiple of the page size that is not above `addr`.
pub open spec fn page_floor(addr: int) -> int {
    addr - addr % 0x1000
}

/// The least multiple of the page size that is not below `addr`.
pub open spec fn page_ceil(addr: int) -> int {
    page_floor(addr + 0xfff)
}

/// Whether `addr` is a multiple of the page size.
pub open spec fn page_aligned(addr: int) -> bool {
    addr % 0x1000 == 0
}

/// The number of whole pages needed to hold `size` bytes.
pub open spec fn pages_for(size: int) -> int {
    (size + 0xfff) / 0x1000
}

/// `memory_addr::align_down_4k` clears the low twelve bits of the address,
/// which leaves the greatest page boundary that is not above it.
pub assume_specification[ memory_addr::align_down_4k ](addr: usize) -> (r: usize)
    ensures
        r == page_floor(addr as int),
;

/// `memory_addr::align_up_4k` adds 4095 and then clears the low twelve bits.
/// The addition must not overflow; the result is the least page boundary that
/// is not below the address.
pub assume_specification[ memory_addr::align_up_4k ](addr: usize) -> (r: usize)
    requires
        addr + 0xfff <= usize::MAX,
    ensures
        r == page_ceil(addr as int),
;

/// `memory_addr::is_aligned_4k` tests whether the low twelve bits are zero.
pub assume_specification[ memory_addr::is_aligned_4k ](addr: usize) -> (r: bool)
    ensures
        r == page_aligned(addr as int),
;

/// Rounding down lands on a page boundary at most one page below.
pub proof fn lemma_page_floor(addr: int)
    requires
        addr >= 0,
    ensures
        page_aligned(page_floor(addr)),
        0 <= page_floor(addr) <= addr < page_floor(addr) + 0x1000,
        page_aligned(addr) ==> page_floor(addr) == addr,
{
}

/// Rounding up lands on a page boundary less than one page above.
pub proof fn lemma_page_ceil(addr: int)
    requires
        addr >= 0,
    ensures
        page_aligned(page_ceil(addr)),
        addr <= page_ceil(addr) < addr + 0x1000,
        page_ceil(addr) == pages_for(addr) * 0x1000,
        page_aligned(addr) ==> page_ceil(addr) == addr,
{
}

/// The number of whole pages that `size` bytes occupy.
pub fn num_pages(size: usize) -> (n: usize)
    requires
        size + 0xfff <= usize::MAX,
    ensures
        n == pages_for(size as int),
        n * 0x1000 == page_ceil(size as int),
{
    proof {
        lemma_page_ceil(size as int);
    }
    memory_addr::align_up_4k(size) / PAGE_SIZE_4K
}

} // verus!
