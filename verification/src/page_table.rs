//! A page table as a finite map from virtual page addresses to frames.

use std::collections::HashMap;
use vstd::prelude::*;
use crate::addr::{page_aligned, page_floor, PAGE_SIZE_4K};
use crate::flags::MappingFlags;
use crate::frames::{first_fit, mark_run, FrameAllocator};

verus! {

/// Why a page-table operation was refused.
#[derive(Clone, Copy, Debug, PartialEq, Eq, Structural)]
pub enum PagingError {
    /// No frame is left for the table itself.
    NoMemory,
    /// An address or a size is not a multiple of the page size.
    NotAligned,
    /// A page of the range has no mapping.
    NotMapped,
    /// A page of the range has a mapping already.
    AlreadyMapped,
}

/// The size of the page that a translation went through.
#[derive(Clone, Copy, Debug, PartialEq, Eq, Structural)]
pub enum PageSize {
    /// A page of 4096 bytes.
    Size4K,
    /// A page of 2 MiB.
    Size2M,
    /// A page of 1 GiB.
    Size1G,
}

/// One page's mapping: the frame it points to and the rights it grants.
#[derive(Clone, Copy, Debug, PartialEq, Eq, Structural)]
pub struct PageEntry {
    /// The physical address of the frame.
    pub paddr: usize,
    /// The access rights.
    pub flags: MappingFlags,
}

/// Whether `a` is the address of one of the `n` pages from `base`.
pub open spec fn in_pages(a: int, base: int, n: int) -> bool {
    base <= a < base + n * 0x1000 && page_aligned(a)
}

/// Whether none of the `n` pages from `base` has a mapping in `t`.
pub open spec fn range_unmapped(t: Map<usize, PageEntry>, base: int, n: int) -> bool {
    forall|a: usize| in_pages(a as int, base, n) ==> !#[trigger] t.contains_key(a)
}

/// Whether each of the `n` pages from `base` has a mapping in `t`.
pub open spec fn range_mapped(t: Map<usize, PageEntry>, base: int, n: int) -> bool {
    forall|a: usize| in_pages(a as int, base, n) ==> #[trigger] t.contains_key(a)
}

/// `t` with the `n` pages from `vbase` pointing, in order, to the `n` frames
/// from `pbase`, with the rights `flags`.
pub open spec fn map_range(
    t: Map<usize, PageEntry>,
    vbase: int,
    pbase: int,
    n: int,
    flags: MappingFlags,
) -> Map<usize, PageEntry> {
    Map::new(
        |a: usize| t.contains_key(a) || in_pages(a as int, vbase, n),
        |a: usize|
            if in_pages(a as int, vbase, n) {
                PageEntry { paddr: (pbase + (a - vbase)) as usize, flags }
            } else {
                t[a]
            },
    )
}

/// `t` without the mappings of the `n` pages from `vbase`.
pub open spec fn unmap_range(t: Map<usize, PageEntry>, vbase: int, n: int) -> Map<
    usize,
    PageEntry,
> {
    Map::new(
        |a: usize| t.contains_key(a) && !in_pages(a as int, vbase, n),
        |a: usize| t[a],
    )
}

/// What a lookup of `vaddr` in `t` gives: the physical address that the byte
/// at `vaddr` lies at, the rights and the page size, or `NotMapped`.
pub open spec fn query_in(t: Map<usize, PageEntry>, vaddr: usize) -> Result<
    (usize, MappingFlags, PageSize),
    PagingError,
> {
    let page = page_floor(vaddr as int) as usize;
    if t.contains_key(page) {
        Ok(((t[page].paddr + (vaddr - page)) as usize, t[page].flags, PageSize::Size4K))
    } else {
        Err(PagingError::NotMapped)
    }
}

/// Every page address and frame address of `t` is a page boundary, and every
/// frame ends within the address space.
pub open spec fn table_wf(t: Map<usize, PageEntry>) -> bool {
    forall|a: usize| #[trigger]
        t.contains_key(a) ==> page_aligned(a as int) && page_aligned(t[a].paddr as int)
            && t[a].paddr + 0x1000 <= usize::MAX
}

/// A page table: a root frame and the mappings of single 4K pages.
pub struct PageTable {
    /// The physical address of the root frame.
    pub root: usize,
    /// The mapping of each mapped page, by the page's virtual address.
    pub entries: HashMap<usize, PageEntry>,
}

impl View for PageTable {
    type V = Map<usize, PageEntry>;

    open spec fn view(&self) -> Map<usize, PageEntry> {
        self.entries@
    }
}

impl PageTable {
    /// The table's mappings are well formed.
    pub open spec fn wf(&self) -> bool {
        table_wf(self.entries@)
    }

    /// A table with no mapping, whose root is a frame taken from `frames`, or
    /// `NoMemory` where no frame is free.
    pub fn try_new(frames: &mut FrameAllocator) -> (r: Result<Self, PagingError>)
        requires
            old(frames).wf(),
        ensures
            final(frames).wf(),
            final(frames).base == old(frames).base,
            final(frames).used@.len() == old(frames).used@.len(),
            match first_fit(old(frames).used@, 1) {
                Some(s) => {
                    &&& r matches Ok(t)
                    &&& t.wf()
                    &&& t@ == Map::<usize, PageEntry>::empty()
                    &&& t.root == old(frames).base + s * 0x1000
                    &&& final(frames).used@ == mark_run(old(frames).used@, s, 1, true)
                },
                None => r == Err::<Self, PagingError>(PagingError::NoMemory) && final(frames).used@
                    == old(frames).used@,
            },
    {
        match frames.alloc_contiguous(1) {
            Some(root) => Ok(PageTable { root, entries: HashMap::new() }),
            None => Err(PagingError::NoMemory),
        }
    }

    /// The physical address of the root frame.
    pub fn root_paddr(&self) -> (r: usize)
        ensures
            r == self.root,
    {
        self.root
    }

    /// Whether none of the `n` pages from `vaddr` has a mapping.
    pub fn is_range_unmapped(&self, vaddr: usize, n: usize) -> (r: bool)
        requires
            page_aligned(vaddr as int),
            vaddr + n * 0x1000 <= usize::MAX,
        ensures
            r == range_unmapped(self@, vaddr as int, n as int),
    {
        let mut k: usize = 0;
        while k < n
            invariant
                k <= n,
                page_aligned(vaddr as int),
                vaddr + n * 0x1000 <= usize::MAX,
                range_unmapped(self.entries@, vaddr as int, k as int),
            decreases n - k,
        {
            let a = vaddr + k * PAGE_SIZE_4K;
            if self.entries.contains_key(&a) {
                assert(in_pages(a as int, vaddr as int, n as int));
                return false;
            }
            assert forall|b: usize| in_pages(b as int, vaddr as int, k + 1) implies !(
            #[trigger] self.entries@.contains_key(b)) by {
                if !in_pages(b as int, vaddr as int, k as int) {
                    assert(b == a);
                }
            }
            k += 1;
        }
        true
    }

    /// Whether each of the `n` pages from `vaddr` has a mapping.
    pub fn is_range_mapped(&self, vaddr: usize, n: usize) -> (r: bool)
        requires
            page_aligned(vaddr as int),
            vaddr + n * 0x1000 <= usize::MAX,
        ensures
            r == range_mapped(self@, vaddr as int, n as int),
    {
        let mut k: usize = 0;
        while k < n
            invariant
                k <= n,
                page_aligned(vaddr as int),
                vaddr + n * 0x1000 <= usize::MAX,
                range_mapped(self.entries@, vaddr as int, k as int),
            decreases n - k,
        {
            let a = vaddr + k * PAGE_SIZE_4K;
            if !self.entries.contains_key(&a) {
                assert(in_pages(a as int, vaddr as int, n as int));
                return false;
            }
            assert forall|b: usize| in_pages(b as int, vaddr as int, k + 1) implies (
            #[trigger] self.entries@.contains_key(b)) by {
                if !in_pages(b as int, vaddr as int, k as int) {
                    assert(b == a);
                }
            }
            k += 1;
        }
        true
    }

    /// Maps the pages of `[vaddr, vaddr + size)` to the frames of
    /// `[paddr, paddr + size)` with the rights `flags`. Nothing changes where
    /// the call is refused: with `NotAligned` where an argument is not a
    /// multiple of the page size, else with `AlreadyMapped` where a page of
    /// the range has a mapping.
    pub fn map_region(
        &mut self,
        vaddr: usize,
        paddr: usize,
        size: usize,
        flags: MappingFlags,
    ) -> (r: Result<(), PagingError>)
        requires
            old(self).wf(),
            vaddr + size <= usize::MAX,
            paddr + size <= usize::MAX,
        ensures
            final(self).wf(),
            final(self).root == old(self).root,
            r == map_region_outcome(old(self)@, vaddr, paddr, size),
            r.is_ok() ==> final(self)@ == map_range(
                old(self)@,
                vaddr as int,
                paddr as int,
                size as int / 0x1000,
                flags,
            ),
            r.is_err() ==> final(self)@ == old(self)@,
    {
        if !memory_addr::is_aligned_4k(vaddr) || !memory_addr::is_aligned_4k(paddr)
            || !memory_addr::is_aligned_4k(size) {
            return Err(PagingError::NotAligned);
        }
        let n = size / PAGE_SIZE_4K;
        assert(n * 0x1000 == size);
        if !self.is_range_unmapped(vaddr, n) {
            return Err(PagingError::AlreadyMapped);
        }
        let mut k: usize = 0;
        while k < n
            invariant
                k <= n,
                n * 0x1000 == size,
                page_aligned(vaddr as int),
                page_aligned(paddr as int),
                vaddr + size <= usize::MAX,
                paddr + size <= usize::MAX,
                self.root == old(self).root,
                table_wf(old(self).entries@),
                self.entries@ == map_range(
                    old(self).entries@,
                    vaddr as int,
                    paddr as int,
                    k as int,
                    flags,
                ),
            decreases n - k,
        {
            let a = vaddr + k * PAGE_SIZE_4K;
            let p = paddr + k * PAGE_SIZE_4K;
            self.entries.insert(a, PageEntry { paddr: p, flags });
            k += 1;
            assert(self.entries@ =~= map_range(
                old(self).entries@,
                vaddr as int,
                paddr as int,
                k as int,
                flags,
            )) by {
                assert forall|b: usize| in_pages(b as int, vaddr as int, k as int) implies (b == a
                    || in_pages(b as int, vaddr as int, k - 1)) by {}
            }
        }
        assert(table_wf(self.entries@)) by {
            assert forall|a: usize| #[trigger] self.entries@.contains_key(a) implies page_aligned(
                a as int,
            ) && page_aligned(self.entries@[a].paddr as int) && self.entries@[a].paddr + 0x1000
                <= usize::MAX by {
                if in_pages(a as int, vaddr as int, n as int) {
                } else {
                    assert(old(self).entries@.contains_key(a));
                }
            }
        }
        Ok(())
    }

    /// Removes the mappings of the pages of `[vaddr, vaddr + size)`. Nothing
    /// changes where the call is refused: with `NotAligned` where an argument
    /// is not a multiple of the page size, else with `NotMapped` where a page
    /// of the range has no mapping.
    pub fn unmap_region(&mut self, vaddr: usize, size: usize) -> (r: Result<(), PagingError>)
        requires
            old(self).wf(),
            vaddr + size <= usize::MAX,
        ensures
            final(self).wf(),
            final(self).root == old(self).root,
            r == unmap_region_outcome(old(self)@, vaddr, size),
            r.is_ok() ==> final(self)@ == unmap_range(
                old(self)@,
                vaddr as int,
                size as int / 0x1000,
            ),
            r.is_err() ==> final(self)@ == old(self)@,
    {
        if !memory_addr::is_aligned_4k(vaddr) || !memory_addr::is_aligned_4k(size) {
            return Err(PagingError::NotAligned);
        }
        let n = size / PAGE_SIZE_4K;
        assert(n * 0x1000 == size);
        if !self.is_range_mapped(vaddr, n) {
            return Err(PagingError::NotMapped);
        }
        let mut k: usize = 0;
        while k < n
            invariant
                k <= n,
                n * 0x1000 == size,
                page_aligned(vaddr as int),
                vaddr + size <= usize::MAX,
                self.root == old(self).root,
                self.entries@ == unmap_range(old(self).entries@, vaddr as int, k as int),
            decreases n - k,
        {
            let a = vaddr + k * PAGE_SIZE_4K;
            self.entries.remove(&a);
            k += 1;
            assert(self.entries@ =~= unmap_range(old(self).entries@, vaddr as int, k as int)) by {
                assert forall|b: usize| in_pages(b as int, vaddr as int, k as int) implies (b == a
                    || in_pages(b as int, vaddr as int, k - 1)) by {}
            }
        }
        Ok(())
    }

    /// Looks `vaddr` up: the physical address of that byte, the rights of
    /// its page and the page's size, or `NotMapped`.
    pub fn query(&self, vaddr: usize) -> (r: Result<(usize, MappingFlags, PageSize), PagingError>)
        requires
            self.wf(),
        ensures
            r == query_in(self@, vaddr),
    {
        let page = memory_addr::align_down_4k(vaddr);
        match self.entries.get(&page) {
            Some(e) => Ok((e.paddr + (vaddr - page), e.flags, PageSize::Size4K)),
            None => Err(PagingError::NotMapped),
        }
    }

    /// A table with a root of its own, taken from `frames`, and the same
    /// mappings as `self`; or `NoMemory` where no frame is free.
    pub fn duplicate(&self, frames: &mut FrameAllocator) -> (r: Result<Self, PagingError>)
        requires
            self.wf(),
            old(frames).wf(),
        ensures
            final(frames).wf(),
            final(frames).base == old(frames).base,
            final(frames).used@.len() == old(frames).used@.len(),
            match first_fit(old(frames).used@, 1) {
                Some(s) => {
                    &&& r matches Ok(t)
                    &&& t.wf()
                    &&& t@ == self@
                    &&& t.root == old(frames).base + s * 0x1000
                    &&& final(frames).used@ == mark_run(old(frames).used@, s, 1, true)
                },
                None => r == Err::<Self, PagingError>(PagingError::NoMemory) && final(frames).used@
                    == old(frames).used@,
            },
    {
        match frames.alloc_contiguous(1) {
            Some(root) => Ok(PageTable { root, entries: self.entries.clone() }),
            None => Err(PagingError::NoMemory),
        }
    }

    /// Removes whatever mappings the `n` pages from `vaddr` have.
    pub fn unmap_pages(&mut self, vaddr: usize, n: usize)
        requires
            old(self).wf(),
            page_aligned(vaddr as int),
            vaddr + n * 0x1000 <= usize::MAX,
        ensures
            final(self).wf(),
            final(self).root == old(self).root,
            final(self)@ == unmap_range(old(self)@, vaddr as int, n as int),
    {
        let mut k: usize = 0;
        while k < n
            invariant
                k <= n,
                page_aligned(vaddr as int),
                vaddr + n * 0x1000 <= usize::MAX,
                self.root == old(self).root,
                self.entries@ == unmap_range(old(self).entries@, vaddr as int, k as int),
            decreases n - k,
        {
            let a = vaddr + k * PAGE_SIZE_4K;
            self.entries.remove(&a);
            k += 1;
            assert(self.entries@ =~= unmap_range(old(self).entries@, vaddr as int, k as int)) by {
                assert forall|b: usize| in_pages(b as int, vaddr as int, k as int) implies (b == a
                    || in_pages(b as int, vaddr as int, k - 1)) by {}
            }
        }
    }
}

/// Whether `map_region` accepts the call, and the error where it does not.
pub open spec fn map_region_outcome(
    t: Map<usize, PageEntry>,
    vaddr: usize,
    paddr: usize,
    size: usize,
) -> Result<(), PagingError> {
    if !page_aligned(vaddr as int) || !page_aligned(paddr as int) || !page_aligned(size as int) {
        Err(PagingError::NotAligned)
    } else if !range_unmapped(t, vaddr as int, size as int / 0x1000) {
        Err(PagingError::AlreadyMapped)
    } else {
        Ok(())
    }
}

/// Whether `unmap_region` accepts the call, and the error where it does not.
pub open spec fn unmap_region_outcome(t: Map<usize, PageEntry>, vaddr: usize, size: usize) -> Result<
    (),
    PagingError,
> {
    if !page_aligned(vaddr as int) || !page_aligned(size as int) {
        Err(PagingError::NotAligned)
    } else if !range_mapped(t, vaddr as int, size as int / 0x1000) {
        Err(PagingError::NotMapped)
    } else {
        Ok(())
    }
}

} // verus!
