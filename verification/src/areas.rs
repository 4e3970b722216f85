//! A mapped region of an address space: a page-aligned virtual range, the
//! frames behind it and its access rights.

use vstd::prelude::*;
use crate::addr::page_aligned;
use crate::flags::MappingFlags;
use crate::frames::GlobalPage;

verus! {

/// What a region is, as plain values.
pub struct AreaView {
    /// The virtual address of the first byte.
    pub start_va: usize,
    /// The physical address of the first frame.
    pub start_paddr: usize,
    /// The bytes that the frames hold.
    pub data: Seq<u8>,
    /// The access rights.
    pub flags: MappingFlags,
}

impl AreaView {
    /// The region starts on page boundaries, virtual and physical, is a whole
    /// number of pages long and ends within the address space on both sides.
    pub open spec fn wf(self) -> bool {
        &&& page_aligned(self.start_va as int)
        &&& page_aligned(self.start_paddr as int)
        &&& page_aligned(self.data.len() as int)
        &&& self.start_va + self.data.len() <= usize::MAX
        &&& self.start_paddr + self.data.len() <= usize::MAX
    }

    /// The number of pages in the region.
    pub open spec fn num_pages(self) -> int {
        self.data.len() as int / 0x1000
    }

    /// The virtual address just past the last byte.
    pub open spec fn end_va(self) -> int {
        self.start_va + self.data.len()
    }

    /// Whether the virtual address `va` lies in the region.
    pub open spec fn covers(self, va: int) -> bool {
        self.start_va <= va < self.end_va()
    }

    /// Whether the physical address `pa` lies in the region's frames.
    pub open spec fn backs(self, pa: int) -> bool {
        self.start_paddr <= pa < self.start_paddr + self.data.len()
    }

    /// Whether the two regions have no frame in common.
    pub open spec fn apart(self, other: AreaView) -> bool {
        ||| self.data.len() == 0
        ||| other.data.len() == 0
        ||| self.start_paddr + self.data.len() <= other.start_paddr
        ||| other.start_paddr + other.data.len() <= self.start_paddr
    }
}

/// A region of an address space.
pub struct MapArea {
    /// The virtual address of the first byte.
    pub start_va: usize,
    /// The frames behind the region.
    pub pages: GlobalPage,
    /// The access rights.
    pub flags: MappingFlags,
}

impl View for MapArea {
    type V = AreaView;

    open spec fn view(&self) -> AreaView {
        AreaView {
            start_va: self.start_va,
            start_paddr: self.pages.start_paddr,
            data: self.pages.data@,
            flags: self.flags,
        }
    }
}

impl MapArea {
    /// The region over `pages` at `start_va` with the rights `flags`.
    pub fn new(pages: GlobalPage, flags: MappingFlags, start_va: usize) -> (r: Self)
        ensures
            r.start_va == start_va,
            r.pages == pages,
            r.flags == flags,
    {
        MapArea { start_va, pages, flags }
    }

    /// The length of the region in bytes.
    pub fn size(&self) -> (n: usize)
        ensures
            n == self@.data.len(),
    {
        self.pages.size()
    }

    /// Whether the region and the range from `start_va` to `end_va` meet,
    /// where two ranges that share only an end point count as meeting.
    pub fn overlap_with(&self, start_va: usize, end_va: usize) -> (r: bool)
        requires
            self@.wf(),
        ensures
            r == (self.start_va <= end_va && self@.end_va() >= start_va),
    {
        self.start_va <= end_va && self.start_va + self.pages.size() >= start_va
    }
}

} // verus!
