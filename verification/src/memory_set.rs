//! An address space: a page table and the regions mapped through it.

use vstd::prelude::*;
use vstd::slice::slice_subrange;
use crate::addr::{lemma_page_ceil, lemma_page_floor, num_pages, page_aligned, PAGE_SIZE_4K};
use crate::areas::{AreaView, MapArea};
use crate::elf::{parse_elf, ElfInfo};
use crate::flags::MappingFlags;
use crate::frames::{
    first_fit, frame_index, lemma_first_fit_is_lowest, mark_run, overlay, within_run,
    FrameAllocator, GlobalPage,
};
use crate::mem_state::{
    area_of, areas_within, carve_area, carve_spec, carve_step, carve_upto, fits, fork_of,
    from_elf_spec, heap_bottom_of, layout_fits, lemma_carve_parts, lemma_map_from_undone,
    lemma_map_from_within, lemma_release_from, lemma_release_prefix, load_requests, load_spec, map_from, map_one,
    max_end, release_from, request, requests_of, slice_of, stack_bottom_of, translate_in,
    unmap_from, MemState,
};
use crate::page_table::{PageEntry, PageSize, PageTable};

verus! {

/// The size of a user stack, in bytes.
pub const USER_STACK_SIZE: usize = 4096;

/// The size of a user heap, in bytes.
pub const MAX_HEAP_SIZE: usize = 4096;

/// Why an operation on an address space failed.
#[derive(Clone, Copy, Debug, PartialEq, Eq, Structural)]
pub enum MemoryError {
    /// The executable's header is malformed.
    InvalidExecutable,
    /// No run of free frames is long enough.
    OutOfMemory,
    /// The page table refuses the mapping.
    MappingConflict,
    /// No mapping covers the address.
    Unmapped,
    /// A user pointer leads to no mapped memory.
    BadAddress,
}

/// The views of the regions of `areas`, in order.
pub open spec fn views_of(areas: Seq<MapArea>) -> Seq<AreaView> {
    Seq::new(areas.len(), |i: int| areas[i]@)
}

/// An address space.
pub struct MemorySet {
    /// The page table.
    pub page_table: PageTable,
    /// The regions, in the order in which they were mapped.
    pub areas: Vec<MapArea>,
}

impl MemorySet {
    /// The page table and every region are well formed.
    pub open spec fn wf(&self) -> bool {
        &&& self.page_table.wf()
        &&& forall|i: int| 0 <= i < self.areas@.len() ==> (#[trigger] self.areas@[i])@.wf()
    }

    /// The address space and `frames` as plain values.
    pub open spec fn state(&self, frames: &FrameAllocator) -> MemState {
        MemState {
            table: self.page_table.entries@,
            areas: views_of(self.areas@),
            base: frames.base,
            used: frames.used@,
        }
    }

    /// An address space with no mapping and no region, whose page table has
    /// a root taken from `frames`; `OutOfMemory` where no frame is free.
    pub fn new_empty(frames: &mut FrameAllocator) -> (r: Result<Self, MemoryError>)
        requires
            old(frames).wf(),
        ensures
            final(frames).wf(),
            final(frames).base == old(frames).base,
            final(frames).used@.len() == old(frames).used@.len(),
            match first_fit(old(frames).used@, 1) {
                Some(s) => {
                    &&& r matches Ok(m)
                    &&& m.wf()
                    &&& m.page_table@ == Map::<usize, PageEntry>::empty()
                    &&& m.areas@.len() == 0
                    &&& m.page_table.root == old(frames).base + s * 0x1000
                    &&& final(frames).used@ == mark_run(old(frames).used@, s, 1, true)
                },
                None => {
                    &&& r == Err::<Self, MemoryError>(MemoryError::OutOfMemory)
                    &&& final(frames).used@ == old(frames).used@
                },
            },
    {
        match PageTable::try_new(frames) {
            Ok(page_table) => Ok(MemorySet { page_table, areas: Vec::new() }),
            Err(_) => Err(MemoryError::OutOfMemory),
        }
    }

    /// An address space with the mappings of `kernel` and no region, whose
    /// page table has a root of its own, taken from `frames`; `OutOfMemory`
    /// where no frame is free.
    pub fn new_from_kernel(kernel: &PageTable, frames: &mut FrameAllocator) -> (r: Result<
        Self,
        MemoryError,
    >)
        requires
            kernel.wf(),
            old(frames).wf(),
        ensures
            final(frames).wf(),
            final(frames).base == old(frames).base,
            final(frames).used@.len() == old(frames).used@.len(),
            match first_fit(old(frames).used@, 1) {
                Some(s) => {
                    &&& r matches Ok(m)
                    &&& m.wf()
                    &&& m.page_table@ == kernel@
                    &&& m.areas@.len() == 0
                    &&& m.page_table.root == old(frames).base + s * 0x1000
                    &&& final(frames).used@ == mark_run(old(frames).used@, s, 1, true)
                },
                None => {
                    &&& r == Err::<Self, MemoryError>(MemoryError::OutOfMemory)
                    &&& final(frames).used@ == old(frames).used@
                },
            },
    {
        match kernel.duplicate(frames) {
            Ok(page_table) => Ok(MemorySet { page_table, areas: Vec::new() }),
            Err(_) => Err(MemoryError::OutOfMemory),
        }
    }

    /// The value that names this address space to the hardware: the physical
    /// address of the page table's root.
    pub fn page_table_token(&self) -> (r: usize)
        ensures
            r == self.page_table.root,
    {
        self.page_table.root_paddr()
    }

    /// Maps a new region: takes the frames for `size` bytes, rounded up to
    /// whole pages, from `frames`, zeroes them, copies `data` to their start
    /// as far as it reaches and at most `size` bytes of it, maps them from
    /// the page boundary at or below `start_va` with the rights `map_perm`,
    /// and adds the region last. Returns the region's index.
    pub fn map_region_4k(
        &mut self,
        frames: &mut FrameAllocator,
        start_va: usize,
        size: usize,
        map_perm: MappingFlags,
        data: Option<&[u8]>,
    ) -> (r: Result<usize, MemoryError>)
        requires
            old(self).wf(),
            old(frames).wf(),
        ensures
            final(self).wf(),
            final(frames).wf(),
            final(self).page_table.root == old(self).page_table.root,
            final(self).state(final(frames)) == map_one(
                old(self).state(old(frames)),
                request(start_va, size, map_perm, data),
            ).1,
            match r {
                Ok(i) => i == old(self).areas@.len() && map_one(
                    old(self).state(old(frames)),
                    request(start_va, size, map_perm, data),
                ).0.is_ok(),
                Err(e) => map_one(
                    old(self).state(old(frames)),
                    request(start_va, size, map_perm, data),
                ).0 == Err::<(), MemoryError>(e),
            },
    {
        let ghost st = self.state(frames);
        let ghost req = request(start_va, size, map_perm, data);
        if size > usize::MAX - 0xfff {
            return Err(MemoryError::MappingConflict);
        }
        let vbase = memory_addr::align_down_4k(start_va);
        let n = num_pages(size);
        if n > (usize::MAX - vbase) / PAGE_SIZE_4K {
            assert(vbase + n * 0x1000 > usize::MAX) by (nonlinear_arith)
                requires
                    n > (usize::MAX - vbase) / 0x1000,
            ;
            return Err(MemoryError::MappingConflict);
        }
        assert(vbase + n * 0x1000 <= usize::MAX) by (nonlinear_arith)
            requires
                n <= (usize::MAX - vbase) / 0x1000,
        ;
        if !self.page_table.is_range_unmapped(vbase, n) {
            return Err(MemoryError::MappingConflict);
        }
        assert(fits(st, req));
        let mut pages = match GlobalPage::alloc_contiguous(frames, n) {
            Some(p) => p,
            None => {
                return Err(MemoryError::OutOfMemory);
            },
        };
        if let Some(x) = data {
            pages.fill(x, size);
        } else {
            assert(pages.data@ =~= overlay(pages.data@, Seq::<u8>::empty(), size as int));
        }
        let paddr = pages.start_paddr();
        let len = pages.size();
        assert(len == n * 0x1000);
        let mapped = self.page_table.map_region(vbase, paddr, len, map_perm);
        assert(mapped.is_ok());
        let area = MapArea::new(pages, map_perm, vbase);
        assert(area@ == area_of(req, paddr));
        let index = self.areas.len();
        self.areas.push(area);
        proof {
            assert(views_of(self.areas@) =~= views_of(old(self).areas@).push(area@));
            assert(self.state(frames).areas == map_one(st, req).1.areas);
            assert(len as int / 0x1000 == n);
        }
        Ok(index)
    }

    /// The physical address that the byte at `vaddr` lies at, with the
    /// rights and the size of its page; `Unmapped` where no mapping covers
    /// the address.
    pub fn translate(&self, vaddr: usize) -> (r: Result<
        (usize, MappingFlags, PageSize),
        MemoryError,
    >)
        requires
            self.wf(),
        ensures
            r == translate_in(self.page_table@, vaddr),
    {
        match self.page_table.query(vaddr) {
            Ok(found) => Ok(found),
            Err(_) => Err(MemoryError::Unmapped),
        }
    }

    /// The physical address that the byte at `vaddr` lies at, if a mapping
    /// covers the address.
    pub fn translate_va(&self, vaddr: usize) -> (r: Option<usize>)
        requires
            self.wf(),
        ensures
            r == match translate_in(self.page_table@, vaddr) {
                Ok(found) => Some(found.0),
                Err(_) => None,
            },
    {
        match self.page_table.query(vaddr) {
            Ok(found) => Some(found.0),
            Err(_) => None,
        }
    }

    /// A copy of `others` on frames of its own: an address space with the
    /// mappings of `kernel` and, for each region of `others` in order, a
    /// region of the same range and rights that holds the same bytes. A
    /// failure gives every frame back that was taken.
    pub fn new_from_task(others: &Self, kernel: &PageTable, frames: &mut FrameAllocator) -> (r:
        Result<Self, MemoryError>)
        requires
            others.wf(),
            kernel.wf(),
            old(frames).wf(),
        ensures
            final(frames).wf(),
            final(frames).base == old(frames).base,
            match r {
                Ok(m) => {
                    &&& m.wf()
                    &&& final(frames).used@ == fork_of(
                        kernel@,
                        views_of(others.areas@),
                        old(frames).base,
                        old(frames).used@,
                    ).1.used
                    &&& fork_of(
                        kernel@,
                        views_of(others.areas@),
                        old(frames).base,
                        old(frames).used@,
                    ).0.is_ok()
                    &&& m.state(final(frames)) == fork_of(
                        kernel@,
                        views_of(others.areas@),
                        old(frames).base,
                        old(frames).used@,
                    ).1
                    &&& m.page_table.root == old(frames).base + first_fit(
                        old(frames).used@,
                        1,
                    ).unwrap() * 0x1000
                },
                Err(e) => {
                    &&& fork_of(
                        kernel@,
                        views_of(others.areas@),
                        old(frames).base,
                        old(frames).used@,
                    ).0 == Err::<(), MemoryError>(e)
                    &&& final(frames).used@ == old(frames).used@
                },
            },
    {
        let mut new_set = match Self::new_from_kernel(kernel, frames) {
            Ok(m) => m,
            Err(e) => {
                return Err(e);
            },
        };
        let ghost st0 = new_set.state(frames);
        let ghost reqs = requests_of(views_of(others.areas@));
        assert(st0.areas =~= Seq::<AreaView>::empty());
        assert(st0 == MemState {
            table: kernel@,
            areas: Seq::<AreaView>::empty(),
            base: old(frames).base,
            used: mark_run(
                old(frames).used@,
                first_fit(old(frames).used@, 1).unwrap(),
                1,
                true,
            ),
        });
        let ghost root = new_set.page_table.root;
        let ghost goal = fork_of(
            kernel@,
            views_of(others.areas@),
            old(frames).base,
            old(frames).used@,
        );
        assert(goal == map_from(st0, reqs, 0));
        let count = others.areas.len();
        let mut k: usize = 0;
        while k < count
            invariant
                k <= count,
                count == others.areas@.len(),
                others.wf(),
                new_set.wf(),
                frames.wf(),
                frames.base == old(frames).base,
                new_set.page_table.root == root,
                reqs == requests_of(views_of(others.areas@)),
                map_from(new_set.state(frames), reqs, k as int) == goal,
                goal == fork_of(
                    kernel@,
                    views_of(others.areas@),
                    old(frames).base,
                    old(frames).used@,
                ),
                root == old(frames).base + first_fit(old(frames).used@, 1).unwrap() * 0x1000,
                first_fit(old(frames).used@, 1).is_some(),
                goal == map_from(st0, reqs, 0),
                frames.used@.len() == old(frames).used@.len(),
                st0.base == old(frames).base,
                st0.areas.len() == 0,
                st0.used == mark_run(
                    old(frames).used@,
                    first_fit(old(frames).used@, 1).unwrap(),
                    1,
                    true,
                ),
                old(frames).wf(),
                areas_within(new_set.state(frames)),
            decreases count - k,
        {
            let area = &others.areas[k];
            let ghost before = new_set.state(frames);
            assert(area@.wf());
            let bytes = area.pages.as_slice();
            let size = area.size();
            assert(request(area.start_va, size, area.flags, Some(bytes)) == reqs[k as int]);
            assert(map_from(before, reqs, k as int) == if map_one(before, reqs[k as int]).0.is_err() {
                map_one(before, reqs[k as int])
            } else {
                map_from(map_one(before, reqs[k as int]).1, reqs, k + 1)
            });
            let mapped = new_set.map_region_4k(frames, area.start_va, size, area.flags, Some(bytes));
            proof {
                lemma_map_from_within(before, reqs, k as int);
                lemma_map_from_within(before, seq![reqs[k as int]], 0);
                assert(map_from(before, seq![reqs[k as int]], 0).1 == map_one(
                    before,
                    reqs[k as int],
                ).1) by {
                    let step = map_one(before, reqs[k as int]);
                    assert(map_from(step.1, seq![reqs[k as int]], 1) == (
                        Ok::<(), MemoryError>(()),
                        step.1,
                    ));
                }
            }
            if let Err(e) = mapped {
                proof {
                    let f = first_fit(old(frames).used@, 1).unwrap();
                    lemma_first_fit_is_lowest(old(frames).used@, 1);
                    lemma_map_from_undone(st0, reqs, 0);
                    lemma_release_prefix(
                        st0.base,
                        st0.used,
                        st0.areas,
                        Seq::<AreaView>::empty(),
                        0,
                    );
                    assert(frame_index(old(frames).base, root as int) == f);
                }
                let root_paddr = new_set.page_table.root_paddr();
                let ghost partial = new_set.state(frames);
                new_set.release_areas(frames);
                proof {
                    let f = first_fit(old(frames).used@, 1).unwrap();
                    assert(partial == goal.1);
                    lemma_release_from(
                        partial.base,
                        partial.used,
                        partial.areas,
                        partial.areas.len() as int,
                    );
                    assert(frames.used@ == st0.used);
                    assert(0 <= f < old(frames).used@.len());
                    assert(root_paddr == old(frames).base + f * 0x1000);
                }
                frames.dealloc(root_paddr, 1);
                proof {
                    assert(frames.used@ =~= old(frames).used@);
                }
                return Err(e);
            }
            k += 1;
        }
        Ok(new_set)
    }

    /// Removes the page-table mappings of every region. The regions stay in
    /// the list and keep their frames.
    pub fn unmap_user_areas(&mut self)
        requires
            old(self).wf(),
        ensures
            final(self).wf(),
            final(self).areas == old(self).areas,
            final(self).page_table.root == old(self).page_table.root,
            final(self).page_table@ == unmap_from(
                old(self).page_table@,
                views_of(old(self).areas@),
                0,
            ),
    {
        let ghost views = views_of(self.areas@);
        let count = self.areas.len();
        let mut k: usize = 0;
        while k < count
            invariant
                k <= count,
                count == self.areas@.len(),
                self.wf(),
                self.areas == old(self).areas,
                views == views_of(self.areas@),
                self.page_table.root == old(self).page_table.root,
                unmap_from(self.page_table.entries@, views, k as int) == unmap_from(
                    old(self).page_table.entries@,
                    views,
                    0,
                ),
            decreases count - k,
        {
            let start_va = self.areas[k].start_va;
            let n = self.areas[k].pages.size() / PAGE_SIZE_4K;
            assert(self.areas@[k as int]@.wf());
            self.page_table.unmap_pages(start_va, n);
            k += 1;
        }
    }

    /// Gives the frames of every region back to `frames` and empties the
    /// list of regions. The page table is not touched.
    pub fn release_areas(&mut self, frames: &mut FrameAllocator)
        requires
            old(self).wf(),
            old(frames).wf(),
            areas_within(old(self).state(old(frames))),
        ensures
            final(self).wf(),
            final(frames).wf(),
            final(self).areas@.len() == 0,
            final(self).page_table == old(self).page_table,
            final(frames).base == old(frames).base,
            final(frames).used@ == release_from(
                old(frames).base,
                old(frames).used@,
                views_of(old(self).areas@),
                old(self).areas@.len() as int,
            ),
    {
        let ghost views = views_of(self.areas@);
        let ghost total = frames.used@.len();
        while self.areas.len() > 0
            invariant
                self.wf(),
                frames.wf(),
                frames.base == old(frames).base,
                frames.used@.len() == total,
                total == old(frames).used@.len(),
                views == views_of(old(self).areas@),
                areas_within(old(self).state(old(frames))),
                self.page_table == old(self).page_table,
                self.areas@.len() <= old(self).areas@.len(),
                forall|i: int|
                    0 <= i < self.areas@.len() ==> (#[trigger] self.areas@[i])@ == views[i],
                release_from(frames.base, frames.used@, views, self.areas@.len() as int)
                    == release_from(
                    frames.base,
                    old(frames).used@,
                    views,
                    old(self).areas@.len() as int,
                ),
            decreases self.areas@.len(),
        {
            let ghost k = self.areas@.len() as int;
            let area = self.areas.pop().unwrap();
            assert(area@ == views[k - 1]);
            assert(old(self).state(old(frames)).areas[k - 1] == views[k - 1]);
            area.pages.release(frames);
        }
    }

    /// Where the heap and the stack of an executable start: the heap one
    /// page above the page boundary at or above the end of the highest
    /// segment, the stack one heap's size and one page above the end of
    /// the heap; `None` where they would end beyond the address space.
    pub fn layout_of(info: &ElfInfo) -> (r: Option<(usize, usize)>)
        requires
            forall|i: int|
                0 <= i < info.segments@.len() ==> (#[trigger] info.segments@[i]).start_va
                    + info.segments@[i].mem_size <= usize::MAX,
        ensures
            r.is_some() <==> layout_fits(info.segments@),
            r matches Some(at) ==> at.0 == heap_bottom_of(info.segments@) && at.1
                == stack_bottom_of(info.segments@),
    {
        let ghost segs = info.segments@;
        let count = info.segments.len();
        let mut max_end_va: usize = 0;
        let mut i: usize = 0;
        while i < count
            invariant
                i <= count,
                count == info.segments@.len(),
                segs == info.segments@,
                forall|i: int|
                    0 <= i < segs.len() ==> (#[trigger] segs[i]).start_va + segs[i].mem_size
                        <= usize::MAX,
                max_end_va == max_end(segs, i as int),
            decreases count - i,
        {
            let seg = &info.segments[i];
            assert(segs[i as int].start_va + segs[i as int].mem_size <= usize::MAX);
            let end = seg.start_va + seg.mem_size;
            if end > max_end_va {
                max_end_va = end;
            }
            i += 1;
        }
        if max_end_va > usize::MAX - 0xfff {
            proof {
                lemma_page_ceil(max_end_va as int);
            }
            return None;
        }
        let top = memory_addr::align_up_4k(max_end_va);
        if top > usize::MAX - 0x5000 {
            return None;
        }
        let heap_bottom = top + PAGE_SIZE_4K;
        let heap_top = heap_bottom + MAX_HEAP_SIZE;
        let user_stack_bottom = heap_top + MAX_HEAP_SIZE + PAGE_SIZE_4K;
        Some((heap_bottom, user_stack_bottom))
    }

    /// Maps the segments of an executable that was read from `image`, then
    /// a heap one page above the highest of them and a stack above the
    /// heap, and returns the entry point, the bottom of the stack and the
    /// bottom of the heap. A failure leaves what was mapped before it.
    pub fn load_segments(
        &mut self,
        frames: &mut FrameAllocator,
        image: &[u8],
        info: &ElfInfo,
    ) -> (r: Result<(usize, usize, usize), MemoryError>)
        requires
            old(self).wf(),
            old(frames).wf(),
            info.wf_for(image@.len() as int),
        ensures
            final(self).wf(),
            final(frames).wf(),
            final(self).page_table.root == old(self).page_table.root,
            r == load_spec(old(self).state(old(frames)), image@, info.entry, info.segments@).0,
            final(self).state(final(frames)) == load_spec(
                old(self).state(old(frames)),
                image@,
                info.entry,
                info.segments@,
            ).1,
    {
        let ghost st0 = self.state(frames);
        let ghost segs = info.segments@;
        let ghost reqs = load_requests(image@, segs);
        let count = info.segments.len();
        let (heap_bottom, user_stack_bottom) = match Self::layout_of(info) {
            Some(at) => at,
            None => {
                return Err(MemoryError::InvalidExecutable);
            },
        };
        let image_len = image.len();
        let mut k: usize = 0;
        while k < count
            invariant
                k <= count,
                image_len == image@.len(),
                layout_fits(segs),
                st0 == old(self).state(old(frames)),
                count == info.segments@.len(),
                segs == info.segments@,
                reqs == load_requests(image@, segs),
                info.wf_for(image@.len() as int),
                self.wf(),
                frames.wf(),
                self.page_table.root == old(self).page_table.root,
                map_from(self.state(frames), reqs, k as int) == map_from(st0, reqs, 0),
            decreases count - k,
        {
            let seg = &info.segments[k];
            assert(info.segments@[k as int].wf_for(image@.len() as int));
            let bytes = slice_subrange(image, seg.offset, seg.offset + seg.file_size);
            let ghost before = self.state(frames);
            assert(request(seg.start_va, seg.mem_size, seg.flags, Some(bytes)) == reqs[k as int]);
            assert(map_from(before, reqs, k as int) == if map_one(before, reqs[k as int]).0.is_err() {
                map_one(before, reqs[k as int])
            } else {
                map_from(map_one(before, reqs[k as int]).1, reqs, k + 1)
            });
            let mapped = self.map_region_4k(frames, seg.start_va, seg.mem_size, seg.flags, Some(bytes));
            if let Err(e) = mapped {
                return Err(e);
            }
            k += 1;
        }
        let map_perm = MappingFlags::user_data();
        let ghost before = self.state(frames);
        assert(request(heap_bottom, MAX_HEAP_SIZE, map_perm, None) == reqs[count as int]);
        assert(map_from(before, reqs, count as int) == if map_one(
            before,
            reqs[count as int],
        ).0.is_err() {
            map_one(before, reqs[count as int])
        } else {
            map_from(map_one(before, reqs[count as int]).1, reqs, count + 1)
        });
        let mapped = self.map_region_4k(frames, heap_bottom, MAX_HEAP_SIZE, map_perm, None);
        if let Err(e) = mapped {
            return Err(e);
        }
        let ghost before = self.state(frames);
        assert(request(user_stack_bottom, USER_STACK_SIZE, map_perm, None) == reqs[count + 1]);
        assert(map_from(before, reqs, count + 1) == if map_one(before, reqs[count + 1]).0.is_err() {
            map_one(before, reqs[count + 1])
        } else {
            map_from(map_one(before, reqs[count + 1]).1, reqs, count + 2)
        });
        let mapped = self.map_region_4k(frames, user_stack_bottom, USER_STACK_SIZE, map_perm, None);
        if let Err(e) = mapped {
            return Err(e);
        }
        assert(map_from(self.state(frames), reqs, count + 2) == (
            Ok::<(), MemoryError>(()),
            self.state(frames),
        ));
        Ok((info.entry, user_stack_bottom, heap_bottom))
    }

    /// Loads the executable `elf_data` into `memory_set`: reads its
    /// header, maps each loadable segment with the rights that its flags
    /// grant and the segment's bytes of the image, then a heap and a stack
    /// above them. Returns the entry point, the bottom of the stack and the
    /// bottom of the heap.
    pub fn from_elf(memory_set: &mut MemorySet, frames: &mut FrameAllocator, elf_data: &[u8]) -> (r:
        Result<(usize, usize, usize), MemoryError>)
        requires
            old(memory_set).wf(),
            old(frames).wf(),
        ensures
            final(memory_set).wf(),
            final(frames).wf(),
            final(memory_set).page_table.root == old(memory_set).page_table.root,
            r == from_elf_spec(old(memory_set).state(old(frames)), elf_data@).0,
            final(memory_set).state(final(frames)) == from_elf_spec(
                old(memory_set).state(old(frames)),
                elf_data@,
            ).1,
    {
        match parse_elf(elf_data) {
            Err(e) => Err(e),
            Ok(info) => memory_set.load_segments(frames, elf_data, &info),
        }
    }

    /// Carves the range of `size` bytes from `start_va`, rounded out to page
    /// boundaries, out of every region, so that it can be mapped anew with
    /// the rights `map_perm`. A region inside the range goes; one that
    /// reaches into it from below or from above is cut back to the range's
    /// edge; one that the range lies strictly inside is split in two. What
    /// stays keeps its rights, frames and bytes; the pages carved out lose
    /// their mappings, and their frames go back to `frames`.
    pub fn split_for_area(
        &mut self,
        frames: &mut FrameAllocator,
        start_va: usize,
        size: usize,
        map_perm: MappingFlags,
    ) -> (r: Result<(), MemoryError>)
        requires
            old(self).wf(),
            old(frames).wf(),
            areas_within(old(self).state(old(frames))),
        ensures
            final(self).wf(),
            final(frames).wf(),
            final(self).page_table.root == old(self).page_table.root,
            areas_within(final(self).state(final(frames))),
            r == carve_spec(old(self).state(old(frames)), start_va, size).0,
            final(self).state(final(frames)) == carve_spec(
                old(self).state(old(frames)),
                start_va,
                size,
            ).1,
    {
        let ghost st0 = self.state(frames);
        if size > usize::MAX - 0xfff || start_va > usize::MAX - 0xfff - size {
            return Err(MemoryError::BadAddress);
        }
        let cs = memory_addr::align_down_4k(start_va);
        let ce = memory_addr::align_up_4k(start_va + size);
        proof {
            lemma_page_floor(start_va as int);
            lemma_page_ceil(start_va + size);
        }
        let mut pending: Vec<MapArea> = Vec::new();
        core::mem::swap(&mut self.areas, &mut pending);
        let ghost orig = pending@;
        let count = pending.len();
        let mut k: usize = 0;
        assert(views_of(self.areas@) =~= Seq::<AreaView>::empty());
        while k < count
            invariant
                k <= count,
                count == orig.len(),
                pending@ == orig.skip(k as int),
                st0.areas == views_of(orig),
                st0.base == frames.base,
                st0.used.len() == frames.used@.len(),
                areas_within(st0),
                forall|i: int| 0 <= i < orig.len() ==> (#[trigger] orig[i])@.wf(),
                page_aligned(cs as int),
                page_aligned(ce as int),
                cs <= ce,
                self.wf(),
                frames.wf(),
                self.page_table.root == old(self).page_table.root,
                areas_within(self.state(frames)),
                self.state(frames) == carve_upto(st0, cs as int, ce as int, k as int),
            decreases count - k,
        {
            let ghost before = self.state(frames);
            let area = pending.remove(0);
            assert(area == orig[k as int]);
            assert(pending@ =~= orig.skip(k + 1));
            assert(area@ == st0.areas[k as int]);
            assert(within_run(
                st0.base,
                st0.used.len() as int,
                st0.areas[k as int].start_paddr as int,
                st0.areas[k as int].num_pages(),
            ));
            assert forall|i: int| 0 <= i < self.areas@.len() implies within_run(
                frames.base,
                frames.used@.len() as int,
                (#[trigger] views_of(self.areas@)[i]).start_paddr as int,
                views_of(self.areas@)[i].num_pages(),
            ) by {
                assert(before.areas[i] == views_of(self.areas@)[i]);
            }
            carve_one(&mut self.page_table, frames, &mut self.areas, area, cs, ce);
            assert forall|i: int| 0 <= i < self.areas@.len() implies within_run(
                frames.base,
                frames.used@.len() as int,
                (#[trigger] self.state(frames).areas[i]).start_paddr as int,
                self.state(frames).areas[i].num_pages(),
            ) by {
                assert(self.state(frames).areas[i] == views_of(self.areas@)[i]);
            }
            k += 1;
        }
        Ok(())
    }
}

/// Carves the page-aligned range from `cs` up to `ce` out of `area`: adds
/// what is left of it to `out`, removes the mappings of its pages in the
/// range from `table` and gives their frames back to `frames`.
fn carve_one(
    table: &mut PageTable,
    frames: &mut FrameAllocator,
    out: &mut Vec<MapArea>,
    area: MapArea,
    cs: usize,
    ce: usize,
)
    requires
        old(table).wf(),
        old(frames).wf(),
        area@.wf(),
        within_run(
            old(frames).base,
            old(frames).used@.len() as int,
            area@.start_paddr as int,
            area@.num_pages(),
        ),
        page_aligned(cs as int),
        page_aligned(ce as int),
        cs <= ce,
        forall|i: int| 0 <= i < old(out)@.len() ==> (#[trigger] old(out)@[i])@.wf(),
        forall|i: int|
            0 <= i < old(out)@.len() ==> within_run(
                old(frames).base,
                old(frames).used@.len() as int,
                (#[trigger] views_of(old(out)@)[i]).start_paddr as int,
                views_of(old(out)@)[i].num_pages(),
            ),
    ensures
        final(table).wf(),
        final(frames).wf(),
        final(table).root == old(table).root,
        final(frames).base == old(frames).base,
        final(frames).used@.len() == old(frames).used@.len(),
        forall|i: int| 0 <= i < final(out)@.len() ==> (#[trigger] final(out)@[i])@.wf(),
        forall|i: int|
            0 <= i < final(out)@.len() ==> within_run(
                old(frames).base,
                old(frames).used@.len() as int,
                (#[trigger] views_of(final(out)@)[i]).start_paddr as int,
                views_of(final(out)@)[i].num_pages(),
            ),
        (MemState {
            table: final(table).entries@,
            areas: views_of(final(out)@),
            base: final(frames).base,
            used: final(frames).used@,
        }) == carve_step(
            MemState {
                table: old(table).entries@,
                areas: views_of(old(out)@),
                base: old(frames).base,
                used: old(frames).used@,
            },
            area@,
            cs as int,
            ce as int,
        ),
{
    let ghost a = area@;
    let ghost before = views_of(out@);
    let ghost parts = carve_area(a, cs as int, ce as int);
    let start = area.start_va;
    let end = start + area.pages.data.len();
    let lo = if cs > start {
        cs
    } else {
        start
    };
    let hi = if ce < end {
        ce
    } else {
        end
    };
    if lo >= hi {
        out.push(area);
        assert(views_of(out@) =~= before + parts);
    } else {
        proof {
            lemma_carve_parts(a, frames.base, frames.used@.len() as int, cs as int, ce as int);
        }
        let MapArea { start_va, pages, flags } = area;
        let GlobalPage { start_paddr, data } = pages;
        let mut left = data;
        let lo_off = lo - start;
        let hi_off = hi - start;
        let right = left.split_off(hi_off);
        left.truncate(lo_off);
        assert(left@ =~= a.data.subrange(0, lo_off as int));
        assert(right@ =~= a.data.subrange(hi_off as int, a.data.len() as int));
        let n = (hi - lo) / PAGE_SIZE_4K;
        table.unmap_pages(lo, n);
        frames.dealloc(start_paddr + lo_off, n);
        if lo_off > 0 {
            let part = MapArea { start_va, pages: GlobalPage { start_paddr, data: left }, flags };
            assert(part@ == slice_of(a, a.start_va as int, lo as int));
            out.push(part);
        }
        if hi < end {
            let part = MapArea {
                start_va: hi,
                pages: GlobalPage { start_paddr: start_paddr + hi_off, data: right },
                flags,
            };
            assert(part@ == slice_of(a, hi as int, a.end_va()));
            out.push(part);
        }
        assert(views_of(out@) =~= before + parts);
    }
}

} // verus!
