//! Address spaces as plain values, and what mapping does to them.

use vstd::prelude::*;
use crate::addr::{lemma_page_ceil, page_aligned, page_ceil, page_floor, pages_for};
use crate::elf::{parse_spec, ElfSegment};
use crate::areas::AreaView;
use crate::flags::MappingFlags;
use crate::frames::{
    first_fit, frame_index, free_run, lemma_first_fit_is_lowest, mark_run, overlay, used_run,
    within_run, zeros,
};
use crate::memory_set::MemoryError;
use crate::page_table::{
    in_pages, map_range, query_in, range_unmapped, table_wf, unmap_range, PageEntry, PageSize,
};

verus! {

/// An address space together with the allocator that its frames come from,
/// as plain values.
pub struct MemState {
    /// The page table's mappings.
    pub table: Map<usize, PageEntry>,
    /// The regions, in the order in which they were mapped.
    pub areas: Seq<AreaView>,
    /// The physical address of the allocator's first frame.
    pub base: usize,
    /// For each frame of the allocator, whether it is handed out.
    pub used: Seq<bool>,
}

/// One request to map a region.
pub struct MapRequest {
    /// The virtual address that the region shall cover from.
    pub start_va: usize,
    /// The number of bytes to cover.
    pub size: usize,
    /// The access rights.
    pub flags: MappingFlags,
    /// The bytes to place at the start of the region; empty for none.
    pub data: Seq<u8>,
}

/// The request that the arguments of `map_region_4k` make.
pub open spec fn request(
    start_va: usize,
    size: usize,
    flags: MappingFlags,
    data: Option<&[u8]>,
) -> MapRequest {
    MapRequest {
        start_va,
        size,
        flags,
        data: match data {
            Some(d) => d@,
            None => Seq::empty(),
        },
    }
}

/// The region that `req` yields when its frames start at `paddr`: it starts
/// at the page boundary at or below the requested address, spans the
/// requested size rounded up to whole pages, and holds zeros but for the
/// requested bytes at its start, cut off at the requested size.
pub open spec fn area_of(req: MapRequest, paddr: usize) -> AreaView {
    AreaView {
        start_va: page_floor(req.start_va as int) as usize,
        start_paddr: paddr,
        data: overlay(
            zeros((pages_for(req.size as int) * 0x1000) as nat),
            req.data,
            req.size as int,
        ),
        flags: req.flags,
    }
}

/// Whether the page table of `st` takes the region of `req`: the size can be
/// rounded up, the region ends within the address space, and none of its
/// pages has a mapping.
pub open spec fn fits(st: MemState, req: MapRequest) -> bool {
    &&& req.size + 0xfff <= usize::MAX
    &&& page_floor(req.start_va as int) + pages_for(req.size as int) * 0x1000 <= usize::MAX
    &&& range_unmapped(st.table, page_floor(req.start_va as int), pages_for(req.size as int))
}

/// What mapping `req` in `st` gives: `MappingConflict` where the region does
/// not fit, else `OutOfMemory` where no run of free frames is long enough,
/// both with nothing changed; else the state with the region on the lowest
/// such run, mapped and added last.
pub open spec fn map_one(st: MemState, req: MapRequest) -> (Result<(), MemoryError>, MemState) {
    let n = pages_for(req.size as int);
    if !fits(st, req) {
        (Err(MemoryError::MappingConflict), st)
    } else {
        match first_fit(st.used, n) {
            None => (Err(MemoryError::OutOfMemory), st),
            Some(s) => {
                let paddr = (st.base + s * 0x1000) as usize;
                (
                    Ok(()),
                    MemState {
                        table: map_range(
                            st.table,
                            page_floor(req.start_va as int),
                            paddr as int,
                            n,
                            req.flags,
                        ),
                        areas: st.areas.push(area_of(req, paddr)),
                        base: st.base,
                        used: mark_run(st.used, s, n, true),
                    },
                )
            },
        }
    }
}

/// The allocator's range starts on a page boundary and ends within the
/// address space; the page table and every region are well formed.
pub open spec fn state_wf(st: MemState) -> bool {
    &&& page_aligned(st.base as int)
    &&& st.base + st.used.len() * 0x1000 <= usize::MAX
    &&& table_wf(st.table)
    &&& forall|i: int| 0 <= i < st.areas.len() ==> (#[trigger] st.areas[i]).wf()
}

/// Every frame of every region is handed out.
pub open spec fn areas_held(st: MemState) -> bool {
    forall|i: int|
        0 <= i < st.areas.len() ==> used_run(
            st.base,
            st.used,
            (#[trigger] st.areas[i]).start_paddr as int,
            st.areas[i].num_pages(),
        )
}

/// No two regions have a frame in common.
pub open spec fn areas_apart(areas: Seq<AreaView>) -> bool {
    forall|i: int, j: int|
        0 <= i < j < areas.len() ==> (#[trigger] areas[i]).apart(#[trigger] areas[j])
}

/// The mapping that the page at `a` has where it belongs to `area`.
pub open spec fn entry_in(area: AreaView, a: usize) -> PageEntry {
    PageEntry { paddr: (area.start_paddr + (a - area.start_va)) as usize, flags: area.flags }
}

/// Every page of every region is mapped to the region's frame at the same
/// offset, with the region's rights.
pub open spec fn areas_mapped(st: MemState) -> bool {
    forall|i: int, a: usize|
        0 <= i < st.areas.len() && #[trigger] in_pages(
            a as int,
            st.areas[i].start_va as int,
            st.areas[i].num_pages(),
        ) ==> st.table.contains_key(a) && st.table[a] == entry_in(st.areas[i], a)
}

/// A state in which every invariant of an address space holds.
pub open spec fn state_inv(st: MemState) -> bool {
    &&& state_wf(st)
    &&& areas_held(st)
    &&& areas_apart(st.areas)
    &&& areas_mapped(st)
}

/// A run of frames that is handed out and a run that is free have no frame
/// in common.
pub proof fn lemma_used_free_apart(base: usize, used: Seq<bool>, p: int, m: int, s: int, n: int)
    requires
        page_aligned(base as int),
        used_run(base, used, p, m),
        free_run(used, s, n),
        m > 0,
        n > 0,
    ensures
        p + m * 0x1000 <= base + s * 0x1000 || base + (s + n) * 0x1000 <= p,
{
    let k = frame_index(base, p);
    assert(p == base + k * 0x1000);
    if k + m > s && s + n > k {
        let i = if k > s {
            k
        } else {
            s
        };
        assert(used[i]);
        assert(!used[i]);
    }
}

/// Mapping keeps the invariants of the state. Every run of frames that was
/// handed out before stays so, and shares no frame with the new region.
pub proof fn lemma_map_one(st: MemState, req: MapRequest)
    requires
        state_inv(st),
    ensures
        state_inv(map_one(st, req).1),
        map_one(st, req).0.is_err() ==> map_one(st, req).1 == st,
        map_one(st, req).0.is_ok() ==> {
            let after = map_one(st, req).1;
            &&& after.areas.len() == st.areas.len() + 1
            &&& after.areas.last().wf()
            &&& after.areas.last().start_va == page_floor(req.start_va as int)
            &&& after.areas.last().flags == req.flags
            &&& after.areas.last().data.len() == pages_for(req.size as int) * 0x1000
            &&& forall|i: int| 0 <= i < st.areas.len() ==> after.areas[i] == st.areas[i]
        },
        forall|p: int, m: int| #[trigger]
            used_run(st.base, st.used, p, m) ==> used_run(
                st.base,
                map_one(st, req).1.used,
                p,
                m,
            ) && (map_one(st, req).0.is_ok() && m > 0 ==> {
                let area = map_one(st, req).1.areas.last();
                p + m * 0x1000 <= area.start_paddr || area.start_paddr + area.data.len() <= p
            }),
{
    let n = pages_for(req.size as int);
    let vbase = page_floor(req.start_va as int);
    lemma_first_fit_is_lowest(st.used, n);
    if fits(st, req) && first_fit(st.used, n).is_some() {
        let s = first_fit(st.used, n).unwrap();
        let paddr = (st.base + s * 0x1000) as usize;
        let after = map_one(st, req).1;
        let area = area_of(req, paddr);
        assert(s * 0x1000 + n * 0x1000 <= st.used.len() * 0x1000) by (nonlinear_arith)
            requires
                s + n <= st.used.len(),
        ;
        assert(0 <= s * 0x1000 && 0 <= n * 0x1000) by (nonlinear_arith)
            requires
                0 <= s,
                0 <= n,
        ;
        assert(paddr == st.base + s * 0x1000);
        assert(area.data.len() == n * 0x1000);
        assert(area.wf());
        assert(after.areas.last() == area);
        assert(frame_index(st.base, paddr as int) == s);
        assert(area.num_pages() == n);
        assert forall|p: int, m: int| #[trigger] used_run(st.base, st.used, p, m) implies used_run(
            st.base,
            after.used,
            p,
            m,
        ) && (m > 0 ==> p + m * 0x1000 <= area.start_paddr || area.start_paddr + area.data.len()
            <= p) by {
            if m > 0 && n > 0 {
                lemma_used_free_apart(st.base, st.used, p, m, s, n);
            }
            if n == 0 {
                assert(free_run(st.used, 0, 0));
            }
        }
        assert(table_wf(after.table)) by {
            assert forall|a: usize| #[trigger] after.table.contains_key(a) implies page_aligned(
                a as int,
            ) && page_aligned(after.table[a].paddr as int) && after.table[a].paddr + 0x1000
                <= usize::MAX by {
                if in_pages(a as int, vbase, n) {
                } else {
                    assert(st.table.contains_key(a));
                }
            }
        }
        assert(state_wf(after)) by {
            assert forall|i: int| 0 <= i < after.areas.len() implies (
            #[trigger] after.areas[i]).wf() by {
                if i < st.areas.len() {
                    assert(after.areas[i] == st.areas[i]);
                }
            }
        }
        assert(areas_held(after)) by {
            assert forall|i: int| 0 <= i < after.areas.len() implies used_run(
                after.base,
                after.used,
                (#[trigger] after.areas[i]).start_paddr as int,
                after.areas[i].num_pages(),
            ) by {
                if i < st.areas.len() {
                    assert(after.areas[i] == st.areas[i]);
                    assert(used_run(
                        st.base,
                        st.used,
                        st.areas[i].start_paddr as int,
                        st.areas[i].num_pages(),
                    ));
                }
            }
        }
        assert(areas_apart(after.areas)) by {
            assert forall|i: int, j: int| 0 <= i < j < after.areas.len() implies (
            #[trigger] after.areas[i]).apart(#[trigger] after.areas[j]) by {
                assert(after.areas[i] == st.areas[i]);
                if j < st.areas.len() {
                    assert(after.areas[j] == st.areas[j]);
                } else {
                    let o = st.areas[i];
                    assert(used_run(st.base, st.used, o.start_paddr as int, o.num_pages()));
                    assert(o.wf());
                    if o.num_pages() > 0 {
                    }
                }
            }
        }
        assert(areas_mapped(after)) by {
            assert forall|i: int, a: usize|
                0 <= i < after.areas.len() && #[trigger] in_pages(
                    a as int,
                    after.areas[i].start_va as int,
                    after.areas[i].num_pages(),
                ) implies after.table.contains_key(a) && after.table[a] == entry_in(
                after.areas[i],
                a,
            ) by {
                if i < st.areas.len() {
                    assert(after.areas[i] == st.areas[i]);
                    assert(in_pages(
                        a as int,
                        st.areas[i].start_va as int,
                        st.areas[i].num_pages(),
                    ));
                    assert(st.table.contains_key(a));
                    assert(!in_pages(a as int, vbase, n));
                } else {
                    assert(after.areas[i] == area);
                    assert(in_pages(a as int, vbase, n));
                    assert(after.table.contains_key(a));
                    assert(after.table[a] == entry_in(area, a));
                }
            }
        }
    }
}

/// What mapping the requests of `reqs` from the `k`-th on, in order, gives:
/// the first failure with the state in which it came, or the state with all
/// of them mapped.
pub open spec fn map_from(st: MemState, reqs: Seq<MapRequest>, k: int) -> (
    Result<(), MemoryError>,
    MemState,
)
    decreases reqs.len() - k,
{
    if k < 0 || k >= reqs.len() {
        (Ok(()), st)
    } else {
        let step = map_one(st, reqs[k]);
        if step.0.is_err() {
            step
        } else {
            map_from(step.1, reqs, k + 1)
        }
    }
}

/// What mapping the requests of `reqs`, in order, gives.
pub open spec fn map_all(st: MemState, reqs: Seq<MapRequest>) -> (
    Result<(), MemoryError>,
    MemState,
) {
    map_from(st, reqs, 0)
}

/// Whether the `m` frames from physical address `p` and the frames of `area`
/// have no frame in common.
pub open spec fn run_apart(p: int, m: int, area: AreaView) -> bool {
    p + m * 0x1000 <= area.start_paddr || area.start_paddr + area.data.len() <= p
}

/// Mapping a list of requests keeps the invariants of the state and the
/// regions that were there. Where all succeed, the new regions answer the
/// requests one by one. Every run of frames that was handed out before stays
/// so, and shares no frame with a new region.
pub proof fn lemma_map_from(st: MemState, reqs: Seq<MapRequest>, k: int)
    requires
        state_inv(st),
        0 <= k <= reqs.len(),
    ensures
        state_inv(map_from(st, reqs, k).1),
        map_from(st, reqs, k).1.base == st.base,
        map_from(st, reqs, k).1.used.len() == st.used.len(),
        st.areas.len() <= map_from(st, reqs, k).1.areas.len(),
        forall|i: int|
            0 <= i < st.areas.len() ==> #[trigger] map_from(st, reqs, k).1.areas[i] == st.areas[i],
        map_from(st, reqs, k).0.is_ok() ==> {
            let after = map_from(st, reqs, k).1;
            &&& after.areas.len() == st.areas.len() + reqs.len() - k
            &&& forall|j: int|
                k <= j < reqs.len() ==> #[trigger] after.areas[st.areas.len() + j - k] == area_of(
                    reqs[j],
                    after.areas[st.areas.len() + j - k].start_paddr,
                )
        },
        forall|p: int, m: int| #[trigger]
            used_run(st.base, st.used, p, m) ==> used_run(
                st.base,
                map_from(st, reqs, k).1.used,
                p,
                m,
            ),
        forall|p: int, m: int, i: int|
            used_run(st.base, st.used, p, m) && m > 0 && st.areas.len() <= i < map_from(
                st,
                reqs,
                k,
            ).1.areas.len() ==> #[trigger] run_apart(p, m, map_from(st, reqs, k).1.areas[i]),
    decreases reqs.len() - k,
{
    if k < reqs.len() {
        let step = map_one(st, reqs[k]);
        lemma_map_one(st, reqs[k]);
        if step.0.is_ok() {
            let mid = step.1;
            let after = map_from(mid, reqs, k + 1).1;
            lemma_map_from(mid, reqs, k + 1);
            assert(after == map_from(st, reqs, k).1);
            assert forall|i: int| 0 <= i < st.areas.len() implies #[trigger] after.areas[i]
                == st.areas[i] by {
                assert(after.areas[i] == mid.areas[i]);
            }
            if map_from(st, reqs, k).0.is_ok() {
                assert forall|j: int| k <= j < reqs.len() implies #[trigger] after.areas[st.areas.len()
                    + j - k] == area_of(reqs[j], after.areas[st.areas.len() + j - k].start_paddr) by {
                    if j == k {
                        assert(after.areas[st.areas.len() as int] == mid.areas[st.areas.len() as int]);
                        assert(mid.areas.last() == mid.areas[st.areas.len() as int]);
                    } else {
                        assert(after.areas[mid.areas.len() + j - (k + 1)] == area_of(
                            reqs[j],
                            after.areas[mid.areas.len() + j - (k + 1)].start_paddr,
                        ));
                    }
                }
            }
            assert forall|p: int, m: int| #[trigger]
                used_run(st.base, st.used, p, m) implies used_run(st.base, after.used, p, m) by {
                assert(used_run(st.base, mid.used, p, m));
            }
            assert forall|p: int, m: int, i: int|
                used_run(st.base, st.used, p, m) && m > 0 && st.areas.len() <= i
                    < after.areas.len() implies #[trigger] run_apart(p, m, after.areas[i]) by {
                assert(used_run(st.base, mid.used, p, m));
                if i == st.areas.len() {
                    assert(after.areas[i] == mid.areas[i]);
                    assert(mid.areas.last() == mid.areas[i]);
                } else {
                    assert(run_apart(p, m, after.areas[i]));
                }
            }
        }
    }
}

/// The requests that copy the regions of `areas`: each asks for the same
/// range, rights and bytes.
pub open spec fn requests_of(areas: Seq<AreaView>) -> Seq<MapRequest> {
    Seq::new(
        areas.len(),
        |i: int|
            MapRequest {
                start_va: areas[i].start_va,
                size: areas[i].data.len() as usize,
                flags: areas[i].flags,
                data: areas[i].data,
            },
    )
}

/// What copying an address space gives: `OutOfMemory`, with nothing changed,
/// where no frame is free for the page table's root; else what mapping a
/// copy of each region of `src`, in order, gives in a state that starts
/// with the mappings of `kernel` and no region.
pub open spec fn fork_of(
    kernel: Map<usize, PageEntry>,
    src: Seq<AreaView>,
    base: usize,
    used: Seq<bool>,
) -> (Result<(), MemoryError>, MemState) {
    match first_fit(used, 1) {
        None => (
            Err(MemoryError::OutOfMemory),
            MemState { table: kernel, areas: Seq::empty(), base, used },
        ),
        Some(s) => map_all(
            MemState { table: kernel, areas: Seq::empty(), base, used: mark_run(used, s, 1, true) },
            requests_of(src),
        ),
    }
}

/// What translating `vaddr` through `t` gives.
pub open spec fn translate_in(t: Map<usize, PageEntry>, vaddr: usize) -> Result<
    (usize, MappingFlags, PageSize),
    MemoryError,
> {
    match query_in(t, vaddr) {
        Ok(found) => Ok(found),
        Err(_) => Err(MemoryError::Unmapped),
    }
}

/// Every byte of a region that was just mapped translates to the byte at
/// the same offset in the region's frames, with the rights that were asked
/// for.
pub proof fn lemma_mapped_translates(st: MemState, req: MapRequest, off: int)
    requires
        st.base + st.used.len() * 0x1000 <= usize::MAX,
        map_one(st, req).0.is_ok(),
        0 <= off < pages_for(req.size as int) * 0x1000,
    ensures
        ({
            let area = map_one(st, req).1.areas.last();
            &&& area.start_va == page_floor(req.start_va as int)
            &&& area.data.len() == pages_for(req.size as int) * 0x1000
            &&& area.flags == req.flags
            &&& translate_in(map_one(st, req).1.table, (area.start_va + off) as usize) == Ok::<
                (usize, MappingFlags, PageSize),
                MemoryError,
            >(((area.start_paddr + off) as usize, req.flags, PageSize::Size4K))
        }),
{
    let n = pages_for(req.size as int);
    lemma_first_fit_is_lowest(st.used, n);
    let s = first_fit(st.used, n).unwrap();
    assert(s * 0x1000 + n * 0x1000 <= st.used.len() * 0x1000) by (nonlinear_arith)
        requires
            s + n <= st.used.len(),
    ;
    assert(0 <= s * 0x1000 && 0 <= n * 0x1000) by (nonlinear_arith)
        requires
            0 <= s,
            0 <= n,
    ;
    let after = map_one(st, req).1;
    let area = after.areas.last();
    assert(area == area_of(req, (st.base + s * 0x1000) as usize));
    let va = (area.start_va + off) as usize;
    let page = page_floor(va as int) as usize;
    assert(in_pages(page as int, area.start_va as int, n));
}

/// Every byte of a region of a well-kept address space translates to the
/// byte at the same offset in the region's frames, with the region's rights.
pub proof fn lemma_region_translates(st: MemState, i: int, off: int)
    requires
        state_inv(st),
        0 <= i < st.areas.len(),
        0 <= off < st.areas[i].data.len(),
    ensures
        translate_in(st.table, (st.areas[i].start_va + off) as usize) == Ok::<
            (usize, MappingFlags, PageSize),
            MemoryError,
        >(((st.areas[i].start_paddr + off) as usize, st.areas[i].flags, PageSize::Size4K)),
{
    let area = st.areas[i];
    assert(area.wf());
    let va = (area.start_va + off) as usize;
    let page = page_floor(va as int) as usize;
    assert(in_pages(page as int, area.start_va as int, area.num_pages()));
}

/// A copy of an address space has, region by region, the same range, rights
/// and bytes as the space that was copied, on frames of its own: no region
/// of the copy shares a frame with a region of that space.
pub proof fn lemma_fork_independent(
    kernel: Map<usize, PageEntry>,
    src: Seq<AreaView>,
    base: usize,
    used: Seq<bool>,
)
    requires
        table_wf(kernel),
        page_aligned(base as int),
        base + used.len() * 0x1000 <= usize::MAX,
        forall|i: int| 0 <= i < src.len() ==> (#[trigger] src[i]).wf(),
        forall|i: int|
            0 <= i < src.len() ==> used_run(
                base,
                used,
                (#[trigger] src[i]).start_paddr as int,
                src[i].num_pages(),
            ),
        fork_of(kernel, src, base, used).0.is_ok(),
    ensures
        ({
            let copy = fork_of(kernel, src, base, used).1;
            &&& state_inv(copy)
            &&& copy.areas.len() == src.len()
            &&& forall|i: int|
                0 <= i < src.len() ==> {
                    &&& (#[trigger] copy.areas[i]).start_va == src[i].start_va
                    &&& copy.areas[i].flags == src[i].flags
                    &&& copy.areas[i].data == src[i].data
                }
            &&& forall|i: int, j: int|
                0 <= i < src.len() && 0 <= j < src.len() ==> (#[trigger] copy.areas[i]).apart(
                    #[trigger] src[j],
                )
        }),
{
    let s = first_fit(used, 1).unwrap();
    lemma_first_fit_is_lowest(used, 1);
    let st0 = MemState {
        table: kernel,
        areas: Seq::<AreaView>::empty(),
        base,
        used: mark_run(used, s, 1, true),
    };
    let reqs = requests_of(src);
    lemma_map_from(st0, reqs, 0);
    let copy = map_from(st0, reqs, 0).1;
    assert forall|i: int| 0 <= i < src.len() implies {
        &&& (#[trigger] copy.areas[i]).start_va == src[i].start_va
        &&& copy.areas[i].flags == src[i].flags
        &&& copy.areas[i].data == src[i].data
    } by {
        assert(copy.areas[0 + i - 0] == area_of(reqs[i], copy.areas[0 + i - 0].start_paddr));
        assert(src[i].wf());
        assert(copy.areas[i].data =~= src[i].data);
    }
    assert forall|i: int, j: int| 0 <= i < src.len() && 0 <= j < src.len() implies (
    #[trigger] copy.areas[i]).apart(#[trigger] src[j]) by {
        let p = src[j].start_paddr as int;
        let m = src[j].num_pages();
        assert(src[j].wf());
        assert(used_run(base, used, p, m));
        assert(used_run(base, st0.used, p, m));
        if m > 0 {
            assert(run_apart(p, m, copy.areas[i]));
        }
    }
}

/// `t` without the mappings of the pages of the regions of `areas` from the
/// `k`-th on.
pub open spec fn unmap_from(t: Map<usize, PageEntry>, areas: Seq<AreaView>, k: int) -> Map<
    usize,
    PageEntry,
>
    decreases areas.len() - k,
{
    if k < 0 || k >= areas.len() {
        t
    } else {
        unmap_from(
            unmap_range(t, areas[k].start_va as int, areas[k].num_pages()),
            areas,
            k + 1,
        )
    }
}

/// Whether the page at `a` belongs to one of the regions of `areas` from
/// the `k`-th on.
pub open spec fn in_some_area(areas: Seq<AreaView>, k: int, a: usize) -> bool {
    exists|i: int|
        k <= i < areas.len() && #[trigger] in_pages(
            a as int,
            areas[i].start_va as int,
            areas[i].num_pages(),
        )
}

/// Unmapping the regions removes the mappings of exactly their pages.
pub proof fn lemma_unmap_from(t: Map<usize, PageEntry>, areas: Seq<AreaView>, k: int)
    requires
        0 <= k <= areas.len(),
    ensures
        forall|a: usize| #[trigger]
            unmap_from(t, areas, k).contains_key(a) <==> t.contains_key(a) && !in_some_area(
                areas,
                k,
                a,
            ),
        forall|a: usize| #[trigger]
            unmap_from(t, areas, k).contains_key(a) ==> unmap_from(t, areas, k)[a] == t[a],
        table_wf(t) ==> table_wf(unmap_from(t, areas, k)),
    decreases areas.len() - k,
{
    if k < areas.len() {
        let mid = unmap_range(t, areas[k].start_va as int, areas[k].num_pages());
        lemma_unmap_from(mid, areas, k + 1);
        assert(unmap_from(t, areas, k) == unmap_from(mid, areas, k + 1));
        assert forall|a: usize|
            in_some_area(areas, k, a) <==> in_pages(
                a as int,
                areas[k].start_va as int,
                areas[k].num_pages(),
            ) || in_some_area(areas, k + 1, a) by {
            if in_some_area(areas, k, a) {
                let i = choose|i: int|
                    k <= i < areas.len() && #[trigger] in_pages(
                        a as int,
                        areas[i].start_va as int,
                        areas[i].num_pages(),
                    );
                if i > k {
                    assert(in_some_area(areas, k + 1, a));
                }
            }
            if in_some_area(areas, k + 1, a) {
                let i = choose|i: int|
                    k + 1 <= i < areas.len() && #[trigger] in_pages(
                        a as int,
                        areas[i].start_va as int,
                        areas[i].num_pages(),
                    );
                assert(in_pages(a as int, areas[i].start_va as int, areas[i].num_pages()));
                assert(in_some_area(areas, k, a));
            }
            if in_pages(a as int, areas[k].start_va as int, areas[k].num_pages()) {
                assert(in_some_area(areas, k, a));
            }
        }
        assert forall|a: usize| #[trigger]
            unmap_from(t, areas, k).contains_key(a) <==> t.contains_key(a) && !in_some_area(
                areas,
                k,
                a,
            ) by {
            assert(unmap_from(mid, areas, k + 1).contains_key(a) <==> mid.contains_key(a)
                && !in_some_area(areas, k + 1, a));
        }
        assert forall|a: usize| #[trigger]
            unmap_from(t, areas, k).contains_key(a) implies unmap_from(t, areas, k)[a] == t[a] by {
            assert(unmap_from(mid, areas, k + 1)[a] == mid[a]);
        }
    } else {
        assert forall|a: usize| !in_some_area(areas, k, a) by {}
    }
}

/// `used` after the frames of the first `k` regions of `areas` were given
/// back, the last of them first.
pub open spec fn release_from(base: usize, used: Seq<bool>, areas: Seq<AreaView>, k: int) -> Seq<
    bool,
>
    decreases k,
{
    if k <= 0 || k > areas.len() {
        used
    } else {
        release_from(
            base,
            mark_run(
                used,
                frame_index(base, areas[k - 1].start_paddr as int),
                areas[k - 1].num_pages(),
                false,
            ),
            areas,
            k - 1,
        )
    }
}

/// Whether frame `f` belongs to one of the first `k` regions of `areas`.
pub open spec fn in_some_frames(base: usize, areas: Seq<AreaView>, k: int, f: int) -> bool {
    exists|i: int|
        0 <= i < k && #[trigger] frame_index(base, areas[i].start_paddr as int) <= f
            < frame_index(base, areas[i].start_paddr as int) + areas[i].num_pages()
}

/// Giving the regions' frames back frees exactly their frames.
pub proof fn lemma_release_from(base: usize, used: Seq<bool>, areas: Seq<AreaView>, k: int)
    requires
        0 <= k <= areas.len(),
    ensures
        release_from(base, used, areas, k).len() == used.len(),
        forall|f: int|
            0 <= f < used.len() ==> #[trigger] release_from(base, used, areas, k)[f] == (used[f]
                && !in_some_frames(base, areas, k, f)),
    decreases k,
{
    if k > 0 {
        let idx = frame_index(base, areas[k - 1].start_paddr as int);
        let mid = mark_run(used, idx, areas[k - 1].num_pages(), false);
        lemma_release_from(base, mid, areas, k - 1);
        assert forall|f: int| 0 <= f < used.len() implies #[trigger] release_from(
            base,
            used,
            areas,
            k,
        )[f] == (used[f] && !in_some_frames(base, areas, k, f)) by {
            if in_some_frames(base, areas, k, f) {
                let i = choose|i: int|
                    0 <= i < k && #[trigger] frame_index(base, areas[i].start_paddr as int) <= f
                        < frame_index(base, areas[i].start_paddr as int) + areas[i].num_pages();
                if i < k - 1 {
                    assert(in_some_frames(base, areas, k - 1, f));
                }
            }
            if in_some_frames(base, areas, k - 1, f) {
                let i = choose|i: int|
                    0 <= i < k - 1 && #[trigger] frame_index(base, areas[i].start_paddr as int)
                        <= f < frame_index(base, areas[i].start_paddr as int)
                        + areas[i].num_pages();
                assert(frame_index(base, areas[i].start_paddr as int) <= f);
                assert(in_some_frames(base, areas, k, f));
            }
            if idx <= f < idx + areas[k - 1].num_pages() {
                assert(frame_index(base, areas[k - 1].start_paddr as int) <= f);
                assert(in_some_frames(base, areas, k, f));
            }
        }
    }
}

/// Every region's frames are frames of the allocator.
pub open spec fn areas_within(st: MemState) -> bool {
    forall|i: int|
        0 <= i < st.areas.len() ==> within_run(
            st.base,
            st.used.len() as int,
            (#[trigger] st.areas[i]).start_paddr as int,
            st.areas[i].num_pages(),
        )
}

/// The highest address just past a segment among the first `k` of `segs`;
/// zero where there is none.
pub open spec fn max_end(segs: Seq<ElfSegment>, k: int) -> int
    decreases k,
{
    if k <= 0 {
        0
    } else {
        let below = max_end(segs, k - 1);
        let end = segs[k - 1].start_va + segs[k - 1].mem_size;
        if end > below {
            end
        } else {
            below
        }
    }
}

/// Where the heap starts: one page above the page boundary at or above the
/// end of the highest segment.
pub open spec fn heap_bottom_of(segs: Seq<ElfSegment>) -> int {
    page_ceil(max_end(segs, segs.len() as int)) + 0x1000
}

/// Where the stack starts: above the heap, one heap's size and one page
/// further up.
pub open spec fn stack_bottom_of(segs: Seq<ElfSegment>) -> int {
    heap_bottom_of(segs) + 0x1000 + 0x1000 + 0x1000
}

/// Whether heap and stack end within the address space.
pub open spec fn layout_fits(segs: Seq<ElfSegment>) -> bool {
    stack_bottom_of(segs) + 0x1000 <= usize::MAX
}

/// The rights of heap and stack: read, write and user access.
pub open spec fn user_data_flags() -> MappingFlags {
    MappingFlags { read: true, write: true, execute: false, user: true, device: false }
}

/// The requests that load an executable: one for each segment, in order,
/// with the segment's bytes of the image; then the heap; then the stack.
pub open spec fn load_requests(image: Seq<u8>, segs: Seq<ElfSegment>) -> Seq<MapRequest> {
    Seq::new(
        segs.len() + 2,
        |i: int|
            if i < segs.len() {
                MapRequest {
                    start_va: segs[i].start_va,
                    size: segs[i].mem_size,
                    flags: segs[i].flags,
                    data: image.subrange(
                        segs[i].offset as int,
                        segs[i].offset + segs[i].file_size,
                    ),
                }
            } else if i == segs.len() {
                MapRequest {
                    start_va: heap_bottom_of(segs) as usize,
                    size: 0x1000,
                    flags: user_data_flags(),
                    data: Seq::empty(),
                }
            } else {
                MapRequest {
                    start_va: stack_bottom_of(segs) as usize,
                    size: 0x1000,
                    flags: user_data_flags(),
                    data: Seq::empty(),
                }
            },
    )
}

/// What loading the segments `segs` of `image` into `st` gives:
/// `InvalidExecutable`, with nothing changed, where heap and stack would
/// end beyond the address space; else what mapping the segments, the heap
/// and the stack gives, and on success the entry point, the bottom of the
/// stack and the bottom of the heap.
pub open spec fn load_spec(st: MemState, image: Seq<u8>, entry: usize, segs: Seq<ElfSegment>) -> (
    Result<(usize, usize, usize), MemoryError>,
    MemState,
) {
    if !layout_fits(segs) {
        (Err(MemoryError::InvalidExecutable), st)
    } else {
        let mapped = map_all(st, load_requests(image, segs));
        (
            match mapped.0 {
                Ok(_) => Ok((entry, stack_bottom_of(segs) as usize, heap_bottom_of(segs) as usize)),
                Err(e) => Err(e),
            },
            mapped.1,
        )
    }
}

/// What loading the executable `image` into `st` gives: the fault that
/// reading it found, with nothing changed, or what loading its segments
/// gives.
pub open spec fn from_elf_spec(st: MemState, image: Seq<u8>) -> (
    Result<(usize, usize, usize), MemoryError>,
    MemState,
) {
    match parse_spec(image) {
        Err(e) => (Err(e), st),
        Ok(parsed) => load_spec(st, image, parsed.0, parsed.1),
    }
}

/// The end of each of the first `k` segments is at most their highest end.
pub proof fn lemma_max_end(segs: Seq<ElfSegment>, k: int, i: int)
    requires
        0 <= i < k <= segs.len(),
    ensures
        segs[i].start_va + segs[i].mem_size <= max_end(segs, k),
        0 <= max_end(segs, k),
    decreases k,
{
    if i < k - 1 {
        lemma_max_end(segs, k - 1, i);
    } else if k > 1 {
        lemma_max_end(segs, k - 1, 0);
    }
}

/// In a loaded executable the heap starts on a page boundary with one whole
/// unmapped page between the end of the highest segment, rounded up, and
/// itself; the stack starts on a page boundary with at least one whole
/// page between the end of the heap and itself; the heap is the region
/// before the last and the stack is the last.
pub proof fn lemma_load_layout(st: MemState, image: Seq<u8>, entry: usize, segs: Seq<ElfSegment>)
    requires
        state_inv(st),
        load_spec(st, image, entry, segs).0.is_ok(),
    ensures
        ({
            let after = load_spec(st, image, entry, segs).1;
            let heap = after.areas[after.areas.len() - 2];
            let stack = after.areas[after.areas.len() - 1];
            &&& state_inv(after)
            &&& after.areas.len() == st.areas.len() + segs.len() + 2
            &&& page_aligned(heap_bottom_of(segs))
            &&& heap_bottom_of(segs) == page_ceil(max_end(segs, segs.len() as int)) + 0x1000
            &&& forall|i: int|
                0 <= i < segs.len() ==> (#[trigger] segs[i]).start_va + segs[i].mem_size + 0x1000
                    <= heap_bottom_of(segs)
            &&& heap.start_va == heap_bottom_of(segs)
            &&& heap.data.len() == 0x1000
            &&& heap.flags == user_data_flags()
            &&& stack.start_va == stack_bottom_of(segs)
            &&& stack.data.len() == 0x1000
            &&& stack.flags == user_data_flags()
            &&& heap.end_va() + 0x1000 <= stack.start_va
            &&& load_spec(st, image, entry, segs).0 == Ok::<(usize, usize, usize), MemoryError>(
                (entry, stack.start_va, heap.start_va),
            )
        }),
{
    let reqs = load_requests(image, segs);
    let n = segs.len() as int;
    lemma_map_from(st, reqs, 0);
    let after = map_from(st, reqs, 0).1;
    if n > 0 {
        lemma_max_end(segs, n, 0);
    }
    lemma_page_ceil(max_end(segs, n));
    assert forall|i: int| 0 <= i < segs.len() implies (#[trigger] segs[i]).start_va
        + segs[i].mem_size + 0x1000 <= heap_bottom_of(segs) by {
        lemma_max_end(segs, n, i);
    }
    let heap = after.areas[st.areas.len() + n - 0];
    let stack = after.areas[st.areas.len() + (n + 1) - 0];
    assert(heap == area_of(reqs[n], heap.start_paddr));
    assert(stack == area_of(reqs[n + 1], stack.start_paddr));
}

/// The higher of `cs` and the start of `a`.
pub open spec fn clip_lo(a: AreaView, cs: int) -> int {
    if cs > a.start_va {
        cs
    } else {
        a.start_va as int
    }
}

/// The lower of `ce` and the end of `a`.
pub open spec fn clip_hi(a: AreaView, ce: int) -> int {
    if ce < a.end_va() {
        ce
    } else {
        a.end_va()
    }
}

/// The part of `a` from virtual address `lo` up to `hi`, with the frames
/// and the bytes that `a` has there.
pub open spec fn slice_of(a: AreaView, lo: int, hi: int) -> AreaView {
    AreaView {
        start_va: lo as usize,
        start_paddr: (a.start_paddr + (lo - a.start_va)) as usize,
        data: a.data.subrange(lo - a.start_va, hi - a.start_va),
        flags: a.flags,
    }
}

/// What is left of `a` when the range from `cs` up to `ce` is carved out:
/// `a` itself where the two do not meet; else the part of `a` below the
/// range, if there is one, and the part above it, if there is one.
pub open spec fn carve_area(a: AreaView, cs: int, ce: int) -> Seq<AreaView> {
    let lo = clip_lo(a, cs);
    let hi = clip_hi(a, ce);
    if lo >= hi {
        seq![a]
    } else {
        let left = if a.start_va < lo {
            seq![slice_of(a, a.start_va as int, lo)]
        } else {
            Seq::<AreaView>::empty()
        };
        let right = if hi < a.end_va() {
            seq![slice_of(a, hi, a.end_va())]
        } else {
            Seq::<AreaView>::empty()
        };
        left + right
    }
}

/// `st` after the range from `cs` up to `ce` was carved out of `a`: what is
/// left of `a` is added to the regions; the pages of `a` in the range lose
/// their mappings and their frames are given back.
pub open spec fn carve_step(st: MemState, a: AreaView, cs: int, ce: int) -> MemState {
    let lo = clip_lo(a, cs);
    let hi = clip_hi(a, ce);
    if lo >= hi {
        MemState { table: st.table, areas: st.areas + carve_area(a, cs, ce), base: st.base, used: st.used }
    } else {
        MemState {
            table: unmap_range(st.table, lo, (hi - lo) / 0x1000),
            areas: st.areas + carve_area(a, cs, ce),
            base: st.base,
            used: mark_run(
                st.used,
                frame_index(st.base, a.start_paddr + (lo - a.start_va)),
                (hi - lo) / 0x1000,
                false,
            ),
        }
    }
}

/// `st` after the range from `cs` up to `ce` was carved out of the first
/// `k` of its regions, with what is left of them as the regions.
pub open spec fn carve_upto(st: MemState, cs: int, ce: int, k: int) -> MemState
    decreases k,
{
    if k <= 0 {
        MemState {
            table: st.table,
            areas: Seq::<AreaView>::empty(),
            base: st.base,
            used: st.used,
        }
    } else {
        carve_step(carve_upto(st, cs, ce, k - 1), st.areas[k - 1], cs, ce)
    }
}

/// What carving `size` bytes from `start_va` out of `st` gives: `BadAddress`,
/// with nothing changed, where the range cannot be rounded out to page
/// boundaries within the address space; else the state in which the range,
/// rounded out to page boundaries, was carved out of every region.
pub open spec fn carve_spec(st: MemState, start_va: usize, size: usize) -> (
    Result<(), MemoryError>,
    MemState,
) {
    if start_va + size + 0xfff > usize::MAX {
        (Err(MemoryError::BadAddress), st)
    } else {
        (
            Ok(()),
            carve_upto(
                st,
                page_floor(start_va as int),
                page_ceil(start_va + size),
                st.areas.len() as int,
            ),
        )
    }
}

/// What is left of a region after a page-aligned range was carved out of
/// it: each part is well formed, keeps the region's rights, lies inside the
/// region and outside the range, and has at each of its addresses the frame
/// and the byte that the region had there; every address of the region
/// outside the range lies in one of the parts.
pub proof fn lemma_carve_area(a: AreaView, cs: int, ce: int)
    requires
        a.wf(),
        page_aligned(cs),
        page_aligned(ce),
        0 <= cs <= ce,
    ensures
        forall|j: int|
            0 <= j < carve_area(a, cs, ce).len() ==> {
                let r = #[trigger] carve_area(a, cs, ce)[j];
                &&& r.wf()
                &&& r.flags == a.flags
                &&& a.start_va <= r.start_va
                &&& r.end_va() <= a.end_va()
                &&& (r == a || r.end_va() <= cs || ce <= r.start_va)
                &&& r.start_paddr - a.start_paddr == r.start_va - a.start_va
                &&& forall|v: int|
                    r.start_va <= v < r.end_va() ==> #[trigger] r.data[v - r.start_va] == a.data[v
                        - a.start_va]
            },
        forall|v: int|
            a.covers(v) && !(cs <= v < ce) ==> exists|j: int|
                0 <= j < carve_area(a, cs, ce).len() && (#[trigger] carve_area(a, cs, ce)[j]).covers(
                    v,
                ),
        clip_lo(a, cs) < clip_hi(a, ce) ==> forall|j: int|
            0 <= j < carve_area(a, cs, ce).len() ==> {
                let r = #[trigger] carve_area(a, cs, ce)[j];
                r.end_va() <= cs || ce <= r.start_va
            },
{
    let lo = clip_lo(a, cs);
    let hi = clip_hi(a, ce);
    let parts = carve_area(a, cs, ce);
    if lo < hi {
        let l = slice_of(a, a.start_va as int, lo);
        let r = slice_of(a, hi, a.end_va());
        assert forall|v: int| a.covers(v) && !(cs <= v < ce) implies exists|j: int|
            0 <= j < parts.len() && (#[trigger] parts[j]).covers(v) by {
            if v < lo {
                assert(parts[0] == l);
                assert(parts[0].covers(v));
            } else {
                assert(parts[parts.len() - 1] == r);
                assert(parts[parts.len() - 1].covers(v));
            }
        }
        assert forall|j: int| 0 <= j < parts.len() implies {
            let p = #[trigger] parts[j];
            &&& p.wf()
            &&& p.flags == a.flags
            &&& a.start_va <= p.start_va
            &&& p.end_va() <= a.end_va()
            &&& (p == a || p.end_va() <= cs || ce <= p.start_va)
            &&& p.start_paddr - a.start_paddr == p.start_va - a.start_va
            &&& forall|v: int|
                p.start_va <= v < p.end_va() ==> #[trigger] p.data[v - p.start_va] == a.data[v
                    - a.start_va]
        } by {
            assert(parts[j] == l || parts[j] == r);
        }
    } else {
        assert forall|v: int| a.covers(v) && !(cs <= v < ce) implies exists|j: int|
            0 <= j < parts.len() && (#[trigger] parts[j]).covers(v) by {
            assert(parts[0].covers(v));
        }
    }
}

/// The parts that carving leaves of a region whose frames are frames of
/// the allocator are well formed and have frames of the allocator; so is
/// the run of frames that is carved out.
pub proof fn lemma_carve_parts(a: AreaView, base: usize, total: int, cs: int, ce: int)
    requires
        a.wf(),
        page_aligned(base as int),
        within_run(base, total, a.start_paddr as int, a.num_pages()),
        page_aligned(cs),
        page_aligned(ce),
        0 <= cs <= ce,
        clip_lo(a, cs) < clip_hi(a, ce),
    ensures
        ({
            let lo = clip_lo(a, cs);
            let hi = clip_hi(a, ce);
            let left = slice_of(a, a.start_va as int, lo);
            let right = slice_of(a, hi, a.end_va());
            &&& page_aligned(lo)
            &&& page_aligned(hi)
            &&& ((hi - lo) / 0x1000) * 0x1000 == hi - lo
            &&& within_run(base, total, a.start_paddr + (lo - a.start_va), (hi - lo) / 0x1000)
            &&& left.wf()
            &&& right.wf()
            &&& within_run(base, total, left.start_paddr as int, left.num_pages())
            &&& within_run(base, total, right.start_paddr as int, right.num_pages())
        }),
{
    let lo = clip_lo(a, cs);
    let hi = clip_hi(a, ce);
    let s = a.start_va as int;
    let p = a.start_paddr as int;
    let len = a.data.len() as int;
    let i0 = (p - base) / 0x1000;
    let x = (lo - s) / 0x1000;
    let y = (hi - s) / 0x1000;
    let m = len / 0x1000;
    assert(p - base == i0 * 0x1000);
    assert(lo - s == x * 0x1000);
    assert(hi - s == y * 0x1000);
    assert(len == m * 0x1000);
    assert(0 <= x < y <= m);
    assert((hi - lo) / 0x1000 == y - x);
    assert(frame_index(base, p + (lo - s)) == i0 + x);
    assert(frame_index(base, p + (hi - s)) == i0 + y);
    let left = slice_of(a, s, lo);
    let right = slice_of(a, hi, a.end_va());
    assert(left.data.len() == x * 0x1000);
    assert(right.data.len() == (m - y) * 0x1000);
    assert(left.num_pages() == x);
    assert(right.num_pages() == m - y);
}

/// Mapping takes the frames of new regions from the allocator.
pub proof fn lemma_map_from_within(st: MemState, reqs: Seq<MapRequest>, k: int)
    requires
        page_aligned(st.base as int),
        st.base + st.used.len() * 0x1000 <= usize::MAX,
        areas_within(st),
        0 <= k <= reqs.len(),
    ensures
        areas_within(map_from(st, reqs, k).1),
        map_from(st, reqs, k).1.base == st.base,
        map_from(st, reqs, k).1.used.len() == st.used.len(),
    decreases reqs.len() - k,
{
    if k < reqs.len() {
        let req = reqs[k];
        let n = pages_for(req.size as int);
        let step = map_one(st, req);
        lemma_first_fit_is_lowest(st.used, n);
        if step.0.is_ok() {
            let s = first_fit(st.used, n).unwrap();
            let mid = step.1;
            assert(s * 0x1000 + n * 0x1000 <= st.used.len() * 0x1000) by (nonlinear_arith)
                requires
                    s + n <= st.used.len(),
            ;
            assert(0 <= s * 0x1000 && 0 <= n * 0x1000) by (nonlinear_arith)
                requires
                    0 <= s,
                    0 <= n,
            ;
            let paddr = (st.base + s * 0x1000) as usize;
            assert(frame_index(st.base, paddr as int) == s);
            assert(mid.areas.last() == area_of(req, paddr));
            assert(mid.areas.last().num_pages() == n);
            assert forall|i: int| 0 <= i < mid.areas.len() implies within_run(
                mid.base,
                mid.used.len() as int,
                (#[trigger] mid.areas[i]).start_paddr as int,
                mid.areas[i].num_pages(),
            ) by {
                if i < st.areas.len() {
                    assert(mid.areas[i] == st.areas[i]);
                }
            }
            lemma_map_from_within(mid, reqs, k + 1);
        }
    }
}

/// The regions that were there stay when requests are mapped, and where
/// all succeed each request has its region behind them, in order.
pub proof fn lemma_map_from_shape(st: MemState, reqs: Seq<MapRequest>, k: int)
    requires
        0 <= k <= reqs.len(),
    ensures
        st.areas.len() <= map_from(st, reqs, k).1.areas.len(),
        forall|i: int|
            0 <= i < st.areas.len() ==> #[trigger] map_from(st, reqs, k).1.areas[i] == st.areas[i],
        map_from(st, reqs, k).0.is_ok() ==> {
            let after = map_from(st, reqs, k).1;
            &&& after.areas.len() == st.areas.len() + reqs.len() - k
            &&& forall|j: int|
                k <= j < reqs.len() ==> #[trigger] after.areas[st.areas.len() + j - k] == area_of(
                    reqs[j],
                    after.areas[st.areas.len() + j - k].start_paddr,
                )
        },
    decreases reqs.len() - k,
{
    if k < reqs.len() {
        let step = map_one(st, reqs[k]);
        if step.0.is_ok() {
            let mid = step.1;
            let after = map_from(mid, reqs, k + 1).1;
            lemma_map_from_shape(mid, reqs, k + 1);
            assert forall|i: int| 0 <= i < st.areas.len() implies #[trigger] after.areas[i]
                == st.areas[i] by {
                assert(after.areas[i] == mid.areas[i]);
            }
            if map_from(st, reqs, k).0.is_ok() {
                assert forall|j: int| k <= j < reqs.len() implies #[trigger] after.areas[st.areas.len()
                    + j - k] == area_of(reqs[j], after.areas[st.areas.len() + j - k].start_paddr) by {
                    if j == k {
                        assert(after.areas[st.areas.len() as int] == mid.areas[st.areas.len() as int]);
                    } else {
                        assert(after.areas[mid.areas.len() + j - (k + 1)] == area_of(
                            reqs[j],
                            after.areas[mid.areas.len() + j - (k + 1)].start_paddr,
                        ));
                    }
                }
            }
        }
    }
}

/// Giving back the frames of the first `k` regions depends on those
/// regions alone.
pub proof fn lemma_release_prefix(
    base: usize,
    used: Seq<bool>,
    a: Seq<AreaView>,
    b: Seq<AreaView>,
    k: int,
)
    requires
        0 <= k <= a.len(),
        k <= b.len(),
        forall|i: int| 0 <= i < k ==> #[trigger] a[i] == b[i],
    ensures
        release_from(base, used, a, k) == release_from(base, used, b, k),
    decreases k,
{
    if k > 0 {
        assert(a[k - 1] == b[k - 1]);
        lemma_release_prefix(
            base,
            mark_run(
                used,
                frame_index(base, a[k - 1].start_paddr as int),
                a[k - 1].num_pages(),
                false,
            ),
            a,
            b,
            k - 1,
        );
    }
}

/// Giving back the frames of every region after requests were mapped
/// leaves the allocator as giving them back before the mapping does: the
/// frames that mapping took are exactly those of the new regions.
pub proof fn lemma_map_from_undone(st: MemState, reqs: Seq<MapRequest>, k: int)
    requires
        page_aligned(st.base as int),
        st.base + st.used.len() * 0x1000 <= usize::MAX,
        0 <= k <= reqs.len(),
    ensures
        ({
            let after = map_from(st, reqs, k).1;
            release_from(st.base, after.used, after.areas, after.areas.len() as int)
                == release_from(st.base, st.used, st.areas, st.areas.len() as int)
        }),
    decreases reqs.len() - k,
{
    if k < reqs.len() {
        let req = reqs[k];
        let n = pages_for(req.size as int);
        let step = map_one(st, req);
        lemma_first_fit_is_lowest(st.used, n);
        if step.0.is_ok() {
            let s = first_fit(st.used, n).unwrap();
            let mid = step.1;
            let after = map_from(mid, reqs, k + 1).1;
            assert(s * 0x1000 + n * 0x1000 <= st.used.len() * 0x1000) by (nonlinear_arith)
                requires
                    s + n <= st.used.len(),
            ;
            assert(0 <= s * 0x1000 && 0 <= n * 0x1000) by (nonlinear_arith)
                requires
                    0 <= s,
                    0 <= n,
            ;
            let paddr = (st.base + s * 0x1000) as usize;
            assert(frame_index(st.base, paddr as int) == s);
            assert(mid.areas.last() == area_of(req, paddr));
            assert(mid.areas.last().num_pages() == n);
            lemma_map_from_undone(mid, reqs, k + 1);
            let last = mid.areas.len() as int;
            assert(mark_run(mid.used, s, n, false) =~= st.used);
            assert(release_from(st.base, mid.used, mid.areas, last) == release_from(
                st.base,
                st.used,
                mid.areas,
                last - 1,
            ));
            assert forall|i: int| 0 <= i < last - 1 implies #[trigger] mid.areas[i]
                == st.areas[i] by {}
            lemma_release_prefix(st.base, st.used, mid.areas, st.areas, last - 1);
        }
    }
}

/// In a well-kept address space no two regions cover the same address.
pub proof fn lemma_regions_disjoint(st: MemState, i: int, j: int, va: int)
    requires
        state_inv(st),
        0 <= i < j < st.areas.len(),
    ensures
        !(st.areas[i].covers(va) && st.areas[j].covers(va)),
{
    let a = st.areas[i];
    let b = st.areas[j];
    if a.covers(va) && b.covers(va) {
        assert(a.wf() && b.wf());
        let page = page_floor(va) as usize;
        assert(in_pages(page as int, a.start_va as int, a.num_pages()));
        assert(in_pages(page as int, b.start_va as int, b.num_pages()));
        assert(st.table[page] == entry_in(a, page));
        assert(st.table[page] == entry_in(b, page));
        assert(a.apart(b));
    }
}

} // verus!
