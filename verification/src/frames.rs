//! Physical page frames: a first-fit allocator over a fixed range, and the
//! owned runs of frames that back mapped memory.

use vstd::prelude::*;
use crate::addr::{page_aligned, PAGE_SIZE_4K};

verus! {

/// Whether the `n` frames from index `start` exist in `used` and are all free.
pub open spec fn free_run(used: Seq<bool>, start: int, n: int) -> bool {
    &&& 0 <= start
    &&& 0 <= n
    &&& start + n <= used.len()
    &&& forall|i: int| start <= i < start + n ==> !#[trigger] used[i]
}

/// The index, counted from the frame at `base`, of the frame at `paddr`.
pub open spec fn frame_index(base: usize, paddr: int) -> int {
    (paddr - base) / 0x1000
}

/// Whether the `n` frames from physical address `paddr` are among `total`
/// frames that start at `base`.
pub open spec fn within_run(base: usize, total: int, paddr: int, n: int) -> bool {
    &&& page_aligned(paddr)
    &&& base <= paddr
    &&& 0 <= n
    &&& frame_index(base, paddr) + n <= total
}

/// Whether the `n` frames from physical address `paddr` exist in `used`,
/// counted from the frame at `base`, and are all handed out.
pub open spec fn used_run(base: usize, used: Seq<bool>, paddr: int, n: int) -> bool {
    &&& within_run(base, used.len() as int, paddr, n)
    &&& forall|i: int|
        frame_index(base, paddr) <= i < frame_index(base, paddr) + n ==> #[trigger] used[i]
}

/// The lowest index at which `n` contiguous frames are free, if there is one.
#[verifier::opaque]
pub open spec fn first_fit(used: Seq<bool>, n: int) -> Option<int> {
    if exists|s: int| free_run(used, s, n) {
        Some(
            choose|s: int|
                free_run(used, s, n) && forall|t: int| 0 <= t < s ==> !free_run(used, t, n),
        )
    } else {
        None
    }
}

/// `used` with the `n` frames from index `start` set to `v`.
pub open spec fn mark_run(used: Seq<bool>, start: int, n: int, v: bool) -> Seq<bool> {
    Seq::new(used.len(), |i: int| if start <= i < start + n { v } else { used[i] })
}

/// A free run below which no run is free is the first fit.
pub proof fn lemma_first_fit(used: Seq<bool>, n: int, s: int)
    requires
        free_run(used, s, n),
        forall|t: int| 0 <= t < s ==> !free_run(used, t, n),
    ensures
        first_fit(used, n) == Some(s),
{
    reveal(first_fit);
    let c = choose|c: int|
        free_run(used, c, n) && forall|t: int| 0 <= t < c ==> !free_run(used, t, n);
    assert(c == s) by {
        if c < s {
            assert(!free_run(used, c, n));
        }
        if s < c {
            assert(!free_run(used, s, n));
        }
    }
}

/// Where no run is free there is no first fit.
pub proof fn lemma_no_fit(used: Seq<bool>, n: int)
    requires
        forall|s: int| !free_run(used, s, n),
    ensures
        first_fit(used, n).is_none(),
{
    reveal(first_fit);
}

/// The first fit is a free run, and no run below it is free; there is none
/// only where no run is free.
pub proof fn lemma_first_fit_is_lowest(used: Seq<bool>, n: int)
    ensures
        match first_fit(used, n) {
            Some(s) => free_run(used, s, n) && forall|t: int|
                0 <= t < s ==> !free_run(used, t, n),
            None => forall|s: int| !free_run(used, s, n),
        },
{
    reveal(first_fit);
    if exists|s: int| free_run(used, s, n) {
        let w = choose|s: int| free_run(used, s, n);
        lemma_lowest_exists(used, n, w);
    }
}

/// Below any free run there is a lowest one.
proof fn lemma_lowest_exists(used: Seq<bool>, n: int, w: int)
    requires
        free_run(used, w, n),
    ensures
        exists|s: int| free_run(used, s, n) && forall|t: int| 0 <= t < s ==> !free_run(used, t, n),
    decreases w,
{
    if exists|t: int| 0 <= t < w && free_run(used, t, n) {
        let t = choose|t: int| 0 <= t < w && free_run(used, t, n);
        lemma_lowest_exists(used, n, t);
    } else {
        assert(free_run(used, w, n) && forall|t: int| 0 <= t < w ==> !free_run(used, t, n));
    }
}

/// An allocator of page frames over one contiguous physical range.
pub struct FrameAllocator {
    /// The physical address of the first frame.
    pub base: usize,
    /// For each frame, whether it is handed out.
    pub used: Vec<bool>,
}

impl FrameAllocator {
    /// The range starts on a page boundary and ends within the address space.
    pub open spec fn wf(&self) -> bool {
        &&& page_aligned(self.base as int)
        &&& self.base + self.used@.len() * 0x1000 <= usize::MAX
    }

    /// Whether the `n` frames from index `start` exist and are all free.
    pub open spec fn run_free(&self, start: int, n: int) -> bool {
        free_run(self.used@, start, n)
    }

    /// The index of the frame at physical address `paddr`.
    pub open spec fn index_of(&self, paddr: int) -> int {
        frame_index(self.base, paddr)
    }

    /// Whether the `n` frames from physical address `paddr` lie in the range
    /// and are all handed out.
    pub open spec fn run_used(&self, paddr: int, n: int) -> bool {
        used_run(self.base, self.used@, paddr, n)
    }

    /// An allocator over `total` free frames from `base`, or `None` where
    /// `base` is not on a page boundary or the range leaves the address space.
    pub fn new(base: usize, total: usize) -> (r: Option<Self>)
        ensures
            r.is_some() <==> page_aligned(base as int) && base + total * 0x1000 <= usize::MAX,
            r.is_some() ==> {
                &&& r.unwrap().wf()
                &&& r.unwrap().base == base
                &&& r.unwrap().used@ == Seq::new(total as nat, |i: int| false)
            },
    {
        if !memory_addr::is_aligned_4k(base) {
            return None;
        }
        if total > (usize::MAX - base) / PAGE_SIZE_4K {
            assert(base + total * 0x1000 > usize::MAX) by (nonlinear_arith)
                requires
                    total > (usize::MAX - base) / 0x1000,
            ;
            return None;
        }
        assert(base + total * 0x1000 <= usize::MAX) by (nonlinear_arith)
            requires
                total <= (usize::MAX - base) / 0x1000,
        ;
        let mut used: Vec<bool> = Vec::new();
        let mut i: usize = 0;
        while i < total
            invariant
                i <= total,
                used@ == Seq::new(i as nat, |k: int| false),
            decreases total - i,
        {
            used.push(false);
            i += 1;
            assert(used@ =~= Seq::new(i as nat, |k: int| false));
        }
        Some(FrameAllocator { base, used })
    }

    /// The number of frames in the range.
    pub fn total(&self) -> (n: usize)
        ensures
            n == self.used@.len(),
    {
        self.used.len()
    }

    /// The index of the lowest free frame, if one is free.
    pub fn first_free(&self) -> (r: Option<usize>)
        ensures
            match first_fit(self.used@, 1) {
                Some(s) => r == Some(s as usize) && s < self.used@.len(),
                None => r.is_none(),
            },
    {
        let n = self.used.len();
        let mut i: usize = 0;
        while i < n
            invariant
                i <= n,
                n == self.used@.len(),
                forall|t: int| 0 <= t < i ==> !free_run(self.used@, t, 1),
            decreases n - i,
        {
            if !self.used[i] {
                proof {
                    lemma_first_fit(self.used@, 1, i as int);
                }
                return Some(i);
            }
            assert(!free_run(self.used@, i as int, 1)) by {
                if free_run(self.used@, i as int, 1) {
                    assert(!self.used@[i as int]);
                }
            }
            i += 1;
        }
        proof {
            assert forall|s: int| !free_run(self.used@, s, 1) by {
                if free_run(self.used@, s, 1) {
                    assert(s < n);
                }
            }
            lemma_no_fit(self.used@, 1);
        }
        None
    }

    /// Hands out the lowest run of `n` contiguous free frames and returns its
    /// physical address, or returns `None`, changing nothing, where no such
    /// run exists.
    pub fn alloc_contiguous(&mut self, n: usize) -> (r: Option<usize>)
        requires
            old(self).wf(),
        ensures
            final(self).wf(),
            final(self).base == old(self).base,
            final(self).used@.len() == old(self).used@.len(),
            match first_fit(old(self).used@, n as int) {
                Some(s) => {
                    &&& r == Some((old(self).base + s * 0x1000) as usize)
                    &&& free_run(old(self).used@, s, n as int)
                    &&& final(self).used@ == mark_run(old(self).used@, s, n as int, true)
                },
                None => r.is_none() && final(self).used@ == old(self).used@,
            },
    {
        let total = self.used.len();
        if n > total {
            proof {
                assert forall|s: int| !free_run(self.used@, s, n as int) by {}
                lemma_no_fit(self.used@, n as int);
            }
            return None;
        }
        let mut start: usize = 0;
        while start <= total - n
            invariant
                n <= total,
                total == self.used@.len(),
                *self == *old(self),
                self.wf(),
                forall|t: int| 0 <= t < start ==> !free_run(self.used@, t, n as int),
            decreases total + 1 - start,
        {
            let mut j: usize = 0;
            while j < n && !self.used[start + j]
                invariant
                    j <= n,
                    start + n <= total,
                    total == self.used@.len(),
                    forall|k: int| start <= k < start + j ==> !#[trigger] self.used@[k],
                decreases n - j,
            {
                j += 1;
            }
            if j == n {
                let ghost before = *self;
                let mut k: usize = 0;
                while k < n
                    invariant
                        k <= n,
                        start + n <= total,
                        total == self.used@.len(),
                        total == before.used@.len(),
                        self.base == before.base,
                        forall|i: int|
                            0 <= i < total ==> #[trigger] self.used@[i] == (before.used@[i] || (start <= i
                                < start + k)),
                    decreases n - k,
                {
                    self.used.set(start + k, true);
                    k += 1;
                }
                proof {
                    assert(free_run(before.used@, start as int, n as int));
                    assert(start * 0x1000 <= total * 0x1000) by (nonlinear_arith)
                        requires
                            start <= total,
                    ;
                    lemma_first_fit(before.used@, n as int, start as int);
                    assert(self.used@ =~= mark_run(before.used@, start as int, n as int, true));
                }
                return Some(self.base + start * PAGE_SIZE_4K);
            }
            proof {
                assert forall|t: int| start <= t < start + j + 1 implies !free_run(
                    self.used@,
                    t,
                    n as int,
                ) by {
                    if free_run(self.used@, t, n as int) {
                        assert(!self.used@[start + j]);
                    }
                }
            }
            start = start + j + 1;
        }
        proof {
            assert forall|s: int| !free_run(old(self).used@, s, n as int) by {
                if free_run(old(self).used@, s, n as int) {
                    assert(s + n <= total);
                    assert(s < start);
                }
            }
            lemma_no_fit(old(self).used@, n as int);
        }
        None
    }

    /// Whether the `n` frames from physical address `paddr` lie in the range.
    pub open spec fn run_within(&self, paddr: int, n: int) -> bool {
        within_run(self.base, self.used@.len() as int, paddr, n)
    }

    /// Takes back the `n` frames from physical address `paddr`; those of
    /// them that were free stay free.
    pub fn dealloc(&mut self, paddr: usize, n: usize)
        requires
            old(self).wf(),
            old(self).run_within(paddr as int, n as int),
        ensures
            final(self).wf(),
            final(self).base == old(self).base,
            final(self).used@.len() == old(self).used@.len(),
            final(self).used@ == mark_run(
                old(self).used@,
                old(self).index_of(paddr as int),
                n as int,
                false,
            ),
    {
        let start = (paddr - self.base) / PAGE_SIZE_4K;
        assert(start == self.index_of(paddr as int));
        let total = self.used.len();
        let mut k: usize = 0;
        while k < n
            invariant
                k <= n,
                start == old(self).index_of(paddr as int),
                total == self.used@.len(),
                start + n <= self.used@.len(),
                self.base == old(self).base,
                self.used@.len() == old(self).used@.len(),
                forall|i: int|
                    0 <= i < self.used@.len() ==> #[trigger] self.used@[i] == (old(self).used@[i] && !(start
                        <= i < start + k)),
            decreases n - k,
        {
            self.used.set(start + k, false);
            k += 1;
        }
        assert(self.used@ =~= mark_run(old(self).used@, start as int, n as int, false));
    }
}

/// A sequence of `len` zero bytes.
pub open spec fn zeros(len: nat) -> Seq<u8> {
    Seq::new(len, |i: int| 0u8)
}

/// `dst` with its first bytes replaced by `src`, as far as `src` reaches
/// and at most `limit` of them.
pub open spec fn overlay(dst: Seq<u8>, src: Seq<u8>, limit: int) -> Seq<u8> {
    Seq::new(
        dst.len(),
        |i: int|
            if i < src.len() && i < limit {
                src[i]
            } else {
                dst[i]
            },
    )
}

/// A vector of `len` zero bytes.
pub fn zeroed(len: usize) -> (v: Vec<u8>)
    ensures
        v@ == zeros(len as nat),
{
    let v: Vec<u8> = vec![0u8; len];
    assert(v@ =~= zeros(len as nat));
    v
}

/// `dst` with the bytes from `offset` on replaced by those of `src`.
pub open spec fn splice(dst: Seq<u8>, offset: int, src: Seq<u8>) -> Seq<u8> {
    Seq::new(
        dst.len(),
        |i: int|
            if offset <= i < offset + src.len() {
                src[i - offset]
            } else {
                dst[i]
            },
    )
}

/// Replaces the bytes of `dst` from `offset` on by those of `src`.
pub fn write_into(dst: &mut Vec<u8>, offset: usize, src: &[u8])
    requires
        offset + src@.len() <= old(dst)@.len(),
    ensures
        final(dst)@ == splice(old(dst)@, offset as int, src@),
{
    let n = src.len();
    let total = dst.len();
    let mut i: usize = 0;
    while i < n
        invariant
            i <= n,
            n == src@.len(),
            total == dst@.len(),
            offset + n <= dst@.len(),
            dst@.len() == old(dst)@.len(),
            forall|k: int|
                0 <= k < dst@.len() ==> #[trigger] dst@[k] == (if offset <= k < offset + i {
                    src@[k - offset]
                } else {
                    old(dst)@[k]
                }),
        decreases n - i,
    {
        dst.set(offset + i, src[i]);
        i += 1;
    }
    assert(dst@ =~= splice(old(dst)@, offset as int, src@));
}

/// A run of contiguous page frames and the bytes that they hold.
pub struct GlobalPage {
    /// The physical address of the first frame.
    pub start_paddr: usize,
    /// The bytes of the frames, in address order.
    pub data: Vec<u8>,
}

impl GlobalPage {
    /// The run starts on a page boundary, is a whole number of pages long
    /// and ends within the address space.
    pub open spec fn wf(&self) -> bool {
        &&& page_aligned(self.start_paddr as int)
        &&& page_aligned(self.data@.len() as int)
        &&& self.start_paddr + self.data@.len() <= usize::MAX
    }

    /// The number of frames in the run.
    pub open spec fn num_pages(&self) -> int {
        self.data@.len() as int / 0x1000
    }

    /// Takes the lowest run of `num_pages` contiguous free frames from
    /// `frames` and fills it with zeros; `None`, with nothing changed, where
    /// no such run exists.
    pub fn alloc_contiguous(frames: &mut FrameAllocator, num_pages: usize) -> (r: Option<Self>)
        requires
            old(frames).wf(),
        ensures
            final(frames).wf(),
            final(frames).base == old(frames).base,
            final(frames).used@.len() == old(frames).used@.len(),
            match first_fit(old(frames).used@, num_pages as int) {
                Some(s) => {
                    &&& r matches Some(p)
                    &&& p.wf()
                    &&& p.start_paddr == old(frames).base + s * 0x1000
                    &&& p.data@ == zeros((num_pages * 0x1000) as nat)
                    &&& free_run(old(frames).used@, s, num_pages as int)
                    &&& final(frames).used@ == mark_run(
                        old(frames).used@,
                        s,
                        num_pages as int,
                        true,
                    )
                },
                None => r.is_none() && final(frames).used@ == old(frames).used@,
            },
    {
        let ghost fit = first_fit(frames.used@, num_pages as int);
        let ghost total = frames.used@.len();
        let ghost base = frames.base;
        match frames.alloc_contiguous(num_pages) {
            Some(start_paddr) => {
                proof {
                    let s = fit.unwrap();
                    assert(s + num_pages <= total);
                    assert(base + total * 0x1000 <= usize::MAX);
                    assert(start_paddr == base + s * 0x1000);
                    assert(start_paddr + num_pages * 0x1000 <= usize::MAX);
                    assert(page_aligned(start_paddr as int));
                    assert(page_aligned((num_pages * 0x1000) as int));
                }
                let data = zeroed(num_pages * 0x1000);
                Some(GlobalPage { start_paddr, data })
            },
            None => None,
        }
    }

    /// The length of the run in bytes.
    pub fn size(&self) -> (n: usize)
        ensures
            n == self.data@.len(),
    {
        self.data.len()
    }

    /// The physical address of the first frame.
    pub fn start_paddr(&self) -> (p: usize)
        ensures
            p == self.start_paddr,
    {
        self.start_paddr
    }

    /// The bytes of the run.
    pub fn as_slice(&self) -> (s: &[u8])
        ensures
            s@ == self.data@,
    {
        self.data.as_slice()
    }

    /// Sets every byte of the run to zero.
    pub fn zero(&mut self)
        ensures
            final(self).start_paddr == old(self).start_paddr,
            final(self).data@ == zeros(old(self).data@.len()),
    {
        let n = self.data.len();
        let mut i: usize = 0;
        while i < n
            invariant
                i <= n,
                n == self.data@.len(),
                self.start_paddr == old(self).start_paddr,
                forall|k: int| 0 <= k < i ==> #[trigger] self.data@[k] == 0,
            decreases n - i,
        {
            self.data.set(i, 0);
            i += 1;
        }
        assert(self.data@ =~= zeros(old(self).data@.len()));
    }

    /// Copies the bytes of `src` to the start of the run, as far as `src`
    /// reaches and at most `limit` of them.
    pub fn fill(&mut self, src: &[u8], limit: usize)
        ensures
            final(self).start_paddr == old(self).start_paddr,
            final(self).data@ == overlay(old(self).data@, src@, limit as int),
    {
        let n = self.data.len();
        let mut i: usize = 0;
        while i < n && i < src.len() && i < limit
            invariant
                i <= n,
                i <= src@.len(),
                i <= limit,
                n == self.data@.len(),
                n == old(self).data@.len(),
                self.start_paddr == old(self).start_paddr,
                forall|k: int|
                    0 <= k < n ==> #[trigger] self.data@[k] == (if k < i {
                        src@[k]
                    } else {
                        old(self).data@[k]
                    }),
            decreases n - i,
        {
            self.data.set(i, src[i]);
            i += 1;
        }
        assert(self.data@ =~= overlay(old(self).data@, src@, limit as int));
    }

    /// Copies the bytes of `src` into the run from byte `offset` on.
    pub fn write_at(&mut self, offset: usize, src: &[u8])
        requires
            offset + src@.len() <= old(self).data@.len(),
        ensures
            final(self).start_paddr == old(self).start_paddr,
            final(self).data@ == splice(old(self).data@, offset as int, src@),
    {
        write_into(&mut self.data, offset, src);
    }

    /// Gives the frames of the run back to `frames`.
    pub fn release(self, frames: &mut FrameAllocator)
        requires
            old(frames).wf(),
            self.wf(),
            old(frames).run_within(self.start_paddr as int, self.num_pages()),
        ensures
            final(frames).wf(),
            final(frames).base == old(frames).base,
            final(frames).used@ == mark_run(
                old(frames).used@,
                old(frames).index_of(self.start_paddr as int),
                self.num_pages(),
                false,
            ),
    {
        let n = self.data.len() / PAGE_SIZE_4K;
        frames.dealloc(self.start_paddr, n);
    }
}

} // verus!
