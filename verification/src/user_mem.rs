//! Reading and writing the memory of an address space by virtual address.

use vstd::prelude::*;
use crate::areas::AreaView;
use crate::frames::splice;
use crate::memory_set::{views_of, MemoryError, MemorySet};
use crate::page_table::{query_in, PageEntry};

verus! {

/// The first region of `areas` from the `k`-th on whose frames hold the
/// physical address `pa`.
pub open spec fn first_backing(areas: Seq<AreaView>, pa: int, k: int) -> Option<int>
    decreases areas.len() - k,
{
    if k < 0 || k >= areas.len() {
        None
    } else if areas[k].backs(pa) {
        Some(k)
    } else {
        first_backing(areas, pa, k + 1)
    }
}

/// Where the byte at `vaddr` is kept: the index of the region whose frames
/// the page table leads to, and the offset of the byte in that region's
/// bytes; `None` where no mapping covers the address or the mapping leads
/// to no region's frames.
pub open spec fn locate_in(t: Map<usize, PageEntry>, areas: Seq<AreaView>, vaddr: usize) -> Option<
    (int, int),
> {
    match query_in(t, vaddr) {
        Err(_) => None,
        Ok(found) => match first_backing(areas, found.0 as int, 0) {
            None => None,
            Some(i) => Some((i, found.0 - areas[i].start_paddr)),
        },
    }
}

/// The byte at `vaddr`, where `locate_in` finds it.
pub open spec fn byte_at(t: Map<usize, PageEntry>, areas: Seq<AreaView>, vaddr: usize) -> Option<
    u8,
> {
    match locate_in(t, areas, vaddr) {
        None => None,
        Some(at) => Some(areas[at.0].data[at.1]),
    }
}

/// Whether the `n` bytes from `ptr` can be read and are not zero.
pub open spec fn text_at(t: Map<usize, PageEntry>, areas: Seq<AreaView>, ptr: usize, n: int) -> bool {
    &&& ptr + n <= usize::MAX
    &&& forall|k: int|
        0 <= k < n ==> (#[trigger] byte_at(t, areas, (ptr + k) as usize)).is_some() && byte_at(
            t,
            areas,
            (ptr + k) as usize,
        ).unwrap() != 0
}

/// `String::push` appends the character to the string.
#[verifier::external_body]
fn push_char(s: &mut String, c: char)
    ensures
        final(s)@ == old(s)@.push(c),
{
    s.push(c)
}

impl MemorySet {
    /// Where the byte at `vaddr` is kept: the index of its region and the
    /// offset in the region's bytes.
    pub fn locate(&self, vaddr: usize) -> (r: Option<(usize, usize)>)
        requires
            self.wf(),
        ensures
            match r {
                Some(at) => locate_in(self.page_table@, views_of(self.areas@), vaddr) == Some(
                    (at.0 as int, at.1 as int),
                ) && at.0 < self.areas@.len() && at.1 < self.areas@[at.0 as int]@.data.len(),
                None => locate_in(self.page_table@, views_of(self.areas@), vaddr).is_none(),
            },
    {
        let pa = match self.page_table.query(vaddr) {
            Ok(found) => found.0,
            Err(_) => {
                return None;
            },
        };
        let ghost views = views_of(self.areas@);
        let count = self.areas.len();
        let mut k: usize = 0;
        while k < count
            invariant
                k <= count,
                count == self.areas@.len(),
                views == views_of(self.areas@),
                self.wf(),
                query_in(self.page_table@, vaddr).is_ok(),
                query_in(self.page_table@, vaddr).unwrap().0 == pa,
                first_backing(views, pa as int, k as int) == first_backing(views, pa as int, 0),
            decreases count - k,
        {
            let area = &self.areas[k];
            assert(area@ == views[k as int]);
            assert(area@.wf());
            if area.pages.start_paddr <= pa && pa - area.pages.start_paddr < area.pages.data.len() {
                return Some((k, pa - area.pages.start_paddr));
            }
            k += 1;
        }
        None
    }

    /// The byte at `vaddr`, if the address leads to a region's frames.
    pub fn read_byte(&self, vaddr: usize) -> (r: Option<u8>)
        requires
            self.wf(),
        ensures
            r == byte_at(self.page_table@, views_of(self.areas@), vaddr),
    {
        match self.locate(vaddr) {
            Some(at) => Some(self.areas[at.0].pages.data[at.1]),
            None => None,
        }
    }

    /// The text that starts at `ptr` and ends before the first zero byte,
    /// each byte taken as one character. Every byte is looked up through the
    /// page table; `BadAddress` where one cannot be read before a zero byte
    /// is found.
    pub fn translate_str(&self, ptr: usize) -> (r: Result<String, MemoryError>)
        requires
            self.wf(),
        ensures
            match r {
                Ok(s) => {
                    &&& text_at(self.page_table@, views_of(self.areas@), ptr, s@.len() as int)
                    &&& ptr + s@.len() <= usize::MAX
                    &&& byte_at(
                        self.page_table@,
                        views_of(self.areas@),
                        (ptr + s@.len()) as usize,
                    ) == Some(0u8)
                    &&& forall|k: int|
                        0 <= k < s@.len() ==> #[trigger] s@[k] == byte_at(
                            self.page_table@,
                            views_of(self.areas@),
                            (ptr + k) as usize,
                        ).unwrap() as char
                },
                Err(e) => {
                    &&& e == MemoryError::BadAddress
                    &&& exists|n: int|
                        0 <= n && #[trigger] text_at(
                            self.page_table@,
                            views_of(self.areas@),
                            ptr,
                            n,
                        ) && (ptr + n == usize::MAX || byte_at(
                            self.page_table@,
                            views_of(self.areas@),
                            (ptr + n) as usize,
                        ).is_none())
                },
            },
    {
        let ghost t = self.page_table@;
        let ghost views = views_of(self.areas@);
        let mut string = String::new();
        let mut va: usize = ptr;
        loop
            invariant
                self.wf(),
                t == self.page_table@,
                views == views_of(self.areas@),
                ptr <= va,
                va == ptr + string@.len(),
                text_at(t, views, ptr, string@.len() as int),
                forall|k: int|
                    0 <= k < string@.len() ==> #[trigger] string@[k] == byte_at(
                        t,
                        views,
                        (ptr + k) as usize,
                    ).unwrap() as char,
            decreases usize::MAX - va,
        {
            let ch = match self.read_byte(va) {
                Some(ch) => ch,
                None => {
                    return Err(MemoryError::BadAddress);
                },
            };
            if ch == 0 {
                return Ok(string);
            }
            if va == usize::MAX {
                return Err(MemoryError::BadAddress);
            }
            push_char(&mut string, ch as char);
            va += 1;
        }
    }

    /// Copies `bytes` into the region at `index`, from byte `offset` of the
    /// region on.
    pub fn write_area(&mut self, index: usize, offset: usize, bytes: &[u8])
        requires
            old(self).wf(),
            index < old(self).areas@.len(),
            offset + bytes@.len() <= old(self).areas@[index as int]@.data.len(),
        ensures
            final(self).wf(),
            final(self).page_table == old(self).page_table,
            final(self).areas@.len() == old(self).areas@.len(),
            forall|i: int|
                0 <= i < old(self).areas@.len() && i != index ==> #[trigger] final(self).areas@[i]
                    == old(self).areas@[i],
            final(self).areas@[index as int]@ == (AreaView {
                data: splice(old(self).areas@[index as int]@.data, offset as int, bytes@),
                ..old(self).areas@[index as int]@
            }),
    {
        self.areas[index].pages.write_at(offset, bytes);
    }
}

} // verus!
