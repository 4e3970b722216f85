use axcore::addr::PAGE_SIZE_4K;
use axcore::flags::MappingFlags;
use axcore::frames::{FrameAllocator, GlobalPage};
use axcore::memory_set::{MemoryError, MemorySet, MAX_HEAP_SIZE, USER_STACK_SIZE};
use axcore::page_table::{PageSize, PageTable, PagingError};

const BASE: usize = 0x8000_0000;

fn rw_user() -> MappingFlags {
    MappingFlags { read: true, write: true, execute: false, user: true, device: false }
}

fn rx_user() -> MappingFlags {
    MappingFlags { read: true, write: false, execute: true, user: true, device: false }
}

fn push_u16(v: &mut Vec<u8>, x: u16) {
    v.extend_from_slice(&x.to_le_bytes());
}

fn push_u32(v: &mut Vec<u8>, x: u32) {
    v.extend_from_slice(&x.to_le_bytes());
}

fn push_u64(v: &mut Vec<u8>, x: u64) {
    v.extend_from_slice(&x.to_le_bytes());
}

/// A 64-bit little-endian image with the given entry point and loadable
/// segments `(flags, vaddr, mem_size, bytes)`.
fn image_of(entry: u64, segments: &[(u32, u64, u64, Vec<u8>)]) -> Vec<u8> {
    let mut v: Vec<u8> = vec![0x7f, 0x45, 0x4c, 0x46, 2, 1, 1, 0, 0, 0, 0, 0, 0, 0, 0, 0];
    push_u16(&mut v, 2);
    push_u16(&mut v, 0xf3);
    push_u32(&mut v, 1);
    push_u64(&mut v, entry);
    push_u64(&mut v, 64);
    push_u64(&mut v, 0);
    push_u32(&mut v, 0);
    push_u16(&mut v, 64);
    push_u16(&mut v, 56);
    push_u16(&mut v, segments.len() as u16);
    push_u16(&mut v, 0);
    push_u16(&mut v, 0);
    push_u16(&mut v, 0);
    assert_eq!(v.len(), 64);
    let mut offset = 64 + 56 * segments.len() as u64;
    for (flags, vaddr, mem_size, bytes) in segments {
        push_u32(&mut v, 1);
        push_u32(&mut v, *flags);
        push_u64(&mut v, offset);
        push_u64(&mut v, *vaddr);
        push_u64(&mut v, *vaddr);
        push_u64(&mut v, bytes.len() as u64);
        push_u64(&mut v, *mem_size);
        push_u64(&mut v, 0x1000);
        offset += bytes.len() as u64;
    }
    for (_, _, _, bytes) in segments {
        v.extend_from_slice(bytes);
    }
    v
}

#[test]
fn allocator_takes_the_lowest_run() {
    let mut frames = FrameAllocator::new(BASE, 8).unwrap();
    assert_eq!(frames.total(), 8);
    assert_eq!(frames.alloc_contiguous(2), Some(BASE));
    assert_eq!(frames.alloc_contiguous(1), Some(BASE + 2 * PAGE_SIZE_4K));
    frames.dealloc(BASE, 2);
    assert_eq!(frames.alloc_contiguous(3), Some(BASE + 3 * PAGE_SIZE_4K));
    assert_eq!(frames.alloc_contiguous(2), Some(BASE));
    assert_eq!(frames.alloc_contiguous(3), None);
    assert_eq!(frames.alloc_contiguous(2), Some(BASE + 6 * PAGE_SIZE_4K));
    assert_eq!(frames.alloc_contiguous(1), None);
    assert_eq!(frames.alloc_contiguous(0), Some(BASE));
}

#[test]
fn allocator_refuses_a_bad_range() {
    assert!(FrameAllocator::new(BASE + 1, 8).is_none());
    assert!(FrameAllocator::new(usize::MAX - 0xfff, 2).is_none());
    assert!(FrameAllocator::new(0, 0).is_some());
}

#[test]
fn pages_are_zeroed_and_filled() {
    let mut frames = FrameAllocator::new(BASE, 4).unwrap();
    let mut p = GlobalPage::alloc_contiguous(&mut frames, 2).unwrap();
    assert_eq!(p.size(), 2 * PAGE_SIZE_4K);
    assert_eq!(p.start_paddr(), BASE);
    assert!(p.as_slice().iter().all(|b| *b == 0));
    p.fill(&[1, 2, 3, 4], 3);
    assert_eq!(&p.as_slice()[..5], &[1, 2, 3, 0, 0]);
    p.zero();
    assert!(p.as_slice().iter().all(|b| *b == 0));
    p.release(&mut frames);
    assert_eq!(frames.alloc_contiguous(4), Some(BASE));
}

#[test]
fn page_table_maps_queries_and_unmaps() {
    let mut frames = FrameAllocator::new(BASE, 4).unwrap();
    let mut pt = PageTable::try_new(&mut frames).unwrap();
    assert_eq!(pt.root_paddr(), BASE);
    assert_eq!(pt.query(0x1000), Err(PagingError::NotMapped));
    assert_eq!(pt.map_region(0x1000, 0x9000_0000, 0x2000, rw_user()), Ok(()));
    assert_eq!(pt.query(0x1234), Ok((0x9000_0234, rw_user(), PageSize::Size4K)));
    assert_eq!(pt.query(0x2fff), Ok((0x9000_1fff, rw_user(), PageSize::Size4K)));
    assert_eq!(pt.query(0x3000), Err(PagingError::NotMapped));
    assert_eq!(
        pt.map_region(0x2000, 0x9000_0000, 0x1000, rw_user()),
        Err(PagingError::AlreadyMapped)
    );
    assert_eq!(pt.map_region(0x4001, 0x9000_0000, 0x1000, rw_user()), Err(PagingError::NotAligned));
    assert_eq!(pt.unmap_region(0x2000, 0x2000), Err(PagingError::NotMapped));
    assert_eq!(pt.unmap_region(0x2000, 0x1000), Ok(()));
    assert_eq!(pt.query(0x2000), Err(PagingError::NotMapped));
    assert_eq!(pt.query(0x1000), Ok((0x9000_0000, rw_user(), PageSize::Size4K)));
}

#[test]
fn mapped_region_translates_at_every_offset() {
    let mut frames = FrameAllocator::new(BASE, 16).unwrap();
    let mut ms = MemorySet::new_empty(&mut frames).unwrap();
    let data = [7u8, 8, 9];
    let i = ms.map_region_4k(&mut frames, 0x1234, 0x1001, rx_user(), Some(&data)).unwrap();
    assert_eq!(i, 0);
    let area = &ms.areas[0];
    assert_eq!(area.start_va, 0x1000);
    assert_eq!(area.size(), 0x2000);
    assert_eq!(&area.pages.as_slice()[..4], &[7, 8, 9, 0]);
    let pa = area.pages.start_paddr();
    assert_eq!(pa, BASE + PAGE_SIZE_4K);
    for off in [0usize, 1, 0xfff, 0x1000, 0x1fff] {
        assert_eq!(ms.translate(0x1000 + off), Ok((pa + off, rx_user(), PageSize::Size4K)));
        assert_eq!(ms.translate_va(0x1000 + off), Some(pa + off));
    }
    assert_eq!(ms.translate(0x3000), Err(MemoryError::Unmapped));
    assert_eq!(ms.translate_va(0xfff), None);
}

#[test]
fn map_copies_at_most_size_bytes() {
    let mut frames = FrameAllocator::new(BASE, 16).unwrap();
    let mut ms = MemorySet::new_empty(&mut frames).unwrap();
    let data = [1u8, 2, 3, 4, 5];
    ms.map_region_4k(&mut frames, 0x1000, 2, rw_user(), Some(&data)).unwrap();
    assert_eq!(&ms.areas[0].pages.as_slice()[..4], &[1, 2, 0, 0]);
}

#[test]
fn map_reports_conflict_and_exhaustion() {
    let mut frames = FrameAllocator::new(BASE, 4).unwrap();
    let mut ms = MemorySet::new_empty(&mut frames).unwrap();
    assert_eq!(ms.map_region_4k(&mut frames, 0x1000, 0x1000, rw_user(), None), Ok(0));
    assert_eq!(
        ms.map_region_4k(&mut frames, 0x1800, 0x10, rw_user(), None),
        Err(MemoryError::MappingConflict)
    );
    assert_eq!(
        ms.map_region_4k(&mut frames, 0x4000, 0x3000, rw_user(), None),
        Err(MemoryError::OutOfMemory)
    );
    assert_eq!(
        ms.map_region_4k(&mut frames, usize::MAX - 0xfff, 0x2000, rw_user(), None),
        Err(MemoryError::MappingConflict)
    );
    assert_eq!(
        ms.map_region_4k(&mut frames, 0x4000, usize::MAX, rw_user(), None),
        Err(MemoryError::MappingConflict)
    );
    assert_eq!(ms.areas.len(), 1);
    assert_eq!(ms.map_region_4k(&mut frames, 0x4000, 0x2000, rw_user(), None), Ok(1));
}

#[test]
fn fork_copies_bytes_onto_other_frames() {
    let mut frames = FrameAllocator::new(BASE, 32).unwrap();
    let mut kernel = PageTable::try_new(&mut frames).unwrap();
    kernel.map_region(0xffff_0000, BASE, 0x1000, rw_user()).unwrap();
    let mut src = MemorySet::new_from_kernel(&kernel, &mut frames).unwrap();
    src.map_region_4k(&mut frames, 0x1000, 0x2000, rx_user(), Some(&[1, 2, 3])).unwrap();
    src.map_region_4k(&mut frames, 0x5000, 0x1000, rw_user(), Some(&[9])).unwrap();
    let mut copy = MemorySet::new_from_task(&src, &kernel, &mut frames).unwrap();
    assert_eq!(copy.areas.len(), 2);
    for i in 0..2 {
        assert_eq!(copy.areas[i].start_va, src.areas[i].start_va);
        assert_eq!(copy.areas[i].flags, src.areas[i].flags);
        assert_eq!(copy.areas[i].pages.as_slice(), src.areas[i].pages.as_slice());
        let a = copy.areas[i].pages.start_paddr();
        let b = src.areas[i].pages.start_paddr();
        assert!(a >= b + src.areas[i].size() || b >= a + copy.areas[i].size());
    }
    assert_ne!(copy.page_table_token(), src.page_table_token());
    assert_eq!(copy.translate(0xffff_0010), Ok((BASE + 0x10, rw_user(), PageSize::Size4K)));
    assert_eq!(
        copy.translate(0x5000),
        Ok((copy.areas[1].pages.start_paddr(), rw_user(), PageSize::Size4K))
    );
    copy.areas[0].pages.fill(&[42], 1);
    assert_eq!(src.areas[0].pages.as_slice()[0], 1);
    src.areas[1].pages.fill(&[43], 1);
    assert_eq!(copy.areas[1].pages.as_slice()[0], 9);
}

#[test]
fn fork_fails_without_frames() {
    let mut frames = FrameAllocator::new(BASE, 4).unwrap();
    let kernel = PageTable::try_new(&mut frames).unwrap();
    let mut src = MemorySet::new_from_kernel(&kernel, &mut frames).unwrap();
    src.map_region_4k(&mut frames, 0x1000, 0x2000, rx_user(), None).unwrap();
    assert!(matches!(
        MemorySet::new_from_task(&src, &kernel, &mut frames),
        Err(MemoryError::OutOfMemory)
    ));
}

#[test]
fn a_failed_fork_gives_its_frames_back() {
    let mut frames = FrameAllocator::new(BASE, 8).unwrap();
    let kernel = PageTable::try_new(&mut frames).unwrap();
    let mut src = MemorySet::new_from_kernel(&kernel, &mut frames).unwrap();
    src.map_region_4k(&mut frames, 0x1000, 0x1000, rx_user(), None).unwrap();
    src.map_region_4k(&mut frames, 0x4000, 0x3000, rx_user(), None).unwrap();
    let before = frames.used.clone();
    assert!(matches!(
        MemorySet::new_from_task(&src, &kernel, &mut frames),
        Err(MemoryError::OutOfMemory)
    ));
    assert_eq!(frames.used, before);
    let mut frames = FrameAllocator::new(BASE, 32).unwrap();
    let kernel = PageTable::try_new(&mut frames).unwrap();
    let mut src = MemorySet::new_from_kernel(&kernel, &mut frames).unwrap();
    src.map_region_4k(&mut frames, 0x1000, 0x1000, rx_user(), None).unwrap();
    src.map_region_4k(&mut frames, 0x4000, 0x3000, rx_user(), None).unwrap();
    let mut low = PageTable::try_new(&mut frames).unwrap();
    low.map_region(0x5000, BASE, 0x1000, rw_user()).unwrap();
    let before = frames.used.clone();
    assert!(matches!(
        MemorySet::new_from_task(&src, &low, &mut frames),
        Err(MemoryError::MappingConflict)
    ));
    assert_eq!(frames.used, before);
}

#[test]
fn load_elf_places_heap_and_stack_above_the_segments() {
    let image = image_of(
        0x1040,
        &[(5, 0x1000, 0x1000, vec![0xaa, 0xbb]), (6, 0x2000, 0x1000, vec![0xcc])],
    );
    let mut frames = FrameAllocator::new(BASE, 32).unwrap();
    let mut ms = MemorySet::new_empty(&mut frames).unwrap();
    let (entry, stack_bottom, heap_bottom) =
        MemorySet::from_elf(&mut ms, &mut frames, &image).unwrap();
    assert_eq!(entry, 0x1040);
    assert_eq!(heap_bottom, 0x4000);
    assert_eq!(stack_bottom, 0x7000);
    assert!(heap_bottom > 0x3000);
    assert_eq!(heap_bottom % PAGE_SIZE_4K, 0);
    assert!(heap_bottom - 0x3000 >= PAGE_SIZE_4K);
    assert_eq!(ms.translate(0x3000), Err(MemoryError::Unmapped));
    assert!(stack_bottom >= heap_bottom + MAX_HEAP_SIZE + PAGE_SIZE_4K);
    assert_eq!(ms.translate(stack_bottom - 1), Err(MemoryError::Unmapped));
    assert_eq!(ms.translate(heap_bottom + MAX_HEAP_SIZE), Err(MemoryError::Unmapped));
    assert_eq!(ms.areas.len(), 4);
    assert_eq!(ms.areas[0].start_va, 0x1000);
    assert_eq!(ms.areas[0].flags, rx_user());
    assert_eq!(&ms.areas[0].pages.as_slice()[..3], &[0xaa, 0xbb, 0]);
    assert_eq!(ms.areas[1].start_va, 0x2000);
    assert_eq!(ms.areas[1].flags, rw_user());
    assert_eq!(&ms.areas[1].pages.as_slice()[..2], &[0xcc, 0]);
    assert_eq!(ms.areas[2].start_va, heap_bottom);
    assert_eq!(ms.areas[2].size(), MAX_HEAP_SIZE);
    assert_eq!(ms.areas[2].flags, rw_user());
    assert_eq!(ms.areas[3].start_va, stack_bottom);
    assert_eq!(ms.areas[3].size(), USER_STACK_SIZE);
    assert!(ms.translate(stack_bottom + USER_STACK_SIZE - 1).is_ok());
    assert!(ms.translate(heap_bottom).is_ok());
}

#[test]
fn load_elf_refuses_a_bad_image() {
    let mut frames = FrameAllocator::new(BASE, 32).unwrap();
    let mut ms = MemorySet::new_empty(&mut frames).unwrap();
    let mut image = image_of(0x1000, &[(5, 0x1000, 0x1000, vec![1])]);
    image[0] = 0x7e;
    assert_eq!(
        MemorySet::from_elf(&mut ms, &mut frames, &image),
        Err(MemoryError::InvalidExecutable)
    );
    assert_eq!(
        MemorySet::from_elf(&mut ms, &mut frames, &[0x7f, 0x45, 0x4c, 0x46]),
        Err(MemoryError::InvalidExecutable)
    );
    assert_eq!(MemorySet::from_elf(&mut ms, &mut frames, &[]), Err(MemoryError::InvalidExecutable));
    let mut cut = image_of(0x1000, &[(5, 0x1000, 0x1000, vec![1, 2, 3])]);
    cut.truncate(cut.len() - 1);
    assert_eq!(
        MemorySet::from_elf(&mut ms, &mut frames, &cut),
        Err(MemoryError::InvalidExecutable)
    );
    let mut short = image_of(0x1000, &[(5, 0x1000, 0x1000, vec![])]);
    short.truncate(100);
    assert_eq!(
        MemorySet::from_elf(&mut ms, &mut frames, &short),
        Err(MemoryError::InvalidExecutable)
    );
    let far = image_of(0x1000, &[(5, u64::MAX - 0x10, 0x1000, vec![])]);
    assert_eq!(
        MemorySet::from_elf(&mut ms, &mut frames, &far),
        Err(MemoryError::InvalidExecutable)
    );
    assert_eq!(ms.areas.len(), 0);
}

#[test]
fn load_elf_reads_an_image_at_any_address() {
    let image = image_of(0x1000, &[(7, 0x1000, 0x10, vec![5, 6])]);
    for shift in 0..9 {
        let mut padded = vec![0u8; shift];
        padded.extend_from_slice(&image);
        let mut frames = FrameAllocator::new(BASE, 32).unwrap();
        let mut ms = MemorySet::new_empty(&mut frames).unwrap();
        let r = MemorySet::from_elf(&mut ms, &mut frames, &padded[shift..]);
        assert_eq!(r, Ok((0x1000, 0x6000, 0x3000)));
        assert!(ms.areas[0].flags.execute && ms.areas[0].flags.write && ms.areas[0].flags.read);
    }
}

#[test]
fn load_elf_skips_segments_that_are_not_loadable() {
    let mut image = image_of(0x1000, &[(4, 0x1000, 0x10, vec![5]), (4, 0x8000, 0x10, vec![6])]);
    image[64] = 4;
    let mut frames = FrameAllocator::new(BASE, 32).unwrap();
    let mut ms = MemorySet::new_empty(&mut frames).unwrap();
    let r = MemorySet::from_elf(&mut ms, &mut frames, &image);
    assert_eq!(r, Ok((0x1000, 0xd000, 0xa000)));
    assert_eq!(ms.areas.len(), 3);
    assert_eq!(ms.areas[0].start_va, 0x8000);
}

#[test]
fn unmapping_keeps_the_regions_and_release_frees_them() {
    let mut frames = FrameAllocator::new(BASE, 8).unwrap();
    let mut ms = MemorySet::new_empty(&mut frames).unwrap();
    ms.map_region_4k(&mut frames, 0x1000, 0x2000, rw_user(), None).unwrap();
    ms.map_region_4k(&mut frames, 0x8000, 0x1000, rw_user(), None).unwrap();
    ms.unmap_user_areas();
    assert_eq!(ms.areas.len(), 2);
    assert_eq!(ms.translate(0x1000), Err(MemoryError::Unmapped));
    assert_eq!(ms.translate(0x8000), Err(MemoryError::Unmapped));
    assert_eq!(frames.alloc_contiguous(5), None);
    ms.release_areas(&mut frames);
    assert_eq!(ms.areas.len(), 0);
    assert_eq!(frames.alloc_contiguous(7), Some(BASE + PAGE_SIZE_4K));
}
