use axcore::addr::{num_pages, PAGE_SIZE_4K};
use axcore::areas::MapArea;
use axcore::flags::MappingFlags;
use axcore::frames::{FrameAllocator, GlobalPage};
use axcore::memory_set::{MemoryError, MemorySet};
use axcore::page_table::PageSize;
use axcore::stack::{fill_stack, plan_stack};

const BASE: usize = 0x8000_0000;

fn rw_user() -> MappingFlags {
    MappingFlags::user_data()
}

fn rx_user() -> MappingFlags {
    MappingFlags { read: true, write: false, execute: true, user: true, device: false }
}

/// An address space with one region over `[0x1000, 0x4000)` whose byte at
/// offset `i` is `i % 251`.
fn one_region(frames: &mut FrameAllocator) -> MemorySet {
    let mut ms = MemorySet::new_empty(frames).unwrap();
    let data: Vec<u8> = (0..0x3000usize).map(|i| (i % 251) as u8).collect();
    ms.map_region_4k(frames, 0x1000, 0x3000, rx_user(), Some(&data)).unwrap();
    ms
}

fn used(frames: &FrameAllocator) -> usize {
    frames.used.iter().filter(|u| **u).count()
}

#[test]
fn carve_inside_a_region_splits_it() {
    let mut frames = FrameAllocator::new(BASE, 16).unwrap();
    let mut ms = one_region(&mut frames);
    let pa = ms.areas[0].pages.start_paddr();
    let before = used(&frames);
    assert_eq!(ms.split_for_area(&mut frames, 0x2000, 0x1000, rw_user()), Ok(()));
    assert_eq!(ms.areas.len(), 2);
    assert_eq!(ms.areas[0].start_va, 0x1000);
    assert_eq!(ms.areas[0].size(), 0x1000);
    assert_eq!(ms.areas[0].flags, rx_user());
    assert_eq!(ms.areas[0].pages.start_paddr(), pa);
    assert_eq!(ms.areas[1].start_va, 0x3000);
    assert_eq!(ms.areas[1].size(), 0x1000);
    assert_eq!(ms.areas[1].flags, rx_user());
    assert_eq!(ms.areas[1].pages.start_paddr(), pa + 0x2000);
    assert_eq!(ms.areas[0].pages.as_slice()[5], 5);
    assert_eq!(ms.areas[1].pages.as_slice()[5], ((0x2000 + 5) % 251) as u8);
    assert_eq!(ms.translate(0x1fff), Ok((pa + 0xfff, rx_user(), PageSize::Size4K)));
    assert_eq!(ms.translate(0x2000), Err(MemoryError::Unmapped));
    assert_eq!(ms.translate(0x2fff), Err(MemoryError::Unmapped));
    assert_eq!(ms.translate(0x3000), Ok((pa + 0x2000, rx_user(), PageSize::Size4K)));
    assert_eq!(used(&frames), before - 1);
    assert_eq!(ms.map_region_4k(&mut frames, 0x2000, 0x1000, rw_user(), None), Ok(2));
    assert_eq!(ms.areas[2].pages.start_paddr(), pa + 0x1000);
}

#[test]
fn carve_over_a_region_drops_it() {
    let mut frames = FrameAllocator::new(BASE, 16).unwrap();
    let mut ms = one_region(&mut frames);
    let before = used(&frames);
    assert_eq!(ms.split_for_area(&mut frames, 0x0, 0x5000, rw_user()), Ok(()));
    assert_eq!(ms.areas.len(), 0);
    assert_eq!(ms.translate(0x1000), Err(MemoryError::Unmapped));
    assert_eq!(used(&frames), before - 3);
}

#[test]
fn carve_over_the_head_moves_the_start() {
    let mut frames = FrameAllocator::new(BASE, 16).unwrap();
    let mut ms = one_region(&mut frames);
    let pa = ms.areas[0].pages.start_paddr();
    assert_eq!(ms.split_for_area(&mut frames, 0x0, 0x2000, rw_user()), Ok(()));
    assert_eq!(ms.areas.len(), 1);
    assert_eq!(ms.areas[0].start_va, 0x2000);
    assert_eq!(ms.areas[0].size(), 0x2000);
    assert_eq!(ms.areas[0].pages.start_paddr(), pa + 0x1000);
    assert_eq!(ms.areas[0].pages.as_slice()[0], (0x1000 % 251) as u8);
    assert_eq!(ms.translate(0x1000), Err(MemoryError::Unmapped));
    assert_eq!(ms.translate(0x2000), Ok((pa + 0x1000, rx_user(), PageSize::Size4K)));
}

#[test]
fn carve_over_the_tail_moves_the_end() {
    let mut frames = FrameAllocator::new(BASE, 16).unwrap();
    let mut ms = one_region(&mut frames);
    let pa = ms.areas[0].pages.start_paddr();
    assert_eq!(ms.split_for_area(&mut frames, 0x3000, 0x8000, rw_user()), Ok(()));
    assert_eq!(ms.areas.len(), 1);
    assert_eq!(ms.areas[0].start_va, 0x1000);
    assert_eq!(ms.areas[0].size(), 0x2000);
    assert_eq!(ms.areas[0].pages.start_paddr(), pa);
    assert_eq!(ms.translate(0x2fff), Ok((pa + 0x1fff, rx_user(), PageSize::Size4K)));
    assert_eq!(ms.translate(0x3000), Err(MemoryError::Unmapped));
}

#[test]
fn carve_beside_a_region_leaves_it() {
    let mut frames = FrameAllocator::new(BASE, 16).unwrap();
    let mut ms = one_region(&mut frames);
    let before = used(&frames);
    assert_eq!(ms.split_for_area(&mut frames, 0x4000, 0x1000, rw_user()), Ok(()));
    assert_eq!(ms.split_for_area(&mut frames, 0x0, 0x1000, rw_user()), Ok(()));
    assert_eq!(ms.split_for_area(&mut frames, 0x2000, 0, rw_user()), Ok(()));
    assert_eq!(ms.areas.len(), 1);
    assert_eq!(ms.areas[0].size(), 0x3000);
    assert_eq!(used(&frames), before);
    assert_eq!(
        ms.split_for_area(&mut frames, usize::MAX - 0x10, 0x100, rw_user()),
        Err(MemoryError::BadAddress)
    );
}

#[test]
fn carve_rounds_the_range_out_to_pages() {
    let mut frames = FrameAllocator::new(BASE, 16).unwrap();
    let mut ms = one_region(&mut frames);
    assert_eq!(ms.split_for_area(&mut frames, 0x2800, 0x10, rw_user()), Ok(()));
    assert_eq!(ms.areas.len(), 2);
    assert_eq!((ms.areas[0].start_va, ms.areas[0].size()), (0x1000, 0x1000));
    assert_eq!((ms.areas[1].start_va, ms.areas[1].size()), (0x3000, 0x1000));
}

#[test]
fn regions_overlap_when_they_meet() {
    let mut frames = FrameAllocator::new(BASE, 4).unwrap();
    let pages = GlobalPage::alloc_contiguous(&mut frames, 1).unwrap();
    let area = MapArea::new(pages, rw_user(), 0x2000);
    assert_eq!(area.size(), 0x1000);
    assert!(area.overlap_with(0x2000, 0x3000));
    assert!(area.overlap_with(0x1000, 0x2000));
    assert!(area.overlap_with(0x3000, 0x4000));
    assert!(!area.overlap_with(0x0, 0x1fff));
    assert!(!area.overlap_with(0x3001, 0x4000));
}

#[test]
fn page_counts() {
    assert_eq!(num_pages(0), 0);
    assert_eq!(num_pages(1), 1);
    assert_eq!(num_pages(PAGE_SIZE_4K), 1);
    assert_eq!(num_pages(PAGE_SIZE_4K + 1), 2);
}

#[test]
fn mapping_flags_are_sets() {
    let e = MappingFlags::empty();
    assert!(rw_user().contains(e));
    assert!(!e.contains(rw_user()));
    let all = rw_user().union(rx_user());
    assert!(all.read && all.write && all.execute && all.user && !all.device);
    assert!(all.contains(rx_user()));
    assert!(!rx_user().contains(rw_user()));
}

#[test]
fn user_memory_is_read_through_the_page_table() {
    let mut frames = FrameAllocator::new(BASE, 16).unwrap();
    let mut ms = MemorySet::new_empty(&mut frames).unwrap();
    ms.map_region_4k(&mut frames, 0x1000, 0x1000, rw_user(), Some(b"hi\0")).unwrap();
    ms.map_region_4k(&mut frames, 0x2000, 0x1000, rw_user(), None).unwrap();
    assert_eq!(ms.locate(0x1001), Some((0, 1)));
    assert_eq!(ms.locate(0x2fff), Some((1, 0xfff)));
    assert_eq!(ms.locate(0x3000), None);
    assert_eq!(ms.read_byte(0x1000), Some(b'h'));
    assert_eq!(ms.read_byte(0x0fff), None);
    assert_eq!(ms.translate_str(0x1000).unwrap(), "hi");
    assert_eq!(ms.translate_str(0x1002).unwrap(), "");
    assert_eq!(ms.translate_str(0x5000), Err(MemoryError::BadAddress));
    ms.write_area(0, 0xffe, b"ab");
    ms.write_area(1, 0, b"cd\0");
    assert_eq!(ms.translate_str(0x1ffe).unwrap(), "abcd");
    ms.write_area(1, 0, &[0xe9; 0x1000]);
    assert_eq!(ms.translate_str(0x2ffe), Err(MemoryError::BadAddress));
    ms.unmap_user_areas();
    assert_eq!(ms.translate_str(0x1000), Err(MemoryError::BadAddress));
    assert_eq!(ms.locate(0x1000), None);
}

#[test]
fn a_text_of_high_bytes_is_read_byte_for_character() {
    let mut frames = FrameAllocator::new(BASE, 16).unwrap();
    let mut ms = MemorySet::new_empty(&mut frames).unwrap();
    ms.map_region_4k(&mut frames, 0x1000, 0x1000, rw_user(), Some(&[0xe9, 0x41, 0])).unwrap();
    assert_eq!(ms.translate_str(0x1000).unwrap(), "\u{e9}A");
}

#[test]
fn stack_plan_places_arguments_below_the_pointers() {
    let args = vec![b"ab".to_vec(), b"cde".to_vec()];
    let plan = plan_stack(0x8000, 0x1000, &args, true).unwrap();
    assert_eq!(plan.argv_base, 0x7fe8);
    assert_eq!(plan.ptrs, vec![0x7fe0, 0x7fd8]);
    assert_eq!(plan.sp, 0x7fd8);
    let image = fill_stack(&plan, 0x8000, &args, true);
    assert_eq!(image.len(), 0x28);
    assert_eq!(&image[..8], b"cde\0\0\0\0\0");
    assert_eq!(&image[8..16], b"ab\0\0\0\0\0\0");
    assert_eq!(&image[16..24], &0x7fe0u64.to_le_bytes());
    assert_eq!(&image[24..32], &0x7fd8u64.to_le_bytes());
    assert_eq!(&image[32..], &[0u8; 8]);
    let plain = plan_stack(0x8000, 0x1000, &args, false).unwrap();
    assert_eq!(plain.ptrs, vec![0x7fe5, 0x7fe1]);
    assert_eq!(plain.sp, 0x7fe0);
    let image = fill_stack(&plain, 0x8000, &args, false);
    assert_eq!(&image[..8], b"\0cde\0ab\0");
}

#[test]
fn stack_plan_knows_its_limit() {
    let none: Vec<Vec<u8>> = vec![];
    let plan = plan_stack(0x8000, 8, &none, true).unwrap();
    assert_eq!((plan.sp, plan.argv_base), (0x7ff8, 0x7ff8));
    assert_eq!(fill_stack(&plan, 0x8000, &none, true), vec![0u8; 8]);
    assert!(plan_stack(0x8000, 7, &none, true).is_none());
    let one = vec![vec![b'x'; 0xfe7]];
    assert_eq!(plan_stack(0x8000, 0x1000, &one, false).unwrap().sp, 0x7008);
    let fits = vec![vec![b'x'; 0xfef]];
    let plan = plan_stack(0x8000, 0x1000, &fits, false).unwrap();
    assert_eq!(plan.sp, 0x7000);
    let tight = vec![vec![b'x'; 0xff0]];
    assert!(plan_stack(0x8000, 0x1000, &tight, false).is_none());
    let many: Vec<Vec<u8>> = (0..600).map(|_| Vec::new()).collect();
    assert!(plan_stack(0x8000, 0x1000, &many, true).is_none());
}

#[test]
fn an_empty_region_takes_no_frame() {
    let mut frames = FrameAllocator::new(BASE, 4).unwrap();
    let mut ms = MemorySet::new_empty(&mut frames).unwrap();
    assert_eq!(frames.first_free(), Some(1));
    assert_eq!(ms.map_region_4k(&mut frames, 0x1234, 0, rw_user(), Some(&[1, 2])), Ok(0));
    assert_eq!(ms.areas[0].start_va, 0x1000);
    assert_eq!(ms.areas[0].size(), 0);
    assert_eq!(ms.translate(0x1000), Err(MemoryError::Unmapped));
    assert_eq!(used(&frames), 1);
    assert_eq!(ms.map_region_4k(&mut frames, 0x1000, 0x3000, rw_user(), None), Ok(1));
    assert_eq!(frames.first_free(), None);
    let copy = MemorySet::new_from_task(&ms, &axcore::page_table::PageTable {
        root: 0,
        entries: std::collections::HashMap::new(),
    }, &mut frames);
    assert!(matches!(copy, Err(MemoryError::OutOfMemory)));
    assert_eq!(used(&frames), 4);
}
