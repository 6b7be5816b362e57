//! Mapping, unmapping and the bracket that edits an inactive hierarchy.
use early_paging::area_frame_allocator::{AreaFrameAllocator, MemoryArea};
use early_paging::frame::{Frame, FrameAllocator};
use early_paging::page::Page;
use early_paging::paging::{ActivePageTable, InactivePageTable};
use early_paging::temporary_page::{TemporaryPage, TinyAllocator};
use early_paging::layout::TEMP_PAGE;
use early_paging::entry::WRITABLE;

fn test_allocator() -> AreaFrameAllocator {
    // frames 0x2000..0x20ff, far away from the frames tests pick for P4s
    let areas = vec![MemoryArea { base_addr: 0x200_0000, length: 0x10_0000 }];
    AreaFrameAllocator::new(0x0, 0xfff, 0x1000, 0x1fff, areas)
}

#[test]
fn map_to_then_translate_hits_the_frame() {
    let mut active = ActivePageTable::new(0x40);
    let mut allocator = test_allocator();
    let page = Page::containing_address(0xffff_ffff_8010_0000);
    active.mapper.map_to(page, Frame { number: 0x1000 }, 0, &mut allocator);
    assert_eq!(active.mapper.translate(0xffff_ffff_8010_0abc), Some(0x100_0abc));
    assert_eq!(active.mapper.translate(0xffff_ffff_8010_0000), Some(0x100_0000));
    assert_eq!(
        active.mapper.translate_page(page),
        Some(Frame::containing_address(0x100_0000))
    );
}

#[test]
fn unmap_then_translate_yields_none() {
    let mut active = ActivePageTable::new(0x40);
    let mut allocator = test_allocator();
    let page = Page::containing_address(0xffff_ffff_8010_0000);
    active.mapper.map_to(page, Frame { number: 0x1000 }, WRITABLE, &mut allocator);
    assert!(active.mapper.translate(0xffff_ffff_8010_0abc).is_some());
    active.mapper.unmap(page, &mut allocator);
    assert_eq!(active.mapper.translate(0xffff_ffff_8010_0abc), None);
    assert_eq!(active.mapper.translate_page(page), None);
}

#[test]
fn mapping_one_page_leaves_its_neighbors_unmapped() {
    let mut active = ActivePageTable::new(0x40);
    let mut allocator = test_allocator();
    let page = Page::containing_address(0xffff_ffff_8010_0000);
    active.mapper.map_to(page, Frame { number: 0x1000 }, 0, &mut allocator);
    assert_eq!(active.mapper.translate(0xffff_ffff_800f_f000), None);
    assert_eq!(active.mapper.translate(0xffff_ffff_8010_1000), None);
}

#[test]
fn inactive_table_holds_only_its_recursive_slot() {
    let mut active = ActivePageTable::new(0x40);
    let mut allocator = test_allocator();
    let mut temporary_page =
        TemporaryPage::new(Page::containing_address(TEMP_PAGE), &mut allocator);
    let frame = allocator.allocate_frame().unwrap();
    let f = frame.number;
    let _inactive = InactivePageTable::new(frame, &mut active, &mut temporary_page);
    // slot 510 points at the frame itself, present and writable
    assert_eq!(active.mapper.entry_in_frame(f, 510), f * 4096 + 3);
    for i in 0..512usize {
        if i != 510 {
            assert_eq!(active.mapper.entry_in_frame(f, i), 0);
        }
    }
}

#[test]
fn with_bracket_swaps_and_restores_the_recursive_slot() {
    let p4: u64 = 0x40;
    let mut active = ActivePageTable::new(p4);
    let mut allocator = test_allocator();
    let mut temporary_page =
        TemporaryPage::new(Page::containing_address(TEMP_PAGE), &mut allocator);
    let frame = allocator.allocate_frame().unwrap();
    let inactive_frame = frame.number;
    let inactive = InactivePageTable::new(frame, &mut active, &mut temporary_page);
    let full_before = active.mapper.full_flush_count();
    let backup = active.begin_with(&inactive, &mut temporary_page);
    // slot 510 of the active P4 temporarily holds the inactive frame
    assert_eq!(
        active.mapper.entry_in_frame(p4, 510),
        inactive_frame * 4096 + 3
    );
    active.end_with(backup, &mut temporary_page);
    // after the bracket it holds the original backup again
    assert_eq!(active.mapper.entry_in_frame(p4, 510), p4 * 4096 + 3);
    // and the whole TLB was flushed exactly twice
    assert_eq!(active.mapper.full_flush_count() - full_before, 2);
}

#[test]
fn tiny_allocator_serves_three_frames_and_takes_one_back() {
    let mut source = test_allocator();
    let mut tiny = TinyAllocator::new(&mut source);
    let first = tiny.allocate_frame().unwrap();
    let second = tiny.allocate_frame().unwrap();
    let third = tiny.allocate_frame().unwrap();
    assert!(tiny.allocate_frame().is_none());
    assert!(first.number != second.number && second.number != third.number);
    let returned = first.number;
    tiny.deallocate_frame(first);
    let again = tiny.allocate_frame().unwrap();
    assert_eq!(again.number, returned);
    let _ = (second, third);
}

#[test]
fn translation_keeps_the_offset_inside_the_page() {
    let mut active = ActivePageTable::new(0x40);
    let mut allocator = test_allocator();
    let page = Page::containing_address(0xffff_ffff_8020_0000);
    active.mapper.map_to(page, Frame { number: 0x77 }, 0, &mut allocator);
    for k in [0u64, 1, 0x7ff, 0xfff] {
        assert_eq!(
            active.mapper.translate(0xffff_ffff_8020_0000 + k),
            Some(0x77 * 4096 + k)
        );
    }
}
