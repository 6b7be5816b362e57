//! The kernel remap over a synthetic ELF layout.
use early_paging::area_frame_allocator::{AreaFrameAllocator, MemoryArea};
use early_paging::page::Page;
use early_paging::paging::{remap_the_kernel, ActivePageTable, BootData, ElfSectionInfo};
use early_paging::layout::{KERNEL_VMA, VGA_BUFFER_VMA};
use early_paging::entry::{ADDRESS_MASK, FLAGS_MASK, PRESENT, WRITABLE, NO_EXECUTE};

/// The raw P1 entry of a 4 KiB mapping, walked through the installed
/// hierarchy by hand.
fn p1_entry(active: &ActivePageTable, address: u64) -> u64 {
    let page = Page::containing_address(address);
    let e4 = active.mapper.entry_in_frame(active.cr3, page.p4_index());
    assert!(e4 & PRESENT != 0);
    let e3 = active.mapper.entry_in_frame((e4 & ADDRESS_MASK) >> 12, page.p3_index());
    assert!(e3 & PRESENT != 0);
    let e2 = active.mapper.entry_in_frame((e3 & ADDRESS_MASK) >> 12, page.p2_index());
    assert!(e2 & PRESENT != 0);
    active.mapper.entry_in_frame((e2 & ADDRESS_MASK) >> 12, page.p1_index())
}

#[test]
fn remap_applies_section_flags_and_unmaps_the_guard() {
    let mut active = ActivePageTable::new(0x40);
    let areas = vec![MemoryArea { base_addr: 0x200_0000, length: 0x10_0000 }];
    let mut allocator = AreaFrameAllocator::new(0x0, 0xfff, 0x1000, 0x1fff, areas);
    let boot_info = BootData {
        elf_sections: vec![
            // one executable read-only section of two pages
            ElfSectionInfo {
                start_address: KERNEL_VMA,
                end_address: KERNEL_VMA + 0x2000,
                allocated: true,
                writable: false,
                executable: true,
            },
            // one writable data section of one page
            ElfSectionInfo {
                start_address: KERNEL_VMA + 0x2000,
                end_address: KERNEL_VMA + 0x3000,
                allocated: true,
                writable: true,
                executable: false,
            },
            // the stack area holding the guard page
            ElfSectionInfo {
                start_address: KERNEL_VMA + 0x3000,
                end_address: KERNEL_VMA + 0x5000,
                allocated: true,
                writable: true,
                executable: false,
            },
            // a debug section that is not allocated and must be skipped
            ElfSectionInfo {
                start_address: KERNEL_VMA + 0x100000,
                end_address: KERNEL_VMA + 0x101000,
                allocated: false,
                writable: false,
                executable: false,
            },
        ],
        multiboot_start: KERNEL_VMA + 0x31000,
        multiboot_end: KERNEL_VMA + 0x32000,
    };
    let guard_page_addr = KERNEL_VMA + 0x3000;
    remap_the_kernel(&mut active, &mut allocator, &boot_info, guard_page_addr);

    // the executable read-only pages: present, not writable, executable
    for offset in [0x0u64, 0x1000] {
        let entry = p1_entry(&active, KERNEL_VMA + offset);
        assert!(entry & PRESENT != 0);
        assert_eq!(entry & WRITABLE, 0);
        assert_eq!(entry & NO_EXECUTE, 0);
        assert_eq!(active.mapper.translate(KERNEL_VMA + offset), Some(offset));
    }
    // the data page: present, writable, not executable
    let data_entry = p1_entry(&active, KERNEL_VMA + 0x2000);
    assert!(data_entry & PRESENT != 0);
    assert!(data_entry & WRITABLE != 0);
    assert!(data_entry & NO_EXECUTE != 0);
    assert_eq!(active.mapper.translate(KERNEL_VMA + 0x2000), Some(0x2000));
    // the framebuffer translates to the VGA buffer, writable
    assert_eq!(active.mapper.translate(VGA_BUFFER_VMA), Some(0xb8000));
    let vga_entry = p1_entry(&active, VGA_BUFFER_VMA);
    assert!(vga_entry & WRITABLE != 0);
    // the multiboot blob is mapped present-only
    assert_eq!(
        active.mapper.translate(KERNEL_VMA + 0x31000),
        Some(0x31000)
    );
    let mb_entry = p1_entry(&active, KERNEL_VMA + 0x31000);
    assert_eq!(mb_entry & FLAGS_MASK, PRESENT);
    // the guard page does not translate, its neighbor still does
    assert_eq!(active.mapper.translate(guard_page_addr), None);
    assert_eq!(active.mapper.translate(KERNEL_VMA + 0x4000), Some(0x4000));
    // the skipped debug section was not mapped
    assert_eq!(active.mapper.translate(KERNEL_VMA + 0x100000), None);
}
