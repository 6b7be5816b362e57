//! The bootstrap frame allocator, observed frame by frame.
use early_paging::area_frame_allocator::{AreaFrameAllocator, MemoryArea};
use early_paging::frame::{Frame, FrameAllocator, FrameIter};

#[test]
fn allocation_skips_kernel_and_multiboot_ranges() {
    // One region of a megabyte, kernel in [0x10000, 0x20000), multiboot
    // in [0x30000, 0x31000): the first sixteen frames are 0..=15, the
    // next sixteen are 32..=47, and the next one is 49.
    let areas = vec![MemoryArea { base_addr: 0x0, length: 0x10_0000 }];
    let mut allocator = AreaFrameAllocator::new(0x10000, 0x1ffff, 0x30000, 0x30fff, areas);
    for i in 0u64..16 {
        assert_eq!(allocator.allocate_frame(), Some(Frame { number: i }));
    }
    for i in 32u64..48 {
        assert_eq!(allocator.allocate_frame(), Some(Frame { number: i }));
    }
    assert_eq!(allocator.allocate_frame(), Some(Frame { number: 49 }));
}

#[test]
fn allocation_is_strictly_increasing_across_regions() {
    let areas = vec![
        MemoryArea { base_addr: 0x5000, length: 0x2000 },
        MemoryArea { base_addr: 0x1000, length: 0x1000 },
    ];
    let mut allocator = AreaFrameAllocator::new(0x100000, 0x100fff, 0x200000, 0x200fff, areas);
    let mut last: Option<u64> = None;
    loop {
        match allocator.allocate_frame() {
            Some(frame) => {
                if let Some(prev) = last {
                    assert!(frame.number > prev);
                }
                last = Some(frame.number);
            },
            None => break,
        }
    }
    // frames 1 (low region), then 5 and 6 (high region)
    assert_eq!(last, Some(6));
}

#[test]
fn exhaustion_yields_none_forever() {
    let areas = vec![MemoryArea { base_addr: 0x0, length: 0x2000 }];
    let mut allocator = AreaFrameAllocator::new(0x100000, 0x100fff, 0x200000, 0x200fff, areas);
    assert_eq!(allocator.allocate_frame(), Some(Frame { number: 0 }));
    assert_eq!(allocator.allocate_frame(), Some(Frame { number: 1 }));
    assert_eq!(allocator.allocate_frame(), None);
    assert_eq!(allocator.allocate_frame(), None);
}

#[test]
fn deallocation_is_ignored_by_the_bootstrap_allocator() {
    let areas = vec![MemoryArea { base_addr: 0x0, length: 0x4000 }];
    let mut allocator = AreaFrameAllocator::new(0x100000, 0x100fff, 0x200000, 0x200fff, areas);
    let first = allocator.allocate_frame().unwrap();
    assert_eq!(first.number, 0);
    allocator.deallocate_frame(first);
    // the frame does not come back: the watermark only grows
    assert_eq!(allocator.allocate_frame(), Some(Frame { number: 1 }));
}

#[test]
fn frame_ranges_walk_all_frames_inclusively() {
    let mut iter: FrameIter =
        Frame::range_inclusive(Frame { number: 5 }, Frame { number: 8 });
    for expected in 5u64..=8 {
        assert_eq!(iter.next(), Some(Frame { number: expected }));
    }
    assert_eq!(iter.next(), None);
    assert_eq!(iter.next(), None);
}
