//! The bootstrap physical-frame allocator.
//!
//! A watermark allocator over the memory regions reported by the
//! bootloader: frames come out in strictly ascending order, and frames of
//! the kernel image or of the Multiboot information blob are skipped.
use vstd::prelude::*;
use crate::frame::{Frame, FrameAllocator, MAX_FRAME_NUMBER};
use crate::layout::PAGE_SIZE;

verus! {

/// One region of usable physical memory reported by the bootloader.
#[derive(Debug, Clone, Copy, PartialEq, Eq, Structural)]
pub struct MemoryArea {
    pub base_addr: u64,
    pub length: u64,
}

/// A region is well formed when it covers at least one byte and its last
/// byte has a 64-bit address.
pub open spec fn area_wf(area: MemoryArea) -> bool {
    1 <= area.length && area.base_addr + area.length - 1 <= u64::MAX
}

/// Number of the first frame that intersects the region.
pub open spec fn area_first_frame(area: MemoryArea) -> u64 {
    area.base_addr / PAGE_SIZE
}

/// Number of the last frame that intersects the region.
pub open spec fn area_last_frame(area: MemoryArea) -> u64 {
    ((area.base_addr + area.length - 1) as u64) / PAGE_SIZE
}

/// Whether frame `n` intersects the region.
pub open spec fn area_contains(area: MemoryArea, n: u64) -> bool {
    area_first_frame(area) <= n <= area_last_frame(area)
}

/// The bootstrap allocator: a watermark over bootloader-reported regions.
pub struct AreaFrameAllocator {
    next_free_frame: Frame,
    current_area: Option<MemoryArea>,
    areas: Vec<MemoryArea>,
    kernel_start: Frame,
    kernel_end: Frame,
    multiboot_start: Frame,
    multiboot_end: Frame,
}

impl AreaFrameAllocator {
    /// The watermark: no frame below it is ever returned again.
    pub closed spec fn watermark(&self) -> u64 {
        self.next_free_frame.num()
    }

    /// The currently selected region.
    pub closed spec fn spec_current(&self) -> Option<MemoryArea> {
        self.current_area
    }

    /// Termination measure for allocation: one when the selected region is
    /// exhausted and must be re-selected, else zero.
    pub open spec fn stale_measure(&self) -> int {
        match self.spec_current() {
            None => 0,
            Some(a) => if self.watermark() <= area_last_frame(a) {
                0
            } else {
                1
            },
        }
    }

    /// The regions the allocator draws from.
    pub closed spec fn regions(&self) -> Seq<MemoryArea> {
        self.areas@
    }

    /// First frame of the reserved kernel image.
    pub closed spec fn kernel_first(&self) -> u64 {
        self.kernel_start.num()
    }

    /// Last frame of the reserved kernel image.
    pub closed spec fn kernel_last(&self) -> u64 {
        self.kernel_end.num()
    }

    /// First frame of the reserved Multiboot information blob.
    pub closed spec fn multiboot_first(&self) -> u64 {
        self.multiboot_start.num()
    }

    /// Last frame of the reserved Multiboot information blob.
    pub closed spec fn multiboot_last(&self) -> u64 {
        self.multiboot_end.num()
    }

    /// Whether frame `n` lies in one of the two reserved ranges.
    pub open spec fn reserved(&self, n: u64) -> bool {
        (self.kernel_first() <= n <= self.kernel_last()) || (self.multiboot_first() <= n
            <= self.multiboot_last())
    }

    /// Whether frame `n` lies in one of the regions.
    pub open spec fn in_some_region(&self, n: u64) -> bool {
        exists|i: int|
            0 <= i < self.regions().len() && area_contains(#[trigger] self.regions()[i], n)
    }

    /// The frames at or above `w` that lie in a region and are not reserved.
    pub open spec fn frames_above(&self, w: u64) -> Set<u64> {
        Set::new(|n: u64| w <= n && self.in_some_region(n) && !self.reserved(n))
    }

    /// All regions are well formed and the reserved bounds are frames.
    pub closed spec fn base_inv(&self) -> bool {
        &&& forall|i: int|
            0 <= i < self.regions().len() ==> area_wf(#[trigger] self.regions()[i])
        &&& self.kernel_start.wf()
        &&& self.kernel_end.wf()
        &&& self.multiboot_start.wf()
        &&& self.multiboot_end.wf()
    }

    /// The selected region, when there is one, is a region whose first
    /// frame lies at or below the watermark after the selection snap; when
    /// there is none, every region ends below the watermark.
    pub closed spec fn area_coherent(&self) -> bool {
        match self.current_area {
            None => forall|i: int|
                0 <= i < self.regions().len() ==> area_last_frame(#[trigger] self.regions()[i])
                    < self.watermark(),
            Some(a) => (exists|i: int|
                0 <= i < self.regions().len() && #[trigger] self.regions()[i] == a)
                && area_first_frame(a) <= self.watermark(),
        }
    }

    /// Build an allocator over the given regions, with the kernel image in
    /// `[kernel_start, kernel_end]` and the Multiboot blob in
    /// `[multiboot_start, multiboot_end]`, bounds given as byte addresses
    /// of the first and last byte of each.
    pub fn new(
        kernel_start: u64,
        kernel_end: u64,
        multiboot_start: u64,
        multiboot_end: u64,
        memory_areas: Vec<MemoryArea>,
    ) -> (r: AreaFrameAllocator)
        requires
            forall|i: int|
                0 <= i < memory_areas@.len() ==> area_wf(#[trigger] memory_areas@[i]),
        ensures
            r.inv(),
            r.regions() == memory_areas@,
            r.kernel_first() == kernel_start / PAGE_SIZE,
            r.kernel_last() == kernel_end / PAGE_SIZE,
            r.multiboot_first() == multiboot_start / PAGE_SIZE,
            r.multiboot_last() == multiboot_end / PAGE_SIZE,
            r.avail() == r.frames_above(0),
            // the lowest-based region is selected, and the watermark sits
            // on its first frame; with no region at all, allocation is
            // exhausted from the start
            match r.spec_current() {
                None => r.regions().len() == 0 && r.watermark() == 0,
                Some(a) => (exists|j: int|
                    0 <= j < r.regions().len() && #[trigger] r.regions()[j] == a) && (forall|
                    j: int,
                |
                    0 <= j < r.regions().len() ==> (#[trigger] r.regions()[j]).base_addr
                        >= a.base_addr) && r.watermark() == area_first_frame(a),
            },
    {
        let mut allocator = AreaFrameAllocator {
            next_free_frame: Frame::containing_address(0),
            current_area: None,
            areas: memory_areas,
            kernel_start: Frame::containing_address(kernel_start),
            kernel_end: Frame::containing_address(kernel_end),
            multiboot_start: Frame::containing_address(multiboot_start),
            multiboot_end: Frame::containing_address(multiboot_end),
        };
        allocator.choose_next_area();
        proof {
            match allocator.spec_current() {
                None => {
                    if allocator.regions().len() > 0 {
                        assert(area_last_frame(allocator.regions()[0]) < 0);
                    }
                },
                Some(a) => {
                    assert forall|j: int|
                        0 <= j < allocator.regions().len() implies (
                    #[trigger] allocator.regions()[j]).base_addr >= a.base_addr by {
                        assert(area_last_frame(allocator.regions()[j]) >= 0);
                    };
                    assert(allocator.watermark() == area_first_frame(a));
                },
            }
        }
        allocator
    }

    /// Select the lowest-based region that still contains frames at or
    /// above the watermark, snapping the watermark up to its first frame;
    /// with no such region left, allocation is exhausted.
    fn choose_next_area(&mut self)
        requires
            old(self).base_inv(),
        ensures
            final(self).inv(),
            final(self).frames_above(final(self).watermark()) == old(self).frames_above(
                old(self).watermark(),
            ),
            final(self).watermark() >= old(self).watermark(),
            final(self).regions() == old(self).regions(),
            final(self).kernel_first() == old(self).kernel_first(),
            final(self).kernel_last() == old(self).kernel_last(),
            final(self).multiboot_first() == old(self).multiboot_first(),
            final(self).multiboot_last() == old(self).multiboot_last(),
            match final(self).spec_current() {
                None => (forall|j: int|
                    0 <= j < old(self).regions().len() ==> area_last_frame(
                        #[trigger] old(self).regions()[j],
                    ) < old(self).watermark()) && final(self).watermark() == old(
                    self,
                ).watermark(),
                Some(a) => {
                    &&& final(self).watermark() <= area_last_frame(a)
                    &&& area_last_frame(a) >= old(self).watermark()
                    &&& exists|j: int|
                        0 <= j < old(self).regions().len() && #[trigger] old(self).regions()[j]
                            == a
                    &&& forall|j: int|
                        0 <= j < old(self).regions().len() && area_last_frame(
                            #[trigger] old(self).regions()[j],
                        ) >= old(self).watermark() ==> old(self).regions()[j].base_addr
                            >= a.base_addr
                    &&& final(self).watermark() == if old(self).watermark() >= area_first_frame(
                        a,
                    ) {
                        old(self).watermark()
                    } else {
                        area_first_frame(a)
                    }
                },
            },
    {
        let watermark: u64 = self.next_free_frame.number;
        let mut best: Option<MemoryArea> = None;
        let mut i: usize = 0;
        while i < self.areas.len()
            invariant
                *self == *old(self),
                watermark == self.watermark(),
                self.base_inv(),
                0 <= i <= self.areas@.len(),
                match best {
                    None => forall|j: int|
                        0 <= j < i ==> area_last_frame(#[trigger] self.regions()[j]) < watermark,
                    Some(b) => {
                        &&& exists|k: int|
                            0 <= k < self.regions().len() && #[trigger] self.regions()[k] == b
                        &&& area_last_frame(b) >= watermark
                        &&& forall|j: int|
                            0 <= j < i && area_last_frame(#[trigger] self.regions()[j])
                                >= watermark ==> self.regions()[j].base_addr >= b.base_addr
                    },
                },
            decreases self.areas@.len() - i,
        {
            let area = self.areas[i];
            let last: u64 = (area.base_addr + (area.length - 1)) / PAGE_SIZE;
            if last >= watermark {
                match best {
                    None => {
                        best = Some(area);
                    },
                    Some(b) => {
                        if area.base_addr < b.base_addr {
                            best = Some(area);
                        }
                    },
                }
            }
            i = i + 1;
        }
        self.current_area = best;
        if let Some(area) = best {
            let start: u64 = area.base_addr / PAGE_SIZE;
            if self.next_free_frame.number < start {
                let ghost pre = *self;
                self.next_free_frame = Frame { number: start };
                proof {
                    assert forall|j: int|
                        0 <= j < pre.regions().len() && area_last_frame(
                            #[trigger] pre.regions()[j],
                        ) >= watermark implies area_first_frame(pre.regions()[j]) >= start by {
                        let aj = pre.regions()[j];
                        assert(aj.base_addr >= area.base_addr);
                        assert(aj.base_addr / 4096 >= area.base_addr / 4096) by (nonlinear_arith)
                            requires
                                aj.base_addr >= area.base_addr,
                        ;
                    };
                    assert(self.frames_above(self.watermark()) =~= pre.frames_above(
                        pre.watermark(),
                    )) by {
                        assert forall|n: u64|
                            pre.frames_above(pre.watermark()).contains(n) implies self.frames_above(
                            self.watermark(),
                        ).contains(n) by {
                            let k = choose|k: int|
                                0 <= k < pre.regions().len() && area_contains(
                                    #[trigger] pre.regions()[k],
                                    n,
                                );
                            assert(area_last_frame(pre.regions()[k]) >= n >= watermark);
                            assert(n >= area_first_frame(pre.regions()[k]) >= start);
                            assert(self.regions() == pre.regions());
                            assert(area_contains(self.regions()[k], n));
                        };
                    };
                }
            }
        }
    }
}

impl FrameAllocator for AreaFrameAllocator {
    /// The allocator's invariant: regions well formed, reserved bounds
    /// in range, and the selected region coherent with the watermark.
    open spec fn inv(&self) -> bool {
        self.base_inv() && self.area_coherent()
    }

    /// Frames at or above the watermark, inside a region, not reserved.
    open spec fn avail(&self) -> Set<u64> {
        self.frames_above(self.watermark())
    }

    /// Frames handed back are accepted (and ignored: see `deallocate_frame`).
    open spec fn can_accept(&self, n: u64) -> bool {
        true
    }

    /// Serve the lowest available frame: take the watermark frame if the
    /// selected region still holds it and it is not reserved; skip to just
    /// past a reserved range that holds it; re-select the region when the
    /// current one is exhausted; report `None` when no region is left.
    fn allocate_frame(&mut self) -> (r: Option<Frame>)
        ensures
            match r {
                Some(f) => {
                    &&& !old(self).reserved(f.num())
                    &&& f.num() >= old(self).watermark()
                    &&& final(self).watermark() == f.num() + 1
                },
                None => true,
            },
            final(self).regions() == old(self).regions(),
            final(self).kernel_first() == old(self).kernel_first(),
            final(self).kernel_last() == old(self).kernel_last(),
            final(self).multiboot_first() == old(self).multiboot_first(),
            final(self).multiboot_last() == old(self).multiboot_last(),
    {
        loop
            invariant
                self.inv(),
                self.frames_above(self.watermark()) == old(self).frames_above(
                    old(self).watermark(),
                ),
                self.watermark() >= old(self).watermark(),
                self.regions() == old(self).regions(),
                self.kernel_first() == old(self).kernel_first(),
                self.kernel_last() == old(self).kernel_last(),
                self.multiboot_first() == old(self).multiboot_first(),
                self.multiboot_last() == old(self).multiboot_last(),
                forall|n: u64|
                    old(self).frames_above(old(self).watermark()).contains(n) ==> n >= old(self).watermark(),
            decreases (u64::MAX as int) + 1 - self.watermark(), self.stale_measure(),
        {
            match self.current_area {
                None => {
                    proof {
                        assert(self.frames_above(self.watermark()) =~= Set::<u64>::empty()) by {
                            assert forall|n: u64|
                                !self.frames_above(self.watermark()).contains(n) by {
                                if self.in_some_region(n) {
                                    let k = choose|k: int|
                                        0 <= k < self.regions().len() && area_contains(
                                            #[trigger] self.regions()[k],
                                            n,
                                        );
                                    assert(n <= area_last_frame(self.regions()[k])
                                        < self.watermark());
                                }
                            };
                        };
                    }
                    return None;
                },
                Some(area) => {
                    let candidate: u64 = self.next_free_frame.number;
                    let upper: u64 = area.base_addr + (area.length - 1);
                    let last: u64 = upper / PAGE_SIZE;
                    if candidate > last {
                        self.choose_next_area();
                    } else if self.kernel_start.number <= candidate && candidate
                        <= self.kernel_end.number {
                        let ghost pre = *self;
                        self.next_free_frame = Frame { number: self.kernel_end.number + 1 };
                        proof {
                            assert(self.frames_above(self.watermark()) =~= pre.frames_above(
                                pre.watermark(),
                            ));
                        }
                    } else if self.multiboot_start.number <= candidate && candidate
                        <= self.multiboot_end.number {
                        let ghost pre = *self;
                        self.next_free_frame = Frame { number: self.multiboot_end.number + 1 };
                        proof {
                            assert(self.frames_above(self.watermark()) =~= pre.frames_above(
                                pre.watermark(),
                            ));
                        }
                    } else {
                        let ghost pre = *self;
                        self.next_free_frame = Frame { number: candidate + 1 };
                        proof {
                            assert(upper / 4096 < 0x10_0000_0000_0000u64) by (bit_vector);
                            assert(candidate < MAX_FRAME_NUMBER);
                            assert(pre.frames_above(pre.watermark()).contains(candidate));
                            assert(self.frames_above(self.watermark()) =~= pre.frames_above(
                                pre.watermark(),
                            ).remove(candidate));
                        }
                        return Some(Frame { number: candidate });
                    }
                },
            }
        }
    }

    /// Deallocation is unsupported in the bootstrap allocator: handing a
    /// frame back is accepted and ignored, and callers must not rely on
    /// frames returning to the pool.
    fn deallocate_frame(&mut self, frame: Frame)
        ensures
            *final(self) == *old(self),
    {
    }
}

/// Allocation law, first half: every frame still available after an
/// allocation lies strictly above the allocated frame, so the frames of
/// any allocation sequence strictly increase.
pub proof fn lemma_allocation_strictly_increasing(
    after: AreaFrameAllocator,
    allocated: Frame,
    later: u64,
)
    requires
        after.watermark() > allocated.num(),
        after.avail().contains(later),
    ensures
        later > allocated.num(),
{
}

/// Allocation law, second half: no frame the allocator can return
/// intersects the kernel or Multiboot reserved ranges.
pub proof fn lemma_allocation_avoids_reserved(state: AreaFrameAllocator, frame: u64)
    requires
        state.avail().contains(frame),
    ensures
        !state.reserved(frame),
{
}

} // verus!
