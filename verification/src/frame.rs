//! Physical page frames and the allocator interface.
use vstd::prelude::*;
use crate::layout::PAGE_SIZE;

verus! {

/// Largest frame or page number: addresses are 64 bits wide and a page holds
/// 4096 bytes, so numbers stay below 2^52.
pub const MAX_FRAME_NUMBER: u64 = 0x10_0000_0000_0000;

/// A 4 KiB frame of physical memory, identified by its frame number.
///
/// A frame models unique ownership of its physical page: it is duplicated
/// only through the explicit `clone` operation, never implicitly.
#[derive(Debug, PartialEq, Eq, Structural)]
pub struct Frame {
    /// The frame number: physical address divided by the page size.
    pub number: u64,
}

impl Frame {
    /// The frame number.
    pub open spec fn num(&self) -> u64 {
        self.number
    }

    /// The frame with the given number.
    pub open spec fn spec_from_num(number: u64) -> Frame {
        Frame { number }
    }

    /// Every frame number is below 2^52.
    pub open spec fn wf(&self) -> bool {
        self.num() < MAX_FRAME_NUMBER
    }

    /// Physical address of the first byte of the frame.
    pub fn start_address(&self) -> (r: u64)
        requires
            self.wf(),
        ensures
            r == self.num() * PAGE_SIZE,
    {
        self.number * PAGE_SIZE
    }

    /// The frame containing the given physical address.
    pub fn containing_address(address: u64) -> (r: Frame)
        ensures
            r == Frame::spec_from_num(address / PAGE_SIZE),
            r.num() == address / PAGE_SIZE,
            r.wf(),
    {
        Frame { number: address / PAGE_SIZE }
    }

    /// Explicit duplication of a frame handle.
    pub fn clone(&self) -> (r: Frame)
        ensures
            r == *self,
    {
        Frame { number: self.number }
    }

    /// Iterator over all frames from `start` to `end`, both included.
    pub fn range_inclusive(start: Frame, end: Frame) -> (r: FrameIter)
        ensures
            r.cur() == start,
            r.end() == end,
    {
        FrameIter { start, end }
    }
}

/// Walks the frames of an inclusive range in ascending order.
pub struct FrameIter {
    start: Frame,
    end: Frame,
}

impl FrameIter {
    /// The next frame the iterator will yield.
    pub closed spec fn cur(&self) -> Frame {
        self.start
    }

    /// The last frame of the range.
    pub closed spec fn end(&self) -> Frame {
        self.end
    }

    /// Both bounds are well-formed frames.
    pub open spec fn wf(&self) -> bool {
        self.cur().wf() && self.end().wf()
    }

    /// Yields the next frame of the range, in ascending order.
    pub fn next(&mut self) -> (r: Option<Frame>)
        requires
            old(self).end().wf(),
        ensures
            final(self).end() == old(self).end(),
            if old(self).cur().num() <= old(self).end().num() {
                r == Some(old(self).cur())
                    && final(self).cur().num() == old(self).cur().num() + 1
            } else {
                r == None::<Frame> && final(self).cur() == old(self).cur()
            },
    {
        if self.start.number <= self.end.number {
            let frame = self.start.clone();
            self.start.number = self.start.number + 1;
            Some(frame)
        } else {
            None
        }
    }
}

/// Hands out physical frames.
///
/// `avail()` is the set of frame numbers the allocator may still return.
/// Allocation removes the returned frame from that set, so one allocator
/// never hands the same frame out twice; `None` means the set is exhausted.
pub trait FrameAllocator {
    /// The allocator's internal invariant, established by its constructor.
    spec fn inv(&self) -> bool;

    /// Frame numbers that future allocations may return.
    spec fn avail(&self) -> Set<u64>;

    /// Whether the allocator can take `n` back.
    spec fn can_accept(&self, n: u64) -> bool;

    /// Allocate a fresh frame, or report exhaustion with `None`.
    fn allocate_frame(&mut self) -> (r: Option<Frame>)
        requires
            old(self).inv(),
        ensures
            final(self).inv(),
            match r {
                Some(f) => f.wf() && old(self).avail().contains(f.num())
                    && final(self).avail() == old(self).avail().remove(f.num()),
                None => old(self).avail().is_empty()
                    && final(self).avail() == old(self).avail(),
            },
    ;

    /// Return a frame to the allocator.
    fn deallocate_frame(&mut self, frame: Frame)
        requires
            old(self).inv(),
            old(self).can_accept(frame.num()),
            frame.wf(),
        ensures
            final(self).inv(),
            old(self).avail().subset_of(final(self).avail()),
            final(self).avail().subset_of(old(self).avail().insert(frame.num())),
    ;
}

} // verus!
