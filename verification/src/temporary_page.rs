//! The temporary page and its three-frame tiny allocator.
//!
//! A temporary page maps a fixed virtual page at a frame that is not
//! otherwise reachable, so that a not-yet-active table can be edited.
//! Its tiny allocator holds exactly the three frames that creating the
//! P3, P2 and P1 tables for one page can consume.
use vstd::prelude::*;
use crate::frame::{Frame, FrameAllocator};
use crate::entry::{PRESENT_WRITABLE, MAX_ENTRY_FRAME};
use crate::page::Page;
use crate::paging::ActivePageTable;
use crate::table::{
    spec_mapped_4k, spec_can_map, spec_walk, spec_tables_needed, same_path, entry_at,
};
use crate::entry::PRESENT;

verus! {

/// The frame numbers held in one slot.
pub open spec fn slot_frames(slot: Option<Frame>) -> Set<u64> {
    match slot {
        Some(f) => Set::empty().insert(f.num()),
        None => Set::empty(),
    }
}

/// A three-slot frame pool: just enough frames to create the P3, P2 and
/// P1 tables that mapping a single page can require.
pub struct TinyAllocator {
    first: Option<Frame>,
    second: Option<Frame>,
    third: Option<Frame>,
}

impl TinyAllocator {
    /// The first slot of the pool.
    pub closed spec fn first_slot(&self) -> Option<Frame> {
        self.first
    }

    /// The second slot of the pool.
    pub closed spec fn second_slot(&self) -> Option<Frame> {
        self.second
    }

    /// The third slot of the pool.
    pub closed spec fn third_slot(&self) -> Option<Frame> {
        self.third
    }

    /// Fill the three slots from another allocator.
    pub fn new<A: FrameAllocator>(allocator: &mut A) -> (r: TinyAllocator)
        requires
            old(allocator).inv(),
        ensures
            final(allocator).inv(),
            r.inv(),
            final(allocator).avail().subset_of(old(allocator).avail()),
            r.avail().subset_of(old(allocator).avail()),
            final(allocator).avail().disjoint(r.avail()),
            old(allocator).avail().finite() ==> final(allocator).avail().finite() && final(allocator).avail().len() + 3 >= old(allocator).avail().len(),
            old(allocator).avail().finite() && old(allocator).avail().len() >= 3
                ==> r.avail().finite() && r.avail().len() == 3,
            // the slots are filled in call order, until the source ran out
            r.first_slot() is Some <==> !old(allocator).avail().is_empty(),
            r.second_slot() is Some ==> r.first_slot() is Some,
            r.third_slot() is Some ==> r.second_slot() is Some,
            r.first_slot() is Some ==> old(allocator).avail().contains(
                r.first_slot()->Some_0.num(),
            ),
            r.second_slot() is Some ==> old(allocator).avail().contains(
                r.second_slot()->Some_0.num(),
            ),
            r.third_slot() is Some ==> old(allocator).avail().contains(
                r.third_slot()->Some_0.num(),
            ),
    {
        let ghost a0 = *allocator;
        proof {
            if a0.avail().finite() && a0.avail().len() >= 3 {
                vstd::set_lib::lemma_set_empty_equivalency_len(a0.avail());
            }
        }
        let first = allocator.allocate_frame();
        let ghost a1 = *allocator;
        proof {
            if first is Some && a0.avail().finite() {
                vstd::set::axiom_set_remove_len(a0.avail(), first->Some_0.num());
            }
            if a0.avail().finite() && a0.avail().len() >= 3 {
                vstd::set_lib::lemma_set_empty_equivalency_len(a1.avail());
            }
        }
        let second = allocator.allocate_frame();
        let ghost a2 = *allocator;
        proof {
            if second is Some && a1.avail().finite() {
                vstd::set::axiom_set_remove_len(a1.avail(), second->Some_0.num());
            }
            if a0.avail().finite() && a0.avail().len() >= 3 {
                vstd::set_lib::lemma_set_empty_equivalency_len(a2.avail());
            }
        }
        let third = allocator.allocate_frame();
        proof {
            if third is Some && a2.avail().finite() {
                vstd::set::axiom_set_remove_len(a2.avail(), third->Some_0.num());
            }
            if a0.avail().finite() && a0.avail().len() >= 3 {
                assert(slot_frames(first).union(slot_frames(second)).union(slot_frames(third))
                    =~= Set::<u64>::empty().insert(first->Some_0.num()).insert(
                    second->Some_0.num(),
                ).insert(third->Some_0.num()));
            }
        }
        TinyAllocator { first, second, third }
    }
}

impl FrameAllocator for TinyAllocator {
    /// Filled slots hold distinct, well-formed frames.
    closed spec fn inv(&self) -> bool {
        &&& self.first is Some ==> self.first->Some_0.wf()
        &&& self.second is Some ==> self.second->Some_0.wf()
        &&& self.third is Some ==> self.third->Some_0.wf()
        &&& self.first is Some && self.second is Some ==> self.first->Some_0.num()
            != self.second->Some_0.num()
        &&& self.first is Some && self.third is Some ==> self.first->Some_0.num()
            != self.third->Some_0.num()
        &&& self.second is Some && self.third is Some ==> self.second->Some_0.num()
            != self.third->Some_0.num()
    }

    /// The frames held in the slots.
    closed spec fn avail(&self) -> Set<u64> {
        slot_frames(self.first).union(slot_frames(self.second)).union(slot_frames(self.third))
    }

    /// A frame can come back when a slot is empty and it is not already
    /// held.
    open spec fn can_accept(&self, n: u64) -> bool {
        (self.first_slot() is None || self.second_slot() is None || self.third_slot() is None)
            && !self.avail().contains(n)
    }

    /// Take the first filled slot, in slot order, and empty it.
    fn allocate_frame(&mut self) -> (r: Option<Frame>)
        ensures
            match r {
                Some(f) => f.wf() && old(self).avail().contains(f.num()) && final(self).avail()
                    == old(self).avail().remove(f.num()),
                None => old(self).avail().is_empty() && final(self).avail() == old(self).avail(),
            },
            if old(self).first_slot() is Some {
                r == old(self).first_slot() && final(self).first_slot() is None && final(self).second_slot() == old(self).second_slot() && final(self).third_slot() == old(self).third_slot()
            } else if old(self).second_slot() is Some {
                r == old(self).second_slot() && final(self).first_slot() is None && final(self).second_slot() is None && final(self).third_slot() == old(self).third_slot()
            } else if old(self).third_slot() is Some {
                r == old(self).third_slot() && final(self).first_slot() is None && final(self).second_slot() is None && final(self).third_slot() is None
            } else {
                r is None && *final(self) == *old(self)
            },
    {
        let ghost pre = *self;
        match &self.first {
            Some(f) => {
                let taken = f.clone();
                self.first = None;
                proof {
                    assert(self.avail() =~= pre.avail().remove(taken.num()));
                }
                return Some(taken);
            },
            None => {},
        }
        match &self.second {
            Some(f) => {
                let taken = f.clone();
                self.second = None;
                proof {
                    assert(self.avail() =~= pre.avail().remove(taken.num()));
                }
                return Some(taken);
            },
            None => {},
        }
        match &self.third {
            Some(f) => {
                let taken = f.clone();
                self.third = None;
                proof {
                    assert(self.avail() =~= pre.avail().remove(taken.num()));
                }
                return Some(taken);
            },
            None => {},
        }
        proof {
            assert(pre.avail() =~= Set::<u64>::empty());
        }
        None
    }

    /// Put the frame back into the first empty slot; a full pool is a
    /// fatal invariant violation, so a slot must be empty.
    fn deallocate_frame(&mut self, frame: Frame)
        ensures
            final(self).avail() == old(self).avail().insert(frame.num()),
            if old(self).first_slot() is None {
                final(self).first_slot() == Some(frame) && final(self).second_slot() == old(self).second_slot() && final(self).third_slot() == old(self).third_slot()
            } else if old(self).second_slot() is None {
                final(self).first_slot() == old(self).first_slot() && final(self).second_slot()
                    == Some(frame) && final(self).third_slot() == old(self).third_slot()
            } else {
                final(self).first_slot() == old(self).first_slot() && final(self).second_slot()
                    == old(self).second_slot() && final(self).third_slot() == Some(frame)
            },
    {
        let ghost pre = *self;
        if self.first.is_none() {
            self.first = Some(frame);
            proof {
                assert(self.avail() =~= pre.avail().insert(frame.num()));
            }
        } else if self.second.is_none() {
            self.second = Some(frame);
            proof {
                assert(self.avail() =~= pre.avail().insert(frame.num()));
            }
        } else {
            self.third = Some(frame);
            proof {
                assert(self.avail() =~= pre.avail().insert(frame.num()));
            }
        }
    }
}

/// A fixed virtual page with its own tiny frame pool, used to reach into
/// a frame that the current hierarchy does not otherwise map.
pub struct TemporaryPage {
    page: Page,
    allocator: TinyAllocator,
}

impl TemporaryPage {
    /// The fixed virtual page.
    pub closed spec fn spec_page(&self) -> Page {
        self.page
    }

    /// The frames the tiny allocator still holds.
    pub closed spec fn pool(&self) -> Set<u64> {
        self.allocator.avail()
    }

    /// The tiny allocator's slots hold distinct frames.
    pub closed spec fn pool_inv(&self) -> bool {
        self.allocator.inv()
    }

    /// The page is a canonical page away from the recursive slot, and the
    /// pool holds distinct frames that fit page-table entries.
    pub open spec fn wf(&self) -> bool {
        &&& self.spec_page().wf()
        &&& self.spec_page().spec_p4_index() != 510
        &&& self.pool_inv()
        &&& forall|n: u64| self.pool().contains(n) ==> n < MAX_ENTRY_FRAME
    }

    /// Make a temporary page at the given virtual page, draining three
    /// frames from the allocator into the tiny pool.
    pub fn new<A: FrameAllocator>(page: Page, allocator: &mut A) -> (r: TemporaryPage)
        requires
            page.wf(),
            page.spec_p4_index() != 510,
            old(allocator).inv(),
            forall|n: u64| old(allocator).avail().contains(n) ==> n < MAX_ENTRY_FRAME,
        ensures
            final(allocator).inv(),
            r.wf(),
            r.spec_page() == page,
            final(allocator).avail().subset_of(old(allocator).avail()),
            r.pool().subset_of(old(allocator).avail()),
            final(allocator).avail().disjoint(r.pool()),
            old(allocator).avail().finite() ==> final(allocator).avail().finite() && final(allocator).avail().len() + 3 >= old(allocator).avail().len(),
            old(allocator).avail().finite() && old(allocator).avail().len() >= 3
                ==> r.pool().finite() && r.pool().len() == 3,
    {
        TemporaryPage { page, allocator: TinyAllocator::new(allocator) }
    }

    /// Map the temporary page to `frame` in the active hierarchy with
    /// PRESENT and WRITABLE, and return its virtual address.  The page
    /// must not be currently mapped.
    pub fn map(&mut self, frame: Frame, active_table: &mut ActivePageTable) -> (r: u64)
        requires
            old(self).wf(),
            old(active_table).wf(),
            frame.num() < MAX_ENTRY_FRAME,
            old(active_table).mapper.can_map(old(self).spec_page()),
            old(self).pool().disjoint(old(active_table).mapper.frames()),
            old(self).pool().finite(),
            old(self).pool().len() >= old(active_table).mapper.tables_needed(
                old(self).spec_page(),
            ),
        ensures
            final(self).wf(),
            final(self).spec_page() == old(self).spec_page(),
            final(self).pool().subset_of(old(self).pool()),
            final(active_table).wf(),
            final(active_table).spec_cr3() == old(active_table).spec_cr3(),
            final(active_table).mapper.root() == old(active_table).mapper.root(),
            final(active_table).mapper.spec_page_flushes() == old(active_table).mapper.spec_page_flushes(),
            final(active_table).mapper.spec_full_flushes() == old(active_table).mapper.spec_full_flushes(),
            r == old(self).spec_page().num() * crate::layout::PAGE_SIZE,
            final(active_table).mapper.walk(old(self).spec_page()) == Some(
                (frame.num(), PRESENT_WRITABLE | PRESENT),
            ),
            final(active_table).mapper.mapped_4k(old(self).spec_page()),
            old(active_table).mapper.frames().subset_of(final(active_table).mapper.frames()),
            final(active_table).mapper.frames().subset_of(
                old(active_table).mapper.frames().union(old(self).pool()),
            ),
            final(self).pool().disjoint(final(active_table).mapper.frames()),
            forall|f: u64|
                old(active_table).mapper.lvl().contains_key(f) ==> final(active_table).mapper.lvl().contains_key(f) && #[trigger] final(active_table).mapper.lvl()[f]
                    == old(active_table).mapper.lvl()[f],
            forall|f: u64, i: u64|
                old(active_table).mapper.tbl().contains_key(f) && old(active_table).mapper.lvl()[f] == 4 && 0 <= i < 512 && !(f == old(active_table).mapper.root()
                    && i == old(self).spec_page().spec_p4_index()) ==> #[trigger] entry_at(
                    final(active_table).mapper.tbl(), f, i) == entry_at(
                    old(active_table).mapper.tbl(), f, i),
            forall|r2: u64, q: Page|
                #![trigger spec_walk(final(active_table).mapper.tbl(), r2, q)]
                #![trigger spec_can_map(final(active_table).mapper.tbl(), r2, q)]
                #![trigger spec_mapped_4k(final(active_table).mapper.tbl(), r2, q)]
                old(active_table).mapper.tbl().contains_key(r2) && old(active_table).mapper.lvl()[r2] == 4 && q.wf() && q.spec_p4_index() != 510 && !(r2 == old(active_table).mapper.root() && same_path(q, old(self).spec_page())) ==> spec_walk(
                    final(active_table).mapper.tbl(), r2, q) == spec_walk(
                    old(active_table).mapper.tbl(), r2, q) && spec_can_map(
                    final(active_table).mapper.tbl(), r2, q) == spec_can_map(
                    old(active_table).mapper.tbl(), r2, q) && spec_mapped_4k(
                    final(active_table).mapper.tbl(), r2, q) == spec_mapped_4k(
                    old(active_table).mapper.tbl(), r2, q),
    {
        let page = self.page;
        proof {
            crate::entry::lemma_present_writable();
        }
        active_table.mapper.map_to(page, frame, PRESENT_WRITABLE, &mut self.allocator);
        self.page.start_address()
    }

    /// Map the temporary page to a frame holding a page table, so that
    /// the table can be edited through it.  The mapped frame has the same
    /// 4096-byte, 512-entry layout at every level, so the handle returned
    /// is the frame number whose entries the store operations edit.
    pub fn map_table_frame(&mut self, frame: Frame, active_table: &mut ActivePageTable) -> (r:
        u64)
        requires
            old(self).wf(),
            old(active_table).wf(),
            frame.num() < MAX_ENTRY_FRAME,
            old(active_table).mapper.can_map(old(self).spec_page()),
            old(self).pool().disjoint(old(active_table).mapper.frames()),
            old(self).pool().finite(),
            old(self).pool().len() >= old(active_table).mapper.tables_needed(
                old(self).spec_page(),
            ),
        ensures
            r == frame.num(),
            final(self).wf(),
            final(self).spec_page() == old(self).spec_page(),
            final(self).pool().subset_of(old(self).pool()),
            final(active_table).wf(),
            final(active_table).spec_cr3() == old(active_table).spec_cr3(),
            final(active_table).mapper.root() == old(active_table).mapper.root(),
            final(active_table).mapper.spec_page_flushes() == old(active_table).mapper.spec_page_flushes(),
            final(active_table).mapper.spec_full_flushes() == old(active_table).mapper.spec_full_flushes(),
            final(active_table).mapper.walk(old(self).spec_page()) == Some(
                (frame.num(), PRESENT_WRITABLE | PRESENT),
            ),
            final(active_table).mapper.mapped_4k(old(self).spec_page()),
            old(active_table).mapper.frames().subset_of(final(active_table).mapper.frames()),
            final(active_table).mapper.frames().subset_of(
                old(active_table).mapper.frames().union(old(self).pool()),
            ),
            final(self).pool().disjoint(final(active_table).mapper.frames()),
            forall|f: u64|
                old(active_table).mapper.lvl().contains_key(f) ==> final(active_table).mapper.lvl().contains_key(f) && #[trigger] final(active_table).mapper.lvl()[f]
                    == old(active_table).mapper.lvl()[f],
            forall|f: u64, i: u64|
                old(active_table).mapper.tbl().contains_key(f) && old(active_table).mapper.lvl()[f] == 4 && 0 <= i < 512 && !(f == old(active_table).mapper.root()
                    && i == old(self).spec_page().spec_p4_index()) ==> #[trigger] entry_at(
                    final(active_table).mapper.tbl(), f, i) == entry_at(
                    old(active_table).mapper.tbl(), f, i),
            forall|r2: u64, q: Page|
                #![trigger spec_walk(final(active_table).mapper.tbl(), r2, q)]
                #![trigger spec_can_map(final(active_table).mapper.tbl(), r2, q)]
                #![trigger spec_mapped_4k(final(active_table).mapper.tbl(), r2, q)]
                old(active_table).mapper.tbl().contains_key(r2) && old(active_table).mapper.lvl()[r2] == 4 && q.wf() && q.spec_p4_index() != 510 && !(r2 == old(active_table).mapper.root() && same_path(q, old(self).spec_page())) ==> spec_walk(
                    final(active_table).mapper.tbl(), r2, q) == spec_walk(
                    old(active_table).mapper.tbl(), r2, q) && spec_can_map(
                    final(active_table).mapper.tbl(), r2, q) == spec_can_map(
                    old(active_table).mapper.tbl(), r2, q) && spec_mapped_4k(
                    final(active_table).mapper.tbl(), r2, q) == spec_mapped_4k(
                    old(active_table).mapper.tbl(), r2, q),
    {
        self.map(frame.clone(), active_table);
        frame.number
    }

    /// Unmap the temporary page from the active hierarchy.
    pub fn unmap(&mut self, active_table: &mut ActivePageTable)
        requires
            old(self).wf(),
            old(active_table).wf(),
            old(active_table).mapper.mapped_4k(old(self).spec_page()),
            old(active_table).mapper.spec_page_flushes() < u64::MAX,
        ensures
            final(self).wf(),
            final(self).spec_page() == old(self).spec_page(),
            final(self).pool() == old(self).pool(),
            final(active_table).wf(),
            final(active_table).spec_cr3() == old(active_table).spec_cr3(),
            final(active_table).mapper.root() == old(active_table).mapper.root(),
            final(active_table).mapper.frames() == old(active_table).mapper.frames(),
            final(active_table).mapper.lvl() == old(active_table).mapper.lvl(),
            final(active_table).mapper.walk(old(self).spec_page()) == None::<(u64, u64)>,
            final(active_table).mapper.can_map(old(self).spec_page()),
            final(active_table).mapper.tables_needed(old(self).spec_page()) == 0,
            final(active_table).mapper.spec_page_flushes() == old(active_table).mapper.spec_page_flushes() + 1,
            final(active_table).mapper.spec_full_flushes() == old(active_table).mapper.spec_full_flushes(),
            forall|f: u64, i: u64|
                old(active_table).mapper.tbl().contains_key(f) && old(active_table).mapper.lvl()[f] == 4 && 0 <= i < 512 ==> #[trigger] entry_at(
                    final(active_table).mapper.tbl(), f, i) == entry_at(
                    old(active_table).mapper.tbl(), f, i),
            forall|r2: u64, q: Page|
                #![trigger spec_walk(final(active_table).mapper.tbl(), r2, q)]
                #![trigger spec_can_map(final(active_table).mapper.tbl(), r2, q)]
                #![trigger spec_mapped_4k(final(active_table).mapper.tbl(), r2, q)]
                old(active_table).mapper.tbl().contains_key(r2) && old(active_table).mapper.lvl()[r2] == 4 && q.wf() && q.spec_p4_index() != 510 && !(r2 == old(active_table).mapper.root() && same_path(q, old(self).spec_page())) ==> spec_walk(
                    final(active_table).mapper.tbl(), r2, q) == spec_walk(
                    old(active_table).mapper.tbl(), r2, q) && spec_can_map(
                    final(active_table).mapper.tbl(), r2, q) == spec_can_map(
                    old(active_table).mapper.tbl(), r2, q) && spec_mapped_4k(
                    final(active_table).mapper.tbl(), r2, q) == spec_mapped_4k(
                    old(active_table).mapper.tbl(), r2, q) && spec_tables_needed(
                    final(active_table).mapper.tbl(), r2, q) == spec_tables_needed(
                    old(active_table).mapper.tbl(), r2, q),
    {
        let page = self.page;
        active_table.mapper.unmap(page, &mut self.allocator);
    }
}

} // verus!
