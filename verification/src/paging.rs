//! The active and inactive page-table hierarchies and the kernel remap.
//!
//! The active table is the hierarchy the CPU is walking; its handle is
//! unique process-wide.  An inactive table is a single frame holding a
//! not-yet-installed P4.  The `begin_with` / `end_with` bracket redirects
//! the recursive slot of the active P4 so that edits land in the inactive
//! hierarchy, and `switch` atomically moves the CPU onto a new hierarchy.
use vstd::prelude::*;
use crate::frame::{Frame, FrameAllocator};
use crate::page::Page;
use crate::mapper::Mapper;
use crate::table::{
    FrameTable, entry_at, spec_walk, spec_can_map, spec_mapped_4k, spec_tables_needed, same_path,
    zero_table, lemma_tbl_of, probe, huge_aligned,
};
use crate::entry::{
    spec_entry_bits, spec_present, spec_huge, spec_frame_of, lemma_present_writable,
    lemma_entry_round_trip, PRESENT_WRITABLE, MAX_ENTRY_FRAME, PRESENT, WRITABLE,
};
use crate::temporary_page::TemporaryPage;
use crate::layout::{PAGE_SIZE, KERNEL_VMA, VGA_BUFFER_VMA, TEMP_PAGE};

verus! {

/// One ELF section of the kernel image as the bootloader reports it.
#[derive(Debug, Clone, Copy, PartialEq, Eq, Structural)]
pub struct ElfSectionInfo {
    /// Virtual address of the first byte of the section.
    pub start_address: u64,
    /// Virtual address one past the last byte of the section.
    pub end_address: u64,
    /// The section occupies memory at run time.
    pub allocated: bool,
    /// The section is writable.
    pub writable: bool,
    /// The section holds executable code.
    pub executable: bool,
}

/// Boot information the kernel needs from the bootloader: the ELF
/// sections of the image and the bounds of the Multiboot blob, as
/// higher-half virtual addresses of its first byte and one past its last.
pub struct BootData {
    /// The ELF sections of the kernel image.
    pub elf_sections: Vec<ElfSectionInfo>,
    /// Virtual address of the first byte of the Multiboot blob.
    pub multiboot_start: u64,
    /// Virtual address one past the last byte of the Multiboot blob.
    pub multiboot_end: u64,
}

/// The frame of the first higher-half kernel page.
pub open spec fn kernel_vma_frame() -> u64 {
    KERNEL_VMA / PAGE_SIZE
}

/// Whether a section is mapped by the remap: it occupies memory and lies
/// in the higher half.
pub open spec fn section_relevant(s: ElfSectionInfo) -> bool {
    s.allocated && s.start_address >= KERNEL_VMA
}

/// First page frame of a section.
pub open spec fn sec_first(s: ElfSectionInfo) -> u64 {
    s.start_address / PAGE_SIZE
}

/// Last page frame of a section.
pub open spec fn sec_last(s: ElfSectionInfo) -> u64 {
    ((s.end_address - 1) as u64) / PAGE_SIZE
}

/// Whether virtual page `n` belongs to a section the remap maps.
pub open spec fn in_section_pages(s: ElfSectionInfo, n: u64) -> bool {
    section_relevant(s) && sec_first(s) <= n <= sec_last(s)
}

/// The entry flags a section is mapped with.
pub open spec fn sec_flags(s: ElfSectionInfo) -> u64 {
    crate::entry::spec_elf_flags(s.allocated, s.writable, s.executable)
}

/// Pages of one section, zero for one the remap skips.
pub open spec fn sec_pages(s: ElfSectionInfo) -> int {
    if section_relevant(s) {
        sec_last(s) - sec_first(s) + 1
    } else {
        0
    }
}

/// Pages of all sections from index `i` on.
pub open spec fn pages_from(sections: Seq<ElfSectionInfo>, i: int) -> int
    decreases sections.len() - i,
{
    if i < 0 || i >= sections.len() {
        0
    } else {
        sec_pages(sections[i]) + pages_from(sections, i + 1)
    }
}

/// A section never counts negatively many pages.
pub proof fn lemma_pages_from_nonneg(sections: Seq<ElfSectionInfo>, i: int)
    requires
        forall|j: int|
            0 <= j < sections.len() && section_relevant(#[trigger] sections[j]) ==> sec_first(
                sections[j],
            ) <= sec_last(sections[j]),
    ensures
        pages_from(sections, i) >= 0,
    decreases sections.len() - i,
{
    if 0 <= i < sections.len() {
        lemma_pages_from_nonneg(sections, i + 1);
    }
}

/// The page tables the CPU is currently using.  The handle is unique:
/// the machine hands its current P4 frame to `new` exactly once at boot.
pub struct ActivePageTable {
    /// Translation and mapping on whatever hierarchy the recursive slot
    /// currently reaches.
    pub mapper: Mapper,
    /// The frame number the CR3 register holds: the installed P4.
    pub cr3: u64,
}

/// A not-currently-installed P4, identified by the frame that holds it.
#[derive(Debug)]
pub struct InactivePageTable {
    p4_frame: Frame,
}

impl InactivePageTable {
    /// The frame holding the inactive P4.
    pub closed spec fn spec_p4_frame(&self) -> u64 {
        self.p4_frame.num()
    }

    /// Wrap a freshly allocated frame as an inactive P4: reach it through
    /// the temporary page, zero it, and point its recursive slot at the
    /// frame itself so the recursive trick keeps working once activated.
    pub fn new(frame: Frame, active_table: &mut ActivePageTable, temporary_page: &mut TemporaryPage) -> (r: InactivePageTable)
        requires
            old(active_table).wf(),
            old(temporary_page).wf(),
            frame.num() < MAX_ENTRY_FRAME,
            !old(active_table).mapper.frames().contains(frame.num()),
            !old(temporary_page).pool().contains(frame.num()),
            old(active_table).mapper.can_map(old(temporary_page).spec_page()),
            old(temporary_page).pool().disjoint(old(active_table).mapper.frames()),
            old(temporary_page).pool().finite(),
            old(temporary_page).pool().len() >= old(active_table).mapper.tables_needed(
                old(temporary_page).spec_page(),
            ),
            old(active_table).mapper.spec_page_flushes() < u64::MAX,
        ensures
            r.spec_p4_frame() == frame.num(),
            final(active_table).wf(),
            final(active_table).spec_cr3() == old(active_table).spec_cr3(),
            final(active_table).mapper.root() == old(active_table).mapper.root(),
            final(active_table).mapper.spec_page_flushes() == old(active_table).mapper.spec_page_flushes() + 1,
            final(active_table).mapper.spec_full_flushes() == old(active_table).mapper.spec_full_flushes(),
            final(temporary_page).wf(),
            final(temporary_page).spec_page() == old(temporary_page).spec_page(),
            final(temporary_page).pool().subset_of(old(temporary_page).pool()),
            final(temporary_page).pool().disjoint(final(active_table).mapper.frames()),
            old(active_table).mapper.frames().subset_of(final(active_table).mapper.frames()),
            final(active_table).mapper.frames().subset_of(
                old(active_table).mapper.frames().union(old(temporary_page).pool()).insert(
                    frame.num(),
                ),
            ),
            forall|f: u64|
                old(active_table).mapper.lvl().contains_key(f) ==> final(active_table).mapper.lvl().contains_key(f) && #[trigger] final(active_table).mapper.lvl()[f]
                    == old(active_table).mapper.lvl()[f],
            final(active_table).mapper.tbl().contains_key(frame.num()),
            final(active_table).mapper.lvl()[frame.num()] == 4,
            // the new P4 holds only its own recursive slot
            entry_at(final(active_table).mapper.tbl(), frame.num(), 510) == spec_entry_bits(
                frame.num(),
                PRESENT_WRITABLE,
            ),
            forall|i: u64|
                0 <= i < 512 && i != 510 ==> #[trigger] entry_at(
                    final(active_table).mapper.tbl(),
                    frame.num(),
                    i,
                ) == 0,
            // so nothing translates through it yet, and everything can be mapped
            forall|q: Page|
                #![trigger spec_can_map(final(active_table).mapper.tbl(), frame.num(), q)]
                #![trigger spec_walk(final(active_table).mapper.tbl(), frame.num(), q)]
                q.wf() && q.spec_p4_index() != 510 ==> spec_can_map(
                    final(active_table).mapper.tbl(),
                    frame.num(),
                    q,
                ) && spec_walk(final(active_table).mapper.tbl(), frame.num(), q) == None::<
                    (u64, u64),
                >,
            // the temporary page is unmapped again and its chain remains
            final(active_table).mapper.walk(old(temporary_page).spec_page()) == None::<
                (u64, u64),
            >,
            final(active_table).mapper.can_map(old(temporary_page).spec_page()),
            final(active_table).mapper.tables_needed(old(temporary_page).spec_page()) == 0,
            // the construction is invisible to the active hierarchy:
            // every other page keeps its walk
            forall|q: Page|
                #![trigger final(active_table).mapper.walk(q)]
                #![trigger final(active_table).mapper.can_map(q)]
                q.wf() && q.spec_p4_index() != 510 && !same_path(
                    q,
                    old(temporary_page).spec_page(),
                ) ==> final(active_table).mapper.walk(q) == old(active_table).mapper.walk(q)
                    && final(active_table).mapper.can_map(q) == old(active_table).mapper.can_map(
                    q,
                ),
    {
        let ghost s0 = *active_table;
        temporary_page.map_table_frame(frame.clone(), active_table);
        let ghost s1 = *active_table;
        proof {
            assert(!s1.mapper.tbl().contains_key(frame.num()));
        }
        active_table.mapper.insert_zeroed(frame.number);
        active_table.mapper.set_levels(Ghost(s1.mapper.lvl().insert(frame.num(), 4int)));
        let ghost s2 = *active_table;
        let bits = frame.number * PAGE_SIZE + PRESENT_WRITABLE;
        proof {
            lemma_present_writable();
            lemma_entry_round_trip(frame.num(), PRESENT_WRITABLE);
            // the zeroed table adds no structural edge, so the graph stays
            // well formed with the new frame at level 4
            assert(s2.mapper.wf()) by {
                let m1 = s1.mapper.tbl();
                let m2 = s2.mapper.tbl();
                let lv1 = s1.mapper.lvl();
                let lv2 = s2.mapper.lvl();
                assert(lv2.dom() =~= m2.dom());
                assert(forall|i: u64| 0 <= i < 512 ==> entry_at(m2, frame.num(), i) == 0);
                crate::entry::lemma_zero_entry();
                assert forall|f: u64, i: u64| #[trigger] crate::mapper::edge(m2, lv2, f, i) implies
                    m2.contains_key(spec_frame_of(entry_at(m2, f, i))) && lv2[spec_frame_of(
                    entry_at(m2, f, i),
                )] == lv2[f] - 1 by {
                    assert(f != frame.num());
                    assert(entry_at(m2, f, i) == entry_at(m1, f, i));
                    assert(crate::mapper::edge(m1, lv1, f, i));
                    assert(spec_frame_of(entry_at(m1, f, i)) != frame.num());
                };
                assert forall|f: u64, i: u64, g: u64, j: u64|
                    crate::mapper::edge(m2, lv2, f, i) && crate::mapper::edge(m2, lv2, g, j)
                        && spec_frame_of(#[trigger] entry_at(m2, f, i)) == spec_frame_of(
                        #[trigger] entry_at(m2, g, j),
                    ) implies f == g && i == j by {
                    assert(f != frame.num() && g != frame.num());
                    assert(entry_at(m2, f, i) == entry_at(m1, f, i));
                    assert(entry_at(m2, g, j) == entry_at(m1, g, j));
                    assert(crate::mapper::edge(m1, lv1, f, i) && crate::mapper::edge(
                        m1, lv1, g, j));
                };
            };
        }
        active_table.mapper.set_entry(frame.number, 510, bits);
        let ghost s3 = *active_table;
        proof {
            let m2 = s2.mapper.tbl();
            let m3 = s3.mapper.tbl();
            let lv = s3.mapper.lvl();
            assert(s3.mapper.wf()) by {
                assert(lv.dom() =~= m3.dom());
                assert forall|f: u64, i: u64| #[trigger] crate::mapper::edge(m3, lv, f, i) implies
                    m3.contains_key(spec_frame_of(entry_at(m3, f, i))) && lv[spec_frame_of(
                    entry_at(m3, f, i),
                )] == lv[f] - 1 by {
                    assert(!(f == frame.num() && i == 510));
                    assert(entry_at(m3, f, i) == entry_at(m2, f, i));
                    assert(crate::mapper::edge(m2, s2.mapper.lvl(), f, i));
                };
                assert forall|f: u64, i: u64, g: u64, j: u64|
                    crate::mapper::edge(m3, lv, f, i) && crate::mapper::edge(m3, lv, g, j)
                        && spec_frame_of(#[trigger] entry_at(m3, f, i)) == spec_frame_of(
                        #[trigger] entry_at(m3, g, j),
                    ) implies f == g && i == j by {
                    assert(entry_at(m3, f, i) == entry_at(m2, f, i));
                    assert(entry_at(m3, g, j) == entry_at(m2, g, j));
                    assert(crate::mapper::edge(m2, s2.mapper.lvl(), f, i)
                        && crate::mapper::edge(m2, s2.mapper.lvl(), g, j));
                };
            };
            // the temporary page's mapping chain does not run through the
            // fresh frame, so it is still intact
            let tp = temporary_page.spec_page();
            let m1 = s1.mapper.tbl();
            let m3 = s3.mapper.tbl();
            let lv1 = s1.mapper.lvl();
            let root = s1.mapper.root();
            assert(spec_mapped_4k(m3, root, tp)) by {
                let t4 = tp.spec_p4_index();
                let t3 = tp.spec_p3_index();
                let t2 = tp.spec_p2_index();
                let t1 = tp.spec_p1_index();
                assert(t4 < 512 && t3 < 512 && t2 < 512 && t1 < 512) by {
                    let n = tp.num();
                    assert(((n >> 27) & 0x1ff) < 512 && ((n >> 18) & 0x1ff) < 512 && ((n >> 9)
                        & 0x1ff) < 512 && (n & 0x1ff) < 512) by (bit_vector);
                };
                assert(spec_mapped_4k(m1, root, tp));
                let e4 = entry_at(m1, root, t4);
                assert(crate::mapper::edge(m1, lv1, root, t4));
                let x3 = spec_frame_of(e4);
                assert(crate::mapper::edge(m1, lv1, x3, t3));
                let x2 = spec_frame_of(entry_at(m1, x3, t3));
                assert(crate::mapper::edge(m1, lv1, x2, t2));
                let x1 = spec_frame_of(entry_at(m1, x2, t2));
                assert(root != frame.num() && x3 != frame.num() && x2 != frame.num() && x1
                    != frame.num());
                assert(entry_at(m3, root, t4) == e4);
                assert(entry_at(m3, x3, t3) == entry_at(m1, x3, t3));
                assert(entry_at(m3, x2, t2) == entry_at(m1, x2, t2));
                assert(entry_at(m3, x1, t1) == entry_at(m1, x1, t1));
            };
        }
        proof {
            // the fresh table is reachable from no existing hierarchy, so
            // every walk under the active root is untouched by it
            let m1b = s1.mapper.tbl();
            let m3b = s3.mapper.tbl();
            let lv1 = s1.mapper.lvl();
            let aroot = s1.mapper.root();
            crate::entry::lemma_zero_entry();
            assert forall|q: Page|
                #![trigger spec_walk(m3b, aroot, q)]
                #![trigger spec_can_map(m3b, aroot, q)]
                q.wf() && q.spec_p4_index() != 510 implies spec_walk(m3b, aroot, q) == spec_walk(
                m1b, aroot, q) && spec_can_map(m3b, aroot, q) == spec_can_map(m1b, aroot, q) by {
                let q4 = q.spec_p4_index();
                let q3 = q.spec_p3_index();
                let q2 = q.spec_p2_index();
                let q1 = q.spec_p1_index();
                crate::page::lemma_index_bounds(q.num());
                let e4a = entry_at(m1b, aroot, q4);
                assert(aroot != frame.num());
                assert(entry_at(m3b, aroot, q4) == e4a);
                if spec_present(e4a) && !spec_huge(e4a) {
                    let g3 = spec_frame_of(e4a);
                    assert(crate::mapper::edge(m1b, lv1, aroot, q4));
                    assert(g3 != frame.num());
                    assert(forall|i2: u64|
                        0 <= i2 < 512 ==> entry_at(m3b, g3, i2) == entry_at(m1b, g3, i2));
                    let e3a = entry_at(m1b, g3, q3);
                    if spec_present(e3a) && !spec_huge(e3a) {
                        let g2 = spec_frame_of(e3a);
                        assert(crate::mapper::edge(m1b, lv1, g3, q3));
                        assert(g2 != frame.num());
                        assert(forall|i2: u64|
                            0 <= i2 < 512 ==> entry_at(m3b, g2, i2) == entry_at(m1b, g2, i2));
                        let e2a = entry_at(m1b, g2, q2);
                        if spec_present(e2a) && !spec_huge(e2a) {
                            let g1 = spec_frame_of(e2a);
                            assert(crate::mapper::edge(m1b, lv1, g2, q2));
                            assert(g1 != frame.num());
                            assert(forall|i2: u64|
                                0 <= i2 < 512 ==> entry_at(m3b, g1, i2) == entry_at(m1b, g1, i2));
                        }
                    }
                }
                assert(probe(m3b, aroot, q) == probe(m1b, aroot, q));
            };
        }
        temporary_page.unmap(active_table);
        proof {
            assert forall|q: Page|
                q.wf() && q.spec_p4_index() != 510 implies spec_can_map(
                active_table.mapper.tbl(),
                frame.num(),
                q,
            ) && spec_walk(active_table.mapper.tbl(), frame.num(), q) == None::<(u64, u64)> by {
                let q4 = q.spec_p4_index();
                assert(q4 < 512) by {
                    let n = q.num();
                    assert(((n >> 27) & 0x1ff) < 512) by (bit_vector);
                };
                assert(entry_at(active_table.mapper.tbl(), frame.num(), q4) == 0);
                crate::entry::lemma_zero_entry();
            };
        }
        InactivePageTable { p4_frame: frame }
    }
}

impl ActivePageTable {
    /// The frame number the CR3 register holds: the installed P4.
    pub open spec fn spec_cr3(&self) -> u64 {
        self.cr3
    }

    /// The mapper's store is well formed, and CR3 holds one of its
    /// level-4 tables.
    pub open spec fn wf(&self) -> bool {
        &&& self.mapper.wf()
        &&& self.mapper.tbl().contains_key(self.spec_cr3())
        &&& self.mapper.lvl()[self.spec_cr3()] == 4
    }

    /// Take charge of the machine's page tables: `p4_frame` is the frame
    /// CR3 holds at boot, whose recursive slot the bootstrap code pointed
    /// at the frame itself.  The system has exactly one live handle.
    pub fn new(p4_frame: u64) -> (r: ActivePageTable)
        requires
            p4_frame < MAX_ENTRY_FRAME,
        ensures
            r.wf(),
            r.spec_cr3() == p4_frame,
            r.mapper.root() == p4_frame,
            r.mapper.frames() == Set::<u64>::empty().insert(p4_frame),
            r.mapper.spec_page_flushes() == 0,
            r.mapper.spec_full_flushes() == 0,
            entry_at(r.mapper.tbl(), p4_frame, 510) == spec_entry_bits(
                p4_frame,
                PRESENT_WRITABLE,
            ),
            forall|i: u64|
                0 <= i < 512 && i != 510 ==> #[trigger] entry_at(r.mapper.tbl(), p4_frame, i)
                    == 0,
            forall|q: Page|
                #![trigger r.mapper.can_map(q)]
                #![trigger r.mapper.walk(q)]
                q.wf() && q.spec_p4_index() != 510 ==> r.mapper.can_map(q) && r.mapper.walk(q)
                    == None::<(u64, u64)> && r.mapper.tables_needed(q) == 3,
    {
        let mut entries: Vec<u64> = Vec::new();
        let mut i: usize = 0;
        while i < 512
            invariant
                entries@.len() == i,
                0 <= i <= 512,
                forall|j: int| 0 <= j < i ==> (#[trigger] entries@[j]) == 0,
            decreases 512 - i,
        {
            entries.push(0);
            i = i + 1;
        }
        let bits = p4_frame * PAGE_SIZE + PRESENT_WRITABLE;
        entries.set(510, bits);
        let ghost e = entries@;
        let mapper = Mapper::new(p4_frame, entries);
        let r = ActivePageTable { mapper, cr3: p4_frame };
        proof {
            lemma_present_writable();
            lemma_entry_round_trip(p4_frame, PRESENT_WRITABLE);
            let m = r.mapper.tbl();
            let lv = r.mapper.lvl();
            assert(m == Map::<u64, Seq<u64>>::empty().insert(p4_frame, e));
            assert(lv.dom() =~= m.dom());
            assert(m.dom() =~= Set::<u64>::empty().insert(p4_frame));
            crate::entry::lemma_zero_entry();
            assert(r.mapper.graph_wf()) by {
                assert forall|f: u64, i2: u64| !(#[trigger] crate::mapper::edge(
                    m, lv, f, i2)) by {
                    if crate::mapper::edge(m, lv, f, i2) {
                        assert(f == p4_frame);
                        if i2 != 510 {
                            assert(entry_at(m, f, i2) == 0);
                        }
                    }
                };
            };
            assert forall|q: Page|
                q.wf() && q.spec_p4_index() != 510 implies r.mapper.can_map(q) && r.mapper.walk(
                q,
            ) == None::<(u64, u64)> && r.mapper.tables_needed(q) == 3 by {
                let q4 = q.spec_p4_index();
                assert(q4 < 512) by {
                    let n = q.num();
                    assert(((n >> 27) & 0x1ff) < 512) by (bit_vector);
                };
                assert(entry_at(m, p4_frame, q4) == 0);
            };
        }
        r
    }

    /// First half of the `with` bracket: keep the current P4 reachable
    /// through the temporary page, point the recursive slot of the active
    /// P4 at `table`'s hierarchy, and flush the whole TLB.  Until
    /// `end_with` restores the slot, recursive walks and edits land in
    /// `table`'s hierarchy.  Returns the backup of the original P4 frame.
    pub fn begin_with(&mut self, table: &InactivePageTable, temporary_page: &mut TemporaryPage) -> (backup: Frame)
        requires
            old(self).wf(),
            old(self).mapper.root() == old(self).spec_cr3(),
            old(self).spec_cr3() < MAX_ENTRY_FRAME,
            old(temporary_page).wf(),
            table.spec_p4_frame() != old(self).spec_cr3(),
            table.spec_p4_frame() < MAX_ENTRY_FRAME,
            old(self).mapper.tbl().contains_key(table.spec_p4_frame()),
            old(self).mapper.lvl()[table.spec_p4_frame()] == 4,
            old(self).mapper.can_map(old(temporary_page).spec_page()),
            old(temporary_page).pool().disjoint(old(self).mapper.frames()),
            old(temporary_page).pool().finite(),
            old(temporary_page).pool().len() >= old(self).mapper.tables_needed(
                old(temporary_page).spec_page(),
            ),
            old(self).mapper.spec_full_flushes() < u64::MAX,
        ensures
            final(self).wf(),
            final(self).spec_cr3() == old(self).spec_cr3(),
            final(self).mapper.root() == table.spec_p4_frame(),
            backup == Frame::spec_from_num(old(self).spec_cr3()),
            final(self).mapper.spec_full_flushes() == old(self).mapper.spec_full_flushes() + 1,
            final(self).mapper.spec_page_flushes() == old(self).mapper.spec_page_flushes(),
            final(temporary_page).wf(),
            final(temporary_page).spec_page() == old(temporary_page).spec_page(),
            final(temporary_page).pool().subset_of(old(temporary_page).pool()),
            final(temporary_page).pool().disjoint(final(self).mapper.frames()),
            old(self).mapper.frames().subset_of(final(self).mapper.frames()),
            final(self).mapper.frames().subset_of(
                old(self).mapper.frames().union(old(temporary_page).pool()),
            ),
            forall|f: u64|
                old(self).mapper.lvl().contains_key(f) ==> final(self).mapper.lvl().contains_key(
                    f,
                ) && #[trigger] final(self).mapper.lvl()[f] == old(self).mapper.lvl()[f],
            // the active P4's recursive slot now reaches the inactive frame
            entry_at(final(self).mapper.tbl(), old(self).spec_cr3(), 510) == spec_entry_bits(
                table.spec_p4_frame(),
                PRESENT_WRITABLE,
            ),
            // the original P4 stays reachable through the temporary page
            spec_mapped_4k(
                final(self).mapper.tbl(),
                old(self).spec_cr3(),
                old(temporary_page).spec_page(),
            ),
            // of the active P4, only the recursive slot and at most the
            // temporary page's slot are touched
            forall|i: u64|
                0 <= i < 512 && i != 510 && i != old(temporary_page).spec_page().spec_p4_index()
                    ==> #[trigger] entry_at(final(self).mapper.tbl(), old(self).spec_cr3(), i)
                    == entry_at(old(self).mapper.tbl(), old(self).spec_cr3(), i),
            // rows of the inactive P4 and of every other level-4 table are
            // untouched, except the original P4's two written slots
            forall|f: u64, i: u64|
                old(self).mapper.tbl().contains_key(f) && old(self).mapper.lvl()[f] == 4 && 0 <= i
                    < 512 && f != old(self).spec_cr3() ==> #[trigger] entry_at(
                    final(self).mapper.tbl(), f, i) == entry_at(old(self).mapper.tbl(), f, i),
    {
        let ghost s0 = *self;
        let backup = Frame { number: self.cr3 };
        temporary_page.map_table_frame(backup.clone(), self);
        let ghost s1 = *self;
        let cr3_frame = self.cr3;
        let bits = table.p4_frame.number * PAGE_SIZE + PRESENT_WRITABLE;
        proof {
            lemma_present_writable();
            lemma_entry_round_trip(table.spec_p4_frame(), PRESENT_WRITABLE);
        }
        self.mapper.set_entry(cr3_frame, 510, bits);
        self.mapper.bump_full_flushes();
        self.mapper.set_root(table.p4_frame.number);
        proof {
            let m1 = s1.mapper.tbl();
            let m2 = self.mapper.tbl();
            let lv = self.mapper.lvl();
            assert(self.mapper.wf()) by {
                assert(lv.dom() =~= m2.dom());
                assert forall|f: u64, i: u64| #[trigger] crate::mapper::edge(m2, lv, f, i) implies
                    m2.contains_key(spec_frame_of(entry_at(m2, f, i))) && lv[spec_frame_of(
                    entry_at(m2, f, i),
                )] == lv[f] - 1 by {
                    assert(!(f == cr3_frame && i == 510));
                    assert(entry_at(m2, f, i) == entry_at(m1, f, i));
                    assert(crate::mapper::edge(m1, lv, f, i));
                };
                assert forall|f: u64, i: u64, g: u64, j: u64|
                    crate::mapper::edge(m2, lv, f, i) && crate::mapper::edge(m2, lv, g, j)
                        && spec_frame_of(#[trigger] entry_at(m2, f, i)) == spec_frame_of(
                        #[trigger] entry_at(m2, g, j),
                    ) implies f == g && i == j by {
                    assert(entry_at(m2, f, i) == entry_at(m1, f, i));
                    assert(entry_at(m2, g, j) == entry_at(m1, g, j));
                    assert(crate::mapper::edge(m1, lv, f, i) && crate::mapper::edge(
                        m1, lv, g, j));
                };
            };
            // the temporary mapping of the original P4 reads none of the
            // written slots, so it stays intact
            let tp = temporary_page.spec_page();
            assert(spec_mapped_4k(m2, cr3_frame, tp)) by {
                let t4 = tp.spec_p4_index();
                let t3 = tp.spec_p3_index();
                let t2 = tp.spec_p2_index();
                assert(t4 < 512 && t3 < 512 && t2 < 512 && tp.spec_p1_index() < 512) by {
                    let n = tp.num();
                    assert(((n >> 27) & 0x1ff) < 512 && ((n >> 18) & 0x1ff) < 512 && ((n >> 9)
                        & 0x1ff) < 512 && (n & 0x1ff) < 512) by (bit_vector);
                };
                let e4 = entry_at(m1, cr3_frame, t4);
                assert(entry_at(m2, cr3_frame, t4) == e4);
                let x3 = spec_frame_of(e4);
                assert(crate::mapper::edge(m1, lv, cr3_frame, t4));
                assert(entry_at(m2, x3, t3) == entry_at(m1, x3, t3));
                let x2 = spec_frame_of(entry_at(m1, x3, t3));
                assert(crate::mapper::edge(m1, lv, x3, t3));
                assert(entry_at(m2, x2, t2) == entry_at(m1, x2, t2));
                let x1 = spec_frame_of(entry_at(m1, x2, t2));
                assert(crate::mapper::edge(m1, lv, x2, t2));
                assert(entry_at(m2, x1, tp.spec_p1_index()) == entry_at(
                    m1, x1, tp.spec_p1_index()));
            };
            // other level-4 tables kept all their rows
            assert forall|f: u64, i: u64|
                s0.mapper.tbl().contains_key(f) && s0.mapper.lvl()[f] == 4 && 0 <= i < 512 && f
                    != cr3_frame implies #[trigger] entry_at(self.mapper.tbl(), f, i) == entry_at(
                s0.mapper.tbl(), f, i) by {
                assert(entry_at(s1.mapper.tbl(), f, i) == entry_at(s0.mapper.tbl(), f, i));
                assert(entry_at(m2, f, i) == entry_at(m1, f, i));
            };
            // and the active P4 kept all slots but 510 and the
            // temporary page's
            assert forall|i: u64|
                0 <= i < 512 && i != 510 && i != tp.spec_p4_index() implies #[trigger] entry_at(
                self.mapper.tbl(), cr3_frame, i) == entry_at(s0.mapper.tbl(), cr3_frame, i) by {
                assert(entry_at(s1.mapper.tbl(), cr3_frame, i) == entry_at(
                    s0.mapper.tbl(), cr3_frame, i));
                assert(entry_at(m2, cr3_frame, i) == entry_at(m1, cr3_frame, i));
            };
        }
        backup
    }

    /// Second half of the `with` bracket: restore the recursive slot of
    /// the original P4 through its temporary mapping, flush the whole TLB
    /// again, and unmap the temporary page.
    #[verifier::rlimit(100)]
    pub fn end_with(&mut self, backup: Frame, temporary_page: &mut TemporaryPage)
        requires
            old(self).wf(),
            old(temporary_page).wf(),
            backup.num() == old(self).spec_cr3(),
            backup.num() < MAX_ENTRY_FRAME,
            old(self).mapper.tbl().contains_key(backup.num()),
            old(self).mapper.lvl()[backup.num()] == 4,
            spec_mapped_4k(old(self).mapper.tbl(), backup.num(), old(temporary_page).spec_page()),
            old(self).mapper.spec_full_flushes() < u64::MAX,
            old(self).mapper.spec_page_flushes() < u64::MAX,
        ensures
            final(self).wf(),
            final(self).spec_cr3() == old(self).spec_cr3(),
            final(self).mapper.root() == old(self).spec_cr3(),
            final(self).mapper.spec_full_flushes() == old(self).mapper.spec_full_flushes() + 1,
            final(self).mapper.spec_page_flushes() == old(self).mapper.spec_page_flushes() + 1,
            final(temporary_page).wf(),
            final(temporary_page).spec_page() == old(temporary_page).spec_page(),
            final(temporary_page).pool() == old(temporary_page).pool(),
            final(self).mapper.frames() == old(self).mapper.frames(),
            forall|f: u64|
                old(self).mapper.lvl().contains_key(f) ==> final(self).mapper.lvl().contains_key(
                    f,
                ) && #[trigger] final(self).mapper.lvl()[f] == old(self).mapper.lvl()[f],
            // the temporary page no longer translates
            final(self).mapper.walk(old(temporary_page).spec_page()) == None::<(u64, u64)>,
            final(self).mapper.can_map(old(temporary_page).spec_page()),
            // the recursive slot of the active P4 points back at it
            entry_at(final(self).mapper.tbl(), old(self).spec_cr3(), 510) == spec_entry_bits(
                backup.num(),
                PRESENT_WRITABLE,
            ),
            // no other slot of the active P4 is touched
            forall|i: u64|
                0 <= i < 512 && i != 510 ==> #[trigger] entry_at(
                    final(self).mapper.tbl(),
                    old(self).spec_cr3(),
                    i,
                ) == entry_at(old(self).mapper.tbl(), old(self).spec_cr3(), i),
            // every other level-4 table is untouched
            forall|f: u64, i: u64|
                old(self).mapper.tbl().contains_key(f) && old(self).mapper.lvl()[f] == 4 && 0 <= i
                    < 512 && f != backup.num() ==> #[trigger] entry_at(
                    final(self).mapper.tbl(), f, i) == entry_at(old(self).mapper.tbl(), f, i),
            // and walks through every other hierarchy are untouched
            forall|r2: u64, q: Page|
                #![trigger spec_walk(final(self).mapper.tbl(), r2, q)]
                #![trigger spec_can_map(final(self).mapper.tbl(), r2, q)]
                #![trigger spec_mapped_4k(final(self).mapper.tbl(), r2, q)]
                old(self).mapper.tbl().contains_key(r2) && old(self).mapper.lvl()[r2] == 4
                    && q.wf() && q.spec_p4_index() != 510 && r2 != backup.num() ==> spec_walk(
                    final(self).mapper.tbl(), r2, q) == spec_walk(old(self).mapper.tbl(), r2, q)
                    && spec_can_map(final(self).mapper.tbl(), r2, q) == spec_can_map(
                    old(self).mapper.tbl(), r2, q) && spec_mapped_4k(
                    final(self).mapper.tbl(), r2, q) == spec_mapped_4k(
                    old(self).mapper.tbl(), r2, q),
    {
        let ghost s0 = *self;
        let cr3_frame = self.cr3;
        let bits = backup.number * PAGE_SIZE + PRESENT_WRITABLE;
        proof {
            lemma_present_writable();
            lemma_entry_round_trip(backup.num(), PRESENT_WRITABLE);
        }
        self.mapper.set_entry(cr3_frame, 510, bits);
        self.mapper.bump_full_flushes();
        self.mapper.set_root(backup.number);
        let ghost s1 = *self;
        proof {
            let m0 = s0.mapper.tbl();
            let m1 = s1.mapper.tbl();
            let lv = s1.mapper.lvl();
            assert(s1.mapper.wf()) by {
                assert(lv.dom() =~= m1.dom());
                assert forall|f: u64, i: u64| #[trigger] crate::mapper::edge(m1, lv, f, i) implies
                    m1.contains_key(spec_frame_of(entry_at(m1, f, i))) && lv[spec_frame_of(
                    entry_at(m1, f, i),
                )] == lv[f] - 1 by {
                    assert(!(f == cr3_frame && i == 510));
                    assert(entry_at(m1, f, i) == entry_at(m0, f, i));
                    assert(crate::mapper::edge(m0, lv, f, i));
                };
                assert forall|f: u64, i: u64, g: u64, j: u64|
                    crate::mapper::edge(m1, lv, f, i) && crate::mapper::edge(m1, lv, g, j)
                        && spec_frame_of(#[trigger] entry_at(m1, f, i)) == spec_frame_of(
                        #[trigger] entry_at(m1, g, j),
                    ) implies f == g && i == j by {
                    assert(entry_at(m1, f, i) == entry_at(m0, f, i));
                    assert(entry_at(m1, g, j) == entry_at(m0, g, j));
                    assert(crate::mapper::edge(m0, lv, f, i) && crate::mapper::edge(
                        m0, lv, g, j));
                };
            };
            // the temporary mapping reads none of the written slots
            let tp = temporary_page.spec_page();
            assert(spec_mapped_4k(m1, backup.num(), tp)) by {
                let t4 = tp.spec_p4_index();
                let t3 = tp.spec_p3_index();
                let t2 = tp.spec_p2_index();
                assert(t4 < 512 && t3 < 512 && t2 < 512 && tp.spec_p1_index() < 512) by {
                    let n = tp.num();
                    assert(((n >> 27) & 0x1ff) < 512 && ((n >> 18) & 0x1ff) < 512 && ((n >> 9)
                        & 0x1ff) < 512 && (n & 0x1ff) < 512) by (bit_vector);
                };
                assert(tp == old(temporary_page).spec_page());
                assert(m0 == old(self).mapper.tbl());
                assert(spec_mapped_4k(m0, backup.num(), tp));
                assert(t4 != 510);
                assert(m1 == m0.insert(backup.num(), m0[backup.num()].update(510int, bits)));
                let e4 = entry_at(m0, backup.num(), t4);
                assert(entry_at(m1, backup.num(), t4) == e4);
                let x3 = spec_frame_of(e4);
                assert(crate::mapper::edge(m0, lv, backup.num(), t4));
                assert(entry_at(m1, x3, t3) == entry_at(m0, x3, t3));
                let x2 = spec_frame_of(entry_at(m0, x3, t3));
                assert(crate::mapper::edge(m0, lv, x3, t3));
                assert(entry_at(m1, x2, t2) == entry_at(m0, x2, t2));
                let x1 = spec_frame_of(entry_at(m0, x2, t2));
                assert(crate::mapper::edge(m0, lv, x2, t2));
                assert(entry_at(m1, x1, tp.spec_p1_index()) == entry_at(
                    m0, x1, tp.spec_p1_index()));
            };
            // walks through hierarchies other than the original P4 read
            // none of the written slots
            assert forall|r2: u64, q: Page|
                #![trigger spec_walk(m1, r2, q)]
                #![trigger spec_can_map(m1, r2, q)]
                #![trigger spec_mapped_4k(m1, r2, q)]
                m0.contains_key(r2) && s0.mapper.lvl()[r2] == 4 && q.wf() && q.spec_p4_index()
                    != 510 && r2 != backup.num() implies spec_walk(m1, r2, q) == spec_walk(
                m0, r2, q) && spec_can_map(m1, r2, q) == spec_can_map(m0, r2, q)
                && spec_mapped_4k(m1, r2, q) == spec_mapped_4k(m0, r2, q) by {
                assert(lv == s0.mapper.lvl());
                assert(lv[r2] == 4);
                crate::entry::lemma_zero_entry();
                let q4 = q.spec_p4_index();
                let q3 = q.spec_p3_index();
                let q2 = q.spec_p2_index();
                let q1 = q.spec_p1_index();
                crate::page::lemma_index_bounds(q.num());
                let e4a = entry_at(m0, r2, q4);
                assert(entry_at(m1, r2, q4) == e4a);
                if spec_present(e4a) && !spec_huge(e4a) {
                    let g3 = spec_frame_of(e4a);
                    assert(crate::mapper::edge(m0, lv, r2, q4));
                    assert(lv[g3] == 3);
                    assert(forall|i2: u64|
                        0 <= i2 < 512 ==> entry_at(m1, g3, i2) == entry_at(m0, g3, i2));
                    let e3a = entry_at(m0, g3, q3);
                    if spec_present(e3a) && !spec_huge(e3a) {
                        let g2 = spec_frame_of(e3a);
                        assert(crate::mapper::edge(m0, lv, g3, q3));
                        assert(lv[g2] == 2);
                        assert(forall|i2: u64|
                            0 <= i2 < 512 ==> entry_at(m1, g2, i2) == entry_at(m0, g2, i2));
                        let e2a = entry_at(m0, g2, q2);
                        if spec_present(e2a) && !spec_huge(e2a) {
                            let g1 = spec_frame_of(e2a);
                            assert(crate::mapper::edge(m0, lv, g2, q2));
                            assert(lv[g1] == 1);
                            assert(forall|i2: u64|
                                0 <= i2 < 512 ==> entry_at(m1, g1, i2) == entry_at(m0, g1, i2));
                        }
                    }
                }
                assert(probe(m1, r2, q) == probe(m0, r2, q));
            };
        }
        temporary_page.unmap(self);
    }

    /// Switch the CPU onto `new_table` with a single CR3 write, and
    /// return the previously installed hierarchy.  The new table's
    /// recursive slot points at its own frame, so recursive walks keep
    /// working after the switch.
    pub fn switch(&mut self, new_table: InactivePageTable) -> (old_table: InactivePageTable)
        requires
            old(self).wf(),
            old(self).mapper.tbl().contains_key(new_table.spec_p4_frame()),
            old(self).mapper.lvl()[new_table.spec_p4_frame()] == 4,
            new_table.spec_p4_frame() < MAX_ENTRY_FRAME,
            entry_at(old(self).mapper.tbl(), new_table.spec_p4_frame(), 510) == spec_entry_bits(
                new_table.spec_p4_frame(),
                PRESENT_WRITABLE,
            ),
        ensures
            final(self).wf(),
            final(self).spec_cr3() == new_table.spec_p4_frame(),
            final(self).mapper.root() == new_table.spec_p4_frame(),
            final(self).mapper.tbl() == old(self).mapper.tbl(),
            final(self).mapper.lvl() == old(self).mapper.lvl(),
            final(self).mapper.spec_page_flushes() == old(self).mapper.spec_page_flushes(),
            final(self).mapper.spec_full_flushes() == old(self).mapper.spec_full_flushes(),
            old_table.spec_p4_frame() == old(self).spec_cr3(),
    {
        let old_table = InactivePageTable { p4_frame: Frame { number: self.cr3 } };
        // the single CR3 write is the activation
        self.cr3 = new_table.p4_frame.number;
        self.mapper.set_root(new_table.p4_frame.number);
        old_table
    }
}

/// Map every higher-half virtual page frame in `[start_frame, end_frame]`
/// to the physical frame at the same address minus the kernel base, with
/// the given flags.
#[verifier::rlimit(100)]
fn map_higher_half_range<A: FrameAllocator>(
    mapper: &mut Mapper,
    start_frame: u64,
    end_frame: u64,
    flags: u64,
    allocator: &mut A,
)
    requires
        old(mapper).wf(),
        flags & !crate::entry::FLAGS_MASK == 0,
        kernel_vma_frame() <= start_frame <= end_frame < crate::frame::MAX_FRAME_NUMBER,
        forall|n: u64|
            start_frame <= n <= end_frame ==> old(mapper).can_map(#[trigger] Page::spec_from_num(n)),
        old(allocator).inv(),
        old(allocator).avail().disjoint(old(mapper).frames()),
        forall|n: u64| old(allocator).avail().contains(n) ==> n < MAX_ENTRY_FRAME,
        old(allocator).avail().finite(),
        old(allocator).avail().len() >= 3 * (end_frame + 1 - start_frame),
    ensures
        final(mapper).wf(),
        final(mapper).root() == old(mapper).root(),
        final(mapper).spec_page_flushes() == old(mapper).spec_page_flushes(),
        final(mapper).spec_full_flushes() == old(mapper).spec_full_flushes(),
        forall|n: u64|
            start_frame <= n <= end_frame ==> final(mapper).walk(#[trigger] Page::spec_from_num(n))
                == Some(((n - kernel_vma_frame()) as u64, flags | PRESENT))
                && final(mapper).mapped_4k(Page::spec_from_num(n)),
        old(mapper).frames().subset_of(final(mapper).frames()),
        final(mapper).frames().subset_of(old(mapper).frames().union(old(allocator).avail())),
        final(allocator).inv(),
        final(allocator).avail().subset_of(old(allocator).avail()),
        final(allocator).avail().finite(),
        final(allocator).avail().len() + 3 * (end_frame + 1 - start_frame) >= old(
            allocator,
        ).avail().len(),
        final(allocator).avail().disjoint(final(mapper).frames()),
        forall|f: u64|
            old(mapper).lvl().contains_key(f) ==> final(mapper).lvl().contains_key(f) && #[trigger]
            final(mapper).lvl()[f] == old(mapper).lvl()[f],
        forall|f: u64, i: u64|
            old(mapper).tbl().contains_key(f) && old(mapper).lvl()[f] == 4 && 0 <= i < 512 && !(f
                == old(mapper).root() && i == 511) ==> #[trigger] entry_at(
                final(mapper).tbl(), f, i) == entry_at(old(mapper).tbl(), f, i),
        forall|r2: u64, q: Page|
            #![trigger spec_walk(final(mapper).tbl(), r2, q)]
            #![trigger spec_can_map(final(mapper).tbl(), r2, q)]
            #![trigger spec_mapped_4k(final(mapper).tbl(), r2, q)]
            old(mapper).tbl().contains_key(r2) && old(mapper).lvl()[r2] == 4 && q.wf()
                && q.spec_p4_index() != 510 && !(r2 == old(mapper).root() && start_frame
                <= q.num() <= end_frame) ==> spec_walk(final(mapper).tbl(), r2, q) == spec_walk(
                old(mapper).tbl(), r2, q) && spec_can_map(final(mapper).tbl(), r2, q)
                == spec_can_map(old(mapper).tbl(), r2, q) && spec_mapped_4k(
                final(mapper).tbl(), r2, q) == spec_mapped_4k(old(mapper).tbl(), r2, q),
{
    let ghost s0 = *mapper;
    let ghost a0 = *allocator;
    let mut n = start_frame;
    while n <= end_frame
        invariant
            old(mapper).wf(),
            start_frame <= n <= end_frame + 1,
            kernel_vma_frame() <= start_frame <= end_frame < crate::frame::MAX_FRAME_NUMBER,
            flags & !crate::entry::FLAGS_MASK == 0,
            s0 == *old(mapper),
            a0 == *old(allocator),
            mapper.wf(),
            mapper.root() == s0.root(),
            mapper.spec_page_flushes() == s0.spec_page_flushes(),
            mapper.spec_full_flushes() == s0.spec_full_flushes(),
            forall|m: u64|
                start_frame <= m < n ==> mapper.walk(#[trigger] Page::spec_from_num(m)) == Some(
                    ((m - kernel_vma_frame()) as u64, flags | PRESENT),
                ) && mapper.mapped_4k(Page::spec_from_num(m)),
            forall|m: u64|
                n <= m <= end_frame ==> mapper.can_map(#[trigger] Page::spec_from_num(m)),
            s0.frames().subset_of(mapper.frames()),
            mapper.frames().subset_of(s0.frames().union(a0.avail())),
            allocator.inv(),
            allocator.avail().subset_of(a0.avail()),
            allocator.avail().finite(),
            allocator.avail().len() >= 3 * (end_frame + 1 - n),
            allocator.avail().len() + 3 * (n - start_frame) >= a0.avail().len(),
            forall|k: u64| allocator.avail().contains(k) ==> k < MAX_ENTRY_FRAME,
            allocator.avail().disjoint(mapper.frames()),
            forall|f: u64|
                s0.lvl().contains_key(f) ==> mapper.lvl().contains_key(f) && #[trigger]
                mapper.lvl()[f] == s0.lvl()[f],
            forall|f: u64, i: u64|
                s0.tbl().contains_key(f) && s0.lvl()[f] == 4 && 0 <= i < 512 && !(f == s0.root()
                    && i == 511) ==> #[trigger] entry_at(mapper.tbl(), f, i) == entry_at(
                    s0.tbl(), f, i),
            forall|r2: u64, q: Page|
                #![trigger spec_walk(mapper.tbl(), r2, q)]
                #![trigger spec_can_map(mapper.tbl(), r2, q)]
                #![trigger spec_mapped_4k(mapper.tbl(), r2, q)]
                s0.tbl().contains_key(r2) && s0.lvl()[r2] == 4 && q.wf() && q.spec_p4_index()
                    != 510 && !(r2 == s0.root() && start_frame <= q.num() < n) ==> spec_walk(
                    mapper.tbl(), r2, q) == spec_walk(s0.tbl(), r2, q) && spec_can_map(
                    mapper.tbl(), r2, q) == spec_can_map(s0.tbl(), r2, q) && spec_mapped_4k(
                    mapper.tbl(), r2, q) == spec_mapped_4k(s0.tbl(), r2, q),
        decreases end_frame + 1 - n,
    {
        let ghost pre = *mapper;
        let ghost prea = *allocator;
        let virtual_address = n * PAGE_SIZE;
        proof {
            assert(n * 4096 >= (KERNEL_VMA / 4096) * 4096 && n * 4096 < 0x10_0000_0000_0000
                * 4096) by (nonlinear_arith)
                requires
                    KERNEL_VMA / 4096 <= n < 0x10_0000_0000_0000u64,
            ;
            assert((KERNEL_VMA / 4096) * 4096 == KERNEL_VMA);
            assert(n * 4096 / 4096 == n) by (nonlinear_arith);
        }
        let page = Page::containing_address(virtual_address);
        let target = Frame::containing_address(virtual_address - KERNEL_VMA);
        proof {
            assert((n * 4096 - KERNEL_VMA) / 4096 == n - KERNEL_VMA / 4096) by (nonlinear_arith)
                requires
                    KERNEL_VMA / 4096 <= n,
                    KERNEL_VMA == (KERNEL_VMA / 4096) * 4096,
            ;
            assert(target.num() < MAX_ENTRY_FRAME);
            assert(page == Page::spec_from_num(n));
            crate::page::lemma_higher_half_p4_index(n);
                    assert(page.spec_p4_index() == 511);
        }
        mapper.map_to(page, target, flags, allocator);
        proof {
            let kv = kernel_vma_frame();
            // all earlier pages, and everything in other hierarchies,
            // keep their walks
            assert forall|m: u64|
                start_frame <= m < n + 1 implies mapper.walk(#[trigger] Page::spec_from_num(m))
                == Some(((m - kv) as u64, flags | PRESENT)) && mapper.mapped_4k(
                Page::spec_from_num(m)) by {
                if m < n {
                    let q = Page::spec_from_num(m);
                    assert(q.wf());
                    crate::page::lemma_higher_half_p4_index(m);
                    assert(q.spec_p4_index() == 511);
                    if same_path(q, page) {
                        crate::page::lemma_same_indices_same_page(q, page);
                    }
                    assert(mapper.walk(q) == pre.walk(q));
                }
            };
            assert forall|m: u64|
                n + 1 <= m <= end_frame implies mapper.can_map(
                #[trigger] Page::spec_from_num(m)) by {
                let q = Page::spec_from_num(m);
                assert(q.wf());
                crate::page::lemma_higher_half_p4_index(m);
                    assert(q.spec_p4_index() == 511);
                if same_path(q, page) {
                    crate::page::lemma_same_indices_same_page(q, page);
                }
                assert(mapper.can_map(q) == pre.can_map(q));
            };
            assert forall|f: u64, i: u64|
                s0.tbl().contains_key(f) && s0.lvl()[f] == 4 && 0 <= i < 512 && !(f == s0.root()
                    && i == 511) implies #[trigger] entry_at(mapper.tbl(), f, i) == entry_at(
                s0.tbl(), f, i) by {
                assert(entry_at(mapper.tbl(), f, i) == entry_at(pre.tbl(), f, i));
            };
            assert forall|r2: u64, q: Page|
                #![trigger spec_walk(mapper.tbl(), r2, q)]
                #![trigger spec_can_map(mapper.tbl(), r2, q)]
                #![trigger spec_mapped_4k(mapper.tbl(), r2, q)]
                s0.tbl().contains_key(r2) && s0.lvl()[r2] == 4 && q.wf() && q.spec_p4_index()
                    != 510 && !(r2 == s0.root() && start_frame <= q.num() < n + 1) implies
                spec_walk(mapper.tbl(), r2, q) == spec_walk(s0.tbl(), r2, q) && spec_can_map(
                mapper.tbl(), r2, q) == spec_can_map(s0.tbl(), r2, q) && spec_mapped_4k(
                mapper.tbl(), r2, q) == spec_mapped_4k(s0.tbl(), r2, q) by {
                if r2 == s0.root() && same_path(q, page) {
                    crate::page::lemma_same_indices_same_page(q, page);
                }
                assert(spec_walk(mapper.tbl(), r2, q) == spec_walk(pre.tbl(), r2, q)
                    && spec_can_map(mapper.tbl(), r2, q) == spec_can_map(pre.tbl(), r2, q)
                    && spec_mapped_4k(mapper.tbl(), r2, q) == spec_mapped_4k(pre.tbl(), r2, q));
                assert(spec_walk(pre.tbl(), r2, q) == spec_walk(s0.tbl(), r2, q)
                    && spec_can_map(pre.tbl(), r2, q) == spec_can_map(s0.tbl(), r2, q)
                    && spec_mapped_4k(pre.tbl(), r2, q) == spec_mapped_4k(s0.tbl(), r2, q));
            };
        }
        n = n + 1;
    }
}

/// Remap the kernel: build a fresh page-table hierarchy that maps every
/// allocated higher-half ELF section with flags derived from its section
/// flags, the VGA framebuffer, and the Multiboot information blob, while
/// leaving the stack guard page unmapped, then switch the CPU onto the
/// new hierarchy.
#[verifier::rlimit(100)]
pub fn remap_the_kernel<A: FrameAllocator>(
    active_table: &mut ActivePageTable,
    allocator: &mut A,
    boot_info: &BootData,
    guard_page_addr: u64,
)
    requires
        old(active_table).wf(),
        old(active_table).mapper.root() == old(active_table).spec_cr3(),
        old(active_table).spec_cr3() < MAX_ENTRY_FRAME,
        old(active_table).mapper.spec_page_flushes() + 8 < u64::MAX,
        old(active_table).mapper.spec_full_flushes() + 8 < u64::MAX,
        // the temporary page is still free in the bootstrap hierarchy
        old(active_table).mapper.can_map(Page::spec_containing(TEMP_PAGE)),
        old(allocator).inv(),
        old(allocator).avail().disjoint(old(active_table).mapper.frames()),
        forall|k: u64| old(allocator).avail().contains(k) ==> k < MAX_ENTRY_FRAME,
        old(allocator).avail().finite(),
        old(allocator).avail().len() >= 7 + 3 * (pages_from(boot_info.elf_sections@, 0) + 1 + (
        ((boot_info.multiboot_end - 1) as u64) / PAGE_SIZE + 1 - boot_info.multiboot_start
            / PAGE_SIZE)),
        // sections the remap maps are page aligned, non-empty and bounded
        forall|j: int|
            0 <= j < boot_info.elf_sections@.len() && section_relevant(
                #[trigger] boot_info.elf_sections@[j],
            ) ==> boot_info.elf_sections@[j].start_address % PAGE_SIZE == 0
                && boot_info.elf_sections@[j].start_address
                < boot_info.elf_sections@[j].end_address,
        // their page ranges do not overlap
        forall|j: int, k: int|
            0 <= j < k < boot_info.elf_sections@.len() && section_relevant(
                #[trigger] boot_info.elf_sections@[j],
            ) && section_relevant(#[trigger] boot_info.elf_sections@[k]) ==> sec_last(
                boot_info.elf_sections@[j],
            ) < sec_first(boot_info.elf_sections@[k]) || sec_last(boot_info.elf_sections@[k])
                < sec_first(boot_info.elf_sections@[j]),
        // the framebuffer page lies in no section and not in the blob
        forall|j: int|
            0 <= j < boot_info.elf_sections@.len() ==> !in_section_pages(
                #[trigger] boot_info.elf_sections@[j],
                VGA_BUFFER_VMA / PAGE_SIZE,
            ),
        // the Multiboot blob is higher-half and overlaps nothing else
        KERNEL_VMA <= boot_info.multiboot_start < boot_info.multiboot_end,
        forall|j: int, n: u64|
            0 <= j < boot_info.elf_sections@.len() && boot_info.multiboot_start / PAGE_SIZE <= n
                <= ((boot_info.multiboot_end - 1) as u64) / PAGE_SIZE ==> !#[trigger]
            in_section_pages(boot_info.elf_sections@[j], n),
        !(boot_info.multiboot_start / PAGE_SIZE <= VGA_BUFFER_VMA / PAGE_SIZE <= ((
        boot_info.multiboot_end - 1) as u64) / PAGE_SIZE),
        // the guard page is aligned and sits inside a mapped section
        guard_page_addr % PAGE_SIZE == 0,
        KERNEL_VMA <= guard_page_addr,
        exists|j: int|
            0 <= j < boot_info.elf_sections@.len() && in_section_pages(
                #[trigger] boot_info.elf_sections@[j],
                guard_page_addr / PAGE_SIZE,
            ),
        guard_page_addr / PAGE_SIZE != VGA_BUFFER_VMA / PAGE_SIZE,
        !(boot_info.multiboot_start / PAGE_SIZE <= guard_page_addr / PAGE_SIZE <= ((
        boot_info.multiboot_end - 1) as u64) / PAGE_SIZE),
    ensures
        final(active_table).wf(),
        // recursive accesses reach the newly installed P4 again
        final(active_table).spec_cr3() == final(active_table).mapper.root(),
        // every page of a mapped section translates with its derived
        // flags, except the guard page
        forall|j: int, n: u64|
            0 <= j < boot_info.elf_sections@.len() && #[trigger] in_section_pages(
                boot_info.elf_sections@[j],
                n,
            ) && n != guard_page_addr / PAGE_SIZE ==> final(active_table).mapper.walk(
                Page::spec_from_num(n),
            ) == Some(
                ((n - kernel_vma_frame()) as u64, sec_flags(boot_info.elf_sections@[j]) | PRESENT),
            ) && final(active_table).mapper.mapped_4k(Page::spec_from_num(n)),
        // the framebuffer page translates to the VGA buffer, writable
        final(active_table).mapper.walk(Page::spec_containing(VGA_BUFFER_VMA)) == Some(
             (0xb8000u64 / PAGE_SIZE, WRITABLE | PRESENT),
        ),
        final(active_table).mapper.mapped_4k(Page::spec_containing(VGA_BUFFER_VMA)),
        // the Multiboot blob pages translate, present only
        forall|n: u64|
            boot_info.multiboot_start / PAGE_SIZE <= n <= ((boot_info.multiboot_end - 1) as u64)
                / PAGE_SIZE ==> final(active_table).mapper.walk(#[trigger] Page::spec_from_num(n))
                == Some(((n - kernel_vma_frame()) as u64, PRESENT | PRESENT))
                && final(active_table).mapper.mapped_4k(Page::spec_from_num(n)),
        // the guard page does not translate, and could be mapped afresh
        final(active_table).mapper.walk(Page::spec_containing(guard_page_addr)) == None::<
            (u64, u64),
        >,
        final(active_table).mapper.can_map(Page::spec_containing(guard_page_addr)),
        // and nothing else translates: exactly the sections, the
        // framebuffer and the blob are mapped
        forall|q: Page|
            #![trigger final(active_table).mapper.walk(q)]
            #![trigger final(active_table).mapper.can_map(q)]
            q.wf() && q.spec_p4_index() != 510 && (forall|j: int|
                0 <= j < boot_info.elf_sections@.len() ==> !in_section_pages(
                    #[trigger] boot_info.elf_sections@[j],
                    q.num(),
                )) && q.num() != VGA_BUFFER_VMA / PAGE_SIZE && !(boot_info.multiboot_start
                / PAGE_SIZE <= q.num() <= ((boot_info.multiboot_end - 1) as u64) / PAGE_SIZE)
                ==> final(active_table).mapper.walk(q) == None::<(u64, u64)>
                && final(active_table).mapper.can_map(q),
        // no walk of the new hierarchy meets a misaligned huge entry, so
        // translation is defined on all of it
        forall|q: Page|
            #![trigger final(active_table).mapper.walk_aligned(q)]
            q.wf() && q.spec_p4_index() != 510 ==> final(active_table).mapper.walk_aligned(q),
{
    let ghost ss = boot_info.elf_sections@;
    let ghost kv = kernel_vma_frame();
    let ghost mbf = boot_info.multiboot_start / PAGE_SIZE;
    let ghost mbl = ((boot_info.multiboot_end - 1) as u64) / PAGE_SIZE;
    let ghost gf = guard_page_addr / PAGE_SIZE;
    let ghost vf = VGA_BUFFER_VMA / PAGE_SIZE;
    proof {
        assert(((0xffff_ffff_f000_0000u64 / 4096) >> 27) & 0x1ff == 511
            && 0xffff_ffff_f000_0000u64 / 4096 >= 0xf_ffff_fff8_0000u64
            && 0xffff_ffff_f000_0000u64 / 4096 < 0x10_0000_0000_0000u64) by (bit_vector);
        assert(TEMP_PAGE == 0xffff_ffff_f000_0000u64);
        lemma_pages_from_nonneg(ss, 0);
        assert forall|j: int|
            0 <= j < ss.len() && section_relevant(#[trigger] ss[j]) implies sec_first(ss[j])
            <= sec_last(ss[j]) && kernel_vma_frame() <= sec_first(ss[j]) && sec_last(ss[j])
            < crate::frame::MAX_FRAME_NUMBER by {
            let sa = ss[j].start_address;
            let ea = ss[j].end_address;
            assert(sa / 4096 <= (ea - 1) as u64 / 4096 && 0xffff_ffff_8000_0000u64 / 4096 <= sa
                / 4096 && ((ea - 1) as u64) / 4096 < 0x10_0000_0000_0000u64) by (bit_vector)
                requires
                    0xffff_ffff_8000_0000u64 <= sa < ea,
            ;
        };
        lemma_pages_from_nonneg(ss, 0);
    }
    // Build the temporary page and the fresh top-level table.
    let mut temporary_page = TemporaryPage::new(Page::containing_address(TEMP_PAGE), allocator);
    let frame = match allocator.allocate_frame() {
        Some(f) => f,
        None => {
            proof {
                vstd::set_lib::lemma_set_empty_equivalency_len(allocator.avail());
                assert(false);
            }
            Frame { number: 0 }
        },
    };
    proof {
        vstd::set::axiom_set_remove_len(old(allocator).avail(), frame.num());
    }
    let mut new_table = InactivePageTable::new(frame, active_table, &mut temporary_page);
    let ghost sa = *active_table;
    let guard_page = Page::containing_address(guard_page_addr);
    // Redirect the recursive slot at the new hierarchy and fill it in.
    let backup = active_table.begin_with(&new_table, &mut temporary_page);
    let ghost sb = *active_table;
    let ghost ab = *allocator;
    let ghost newp4 = frame.num();
    let ghost origroot = backup.num();
    proof {
        crate::entry::lemma_zero_entry();
        assert(entry_at(sb.mapper.tbl(), newp4, 510) == spec_entry_bits(
            newp4, PRESENT_WRITABLE));
        assert forall|q: Page|
            #![trigger sb.mapper.can_map(q)]
            #![trigger sb.mapper.walk(q)]
            q.wf() && q.spec_p4_index() != 510 implies sb.mapper.can_map(q) && sb.mapper.walk(q)
            == None::<(u64, u64)> by {
            let q4 = q.spec_p4_index();
            assert(q4 < 512) by {
                let x = q.num();
                assert(((x >> 27) & 0x1ff) < 512) by (bit_vector);
            };
            assert(entry_at(sb.mapper.tbl(), newp4, q4) == entry_at(sa.mapper.tbl(), newp4, q4));
            assert(entry_at(sa.mapper.tbl(), newp4, q4) == 0);
        };
        assert(mbf <= mbl && kernel_vma_frame() <= mbf && mbl < crate::frame::MAX_FRAME_NUMBER)
            by {
            let ms = boot_info.multiboot_start;
            let me = boot_info.multiboot_end;
            assert(ms / 4096 <= ((me - 1) as u64) / 4096 && 0xffff_ffff_8000_0000u64 / 4096 <= ms
                / 4096 && ((me - 1) as u64) / 4096 < 0x10_0000_0000_0000u64) by (bit_vector)
                requires
                    0xffff_ffff_8000_0000u64 <= ms < me,
            ;
        };
    }
    let n_sections = boot_info.elf_sections.len();
    let mut i: usize = 0;
    while i < n_sections
        invariant
            n_sections == ss.len(),
            boot_info.elf_sections@ == ss,
            0 <= i <= n_sections,
            active_table.wf(),
            active_table.spec_cr3() == origroot,
            active_table.mapper.root() == newp4,
            newp4 != origroot,
            active_table.mapper.tbl().contains_key(origroot),
            active_table.mapper.lvl()[origroot] == 4,
            active_table.mapper.tbl().contains_key(newp4),
            active_table.mapper.lvl()[newp4] == 4,
            newp4 < MAX_ENTRY_FRAME,
            origroot < MAX_ENTRY_FRAME,
            active_table.mapper.spec_page_flushes() == sb.mapper.spec_page_flushes(),
            active_table.mapper.spec_full_flushes() == sb.mapper.spec_full_flushes(),
            sb.mapper.spec_page_flushes() + 7 < u64::MAX,
            sb.mapper.spec_full_flushes() + 7 < u64::MAX,
            // inputs, restated so the loop can use them
            forall|j: int|
                0 <= j < ss.len() && section_relevant(#[trigger] ss[j]) ==> sec_first(ss[j])
                    <= sec_last(ss[j]) && kernel_vma_frame() <= sec_first(ss[j]) && sec_last(
                    ss[j],
                ) < crate::frame::MAX_FRAME_NUMBER && ss[j].start_address < ss[j].end_address,
            forall|j: int, k: int|
                0 <= j < k < ss.len() && section_relevant(#[trigger] ss[j]) && section_relevant(
                    #[trigger] ss[k],
                ) ==> sec_last(ss[j]) < sec_first(ss[k]) || sec_last(ss[k]) < sec_first(ss[j]),
            // pages of processed sections are mapped with their flags
            forall|j: int, n: u64|
                0 <= j < i && #[trigger] in_section_pages(ss[j], n)
                    ==> active_table.mapper.walk(Page::spec_from_num(n)) == Some(
                    ((n - kernel_vma_frame()) as u64, sec_flags(ss[j]) | PRESENT),
                ) && active_table.mapper.mapped_4k(Page::spec_from_num(n)),
            // everything else is still unmapped and mappable
            forall|q: Page|
                #![trigger active_table.mapper.can_map(q)]
                #![trigger active_table.mapper.walk(q)]
                q.wf() && q.spec_p4_index() != 510 && (forall|j: int|
                    0 <= j < i ==> !in_section_pages(#[trigger] ss[j], q.num()))
                    ==> active_table.mapper.can_map(q) && active_table.mapper.walk(q) == None::<
                    (u64, u64),
                >,
            // the temporary mapping of the original P4 stays intact
            spec_mapped_4k(
                active_table.mapper.tbl(),
                origroot,
                temporary_page.spec_page(),
            ),
            temporary_page.wf(),
            temporary_page.spec_page() == Page::spec_containing(TEMP_PAGE),
            // the new P4's recursive slot still points at itself
            entry_at(active_table.mapper.tbl(), newp4, 510) == spec_entry_bits(
                newp4,
                PRESENT_WRITABLE,
            ),
            // the allocator can still fill everything that remains
            allocator.inv(),
            allocator.avail().finite(),
            allocator.avail().disjoint(active_table.mapper.frames()),
            forall|k: u64| allocator.avail().contains(k) ==> k < MAX_ENTRY_FRAME,
            allocator.avail().len() >= 3 * (pages_from(ss, i as int) + 1 + (mbl + 1 - mbf)),
            mbf <= mbl,
            kernel_vma_frame() <= mbf,
            mbl < crate::frame::MAX_FRAME_NUMBER,
        decreases n_sections - i,
    {
        let section = boot_info.elf_sections[i];
        proof {
            assert(section == ss[i as int]);
            assert(pages_from(ss, i as int) == sec_pages(ss[i as int]) + pages_from(
                ss,
                i as int + 1,
            ));
            lemma_pages_from_nonneg(ss, i as int + 1);
        }
        if section.allocated && section.start_address >= KERNEL_VMA {
            proof {
                assert(section_relevant(ss[i as int]));
            }
            let flags = crate::entry::from_elf_section(
                section.allocated,
                section.writable,
                section.executable,
            );
            proof {
                crate::entry::lemma_elf_flags(section.allocated, section.writable,
                    section.executable);
            }
            let start_f = Frame::containing_address(section.start_address);
            let end_f = Frame::containing_address(section.end_address - 1);
            let ghost pre = *active_table;
            let ghost prea = *allocator;
            proof {
                assert forall|n: u64|
                    start_f.num() <= n <= end_f.num() implies active_table.mapper.can_map(
                    #[trigger] Page::spec_from_num(n)) by {
                    let q = Page::spec_from_num(n);
                    crate::page::lemma_higher_half_p4_index(n);
                assert(q.wf() && q.spec_p4_index() != 510);
                    assert forall|j: int| 0 <= j < i implies !in_section_pages(
                        #[trigger] ss[j],
                        q.num(),
                    ) by {
                        if in_section_pages(ss[j], n) && section_relevant(ss[i as int]) {
                            assert(false);
                        }
                    };
                };
            }
            map_higher_half_range(
                &mut active_table.mapper,
                start_f.number,
                end_f.number,
                flags,
                allocator,
            );
            proof {
                let m = active_table.mapper.tbl();
                // processed sections, the temporary mapping and the
                // recursive slot survive this range
                assert forall|j: int, n: u64|
                    0 <= j < i + 1 && #[trigger] in_section_pages(ss[j], n) implies
                    active_table.mapper.walk(Page::spec_from_num(n)) == Some(
                    ((n - kernel_vma_frame()) as u64, sec_flags(ss[j]) | PRESENT),
                ) && active_table.mapper.mapped_4k(Page::spec_from_num(n)) by {
                    let q = Page::spec_from_num(n);
                    crate::page::lemma_higher_half_p4_index(n);
                assert(q.wf() && q.spec_p4_index() != 510);
                    if j < i {
                        assert(!(start_f.num() <= n <= end_f.num()));
                        assert(spec_walk(m, newp4, q) == spec_walk(pre.mapper.tbl(), newp4, q));
                    } else {
                        assert(sec_flags(ss[j]) == flags);
                    }
                };
                assert forall|q: Page|
                    #![trigger active_table.mapper.can_map(q)]
                    #![trigger active_table.mapper.walk(q)]
                    q.wf() && q.spec_p4_index() != 510 && (forall|j: int|
                        0 <= j < i + 1 ==> !in_section_pages(#[trigger] ss[j], q.num()))
                        implies active_table.mapper.can_map(q) && active_table.mapper.walk(q)
                    == None::<(u64, u64)> by {
                    assert(!in_section_pages(ss[i as int], q.num()));
                    assert(!(start_f.num() <= q.num() <= end_f.num()));
                    assert(spec_walk(m, newp4, q) == spec_walk(pre.mapper.tbl(), newp4, q));
                    assert(spec_can_map(m, newp4, q) == spec_can_map(
                        pre.mapper.tbl(), newp4, q));
                };
                let tp = temporary_page.spec_page();
                assert(spec_mapped_4k(m, origroot, tp) == spec_mapped_4k(
                    pre.mapper.tbl(), origroot, tp));
            }
        }
        i = i + 1;
    }
    // Map the framebuffer.
    let vga_page = Page::containing_address(VGA_BUFFER_VMA);
    let ghost s_vga = *active_table;
    proof {
        assert(((0xffff_ffff_800b_8000u64 / 4096) >> 27) & 0x1ff == 511
            && 0xffff_ffff_800b_8000u64 / 4096 >= 0xf_ffff_fff8_0000u64
            && 0xffff_ffff_800b_8000u64 / 4096 < 0x10_0000_0000_0000u64 && (0xb8000u64 / 4096)
            < 0x100_0000_0000u64) by (bit_vector);
        assert(VGA_BUFFER_VMA == 0xffff_ffff_800b_8000u64);
        assert(vga_page.wf() && vga_page.spec_p4_index() != 510);
        assert(active_table.mapper.can_map(vga_page));
        assert(WRITABLE & !crate::entry::FLAGS_MASK == 0) by (bit_vector);
        lemma_pages_from_nonneg(ss, 0);
    }
    active_table.mapper.map_to(
        vga_page,
        Frame::containing_address(0xb8000),
        WRITABLE,
        allocator,
    );
    proof {
        let m = active_table.mapper.tbl();
        let tp = temporary_page.spec_page();
        assert(spec_mapped_4k(m, origroot, tp) == spec_mapped_4k(
            s_vga.mapper.tbl(), origroot, tp));
        assert forall|j: int, n: u64|
            0 <= j < ss.len() && #[trigger] in_section_pages(ss[j], n) implies
            active_table.mapper.walk(Page::spec_from_num(n)) == Some(
            ((n - kernel_vma_frame()) as u64, sec_flags(ss[j]) | PRESENT),
        ) && active_table.mapper.mapped_4k(Page::spec_from_num(n)) by {
            let q = Page::spec_from_num(n);
            crate::page::lemma_higher_half_p4_index(n);
                assert(q.wf() && q.spec_p4_index() != 510);
            if same_path(q, vga_page) {
                crate::page::lemma_same_indices_same_page(q, vga_page);
            }
            assert(active_table.mapper.walk(q) == s_vga.mapper.walk(q));
        };
        assert forall|n: u64|
            mbf <= n <= mbl implies active_table.mapper.can_map(
            #[trigger] Page::spec_from_num(n)) by {
            let q = Page::spec_from_num(n);
            crate::page::lemma_higher_half_p4_index(n);
                assert(q.wf() && q.spec_p4_index() != 510);
            if same_path(q, vga_page) {
                crate::page::lemma_same_indices_same_page(q, vga_page);
            }
            assert(s_vga.mapper.can_map(q));
            assert(active_table.mapper.can_map(q) == s_vga.mapper.can_map(q));
        };
        assert(active_table.mapper.mapped_4k(vga_page));
        assert forall|q: Page|
            #![trigger active_table.mapper.can_map(q)]
            #![trigger active_table.mapper.walk(q)]
            q.wf() && q.spec_p4_index() != 510 && q.num() != vf && (forall|j: int|
                0 <= j < ss.len() ==> !in_section_pages(#[trigger] ss[j], q.num()))
            implies active_table.mapper.can_map(q) && active_table.mapper.walk(q) == None::<
            (u64, u64),
        > by {
            if same_path(q, vga_page) {
                crate::page::lemma_same_indices_same_page(q, vga_page);
            }
            assert(s_vga.mapper.can_map(q) && s_vga.mapper.walk(q) == None::<(u64, u64)>);
            assert(active_table.mapper.walk(q) == s_vga.mapper.walk(q)
                && active_table.mapper.can_map(q) == s_vga.mapper.can_map(q));
        };
    }
    // Map the Multiboot information blob, present only.
    let mb_start_f = Frame::containing_address(boot_info.multiboot_start);
    let mb_end_f = Frame::containing_address(boot_info.multiboot_end - 1);
    let ghost s_mb = *active_table;
    proof {
        assert(PRESENT & !crate::entry::FLAGS_MASK == 0) by (bit_vector);
    }
    map_higher_half_range(
        &mut active_table.mapper,
        mb_start_f.number,
        mb_end_f.number,
        PRESENT,
        allocator,
    );
    proof {
        let m = active_table.mapper.tbl();
        let tp = temporary_page.spec_page();
        assert(spec_mapped_4k(m, origroot, tp) == spec_mapped_4k(
            s_mb.mapper.tbl(), origroot, tp));
        assert forall|j: int, n: u64|
            0 <= j < ss.len() && #[trigger] in_section_pages(ss[j], n) implies
            active_table.mapper.walk(Page::spec_from_num(n)) == Some(
            ((n - kernel_vma_frame()) as u64, sec_flags(ss[j]) | PRESENT),
        ) && active_table.mapper.mapped_4k(Page::spec_from_num(n)) by {
            let q = Page::spec_from_num(n);
            crate::page::lemma_higher_half_p4_index(n);
                assert(q.wf() && q.spec_p4_index() != 510);
            assert(!(mbf <= n <= mbl));
            assert(active_table.mapper.walk(q) == s_mb.mapper.walk(q));
        };
        assert(active_table.mapper.walk(vga_page) == s_mb.mapper.walk(vga_page)
            && active_table.mapper.mapped_4k(vga_page) == s_mb.mapper.mapped_4k(vga_page)) by {
            assert(!(mbf <= vga_page.num() <= mbl));
        };
        assert forall|q: Page|
            #![trigger active_table.mapper.can_map(q)]
            #![trigger active_table.mapper.walk(q)]
            q.wf() && q.spec_p4_index() != 510 && q.num() != vf && !(mbf <= q.num() <= mbl) && (
            forall|j: int| 0 <= j < ss.len() ==> !in_section_pages(#[trigger] ss[j], q.num()))
            implies active_table.mapper.can_map(q) && active_table.mapper.walk(q) == None::<
            (u64, u64),
        > by {
            assert(s_mb.mapper.can_map(q) && s_mb.mapper.walk(q) == None::<(u64, u64)>);
            assert(active_table.mapper.walk(q) == s_mb.mapper.walk(q)
                && active_table.mapper.can_map(q) == s_mb.mapper.can_map(q));
        };
    }
    // Unmap the stack guard page: stack overflow must fault.
    let ghost s_guard = *active_table;
    proof {
        assert(guard_page.wf() && guard_page.spec_p4_index() != 510) by {
            let x = guard_page_addr;
            assert(((x / 4096) >> 27) & 0x1ff == 511 && x / 4096 >= 0xf_ffff_fff8_0000u64 && x
                / 4096 < 0x10_0000_0000_0000u64) by (bit_vector)
                requires
                    x >= 0xffff_ffff_8000_0000u64,
            ;
        };
        assert(active_table.mapper.mapped_4k(guard_page));
    }
    active_table.mapper.unmap(guard_page, allocator);
    proof {
        let m = active_table.mapper.tbl();
        let tp = temporary_page.spec_page();
        assert(spec_mapped_4k(m, origroot, tp) == spec_mapped_4k(
            s_guard.mapper.tbl(), origroot, tp));
        assert forall|j: int, n: u64|
            0 <= j < ss.len() && #[trigger] in_section_pages(ss[j], n) && n != gf implies
            active_table.mapper.walk(Page::spec_from_num(n)) == Some(
            ((n - kernel_vma_frame()) as u64, sec_flags(ss[j]) | PRESENT),
        ) && active_table.mapper.mapped_4k(Page::spec_from_num(n)) by {
            let q = Page::spec_from_num(n);
            crate::page::lemma_higher_half_p4_index(n);
                assert(q.wf() && q.spec_p4_index() != 510);
            if same_path(q, guard_page) {
                crate::page::lemma_same_indices_same_page(q, guard_page);
            }
            assert(active_table.mapper.walk(q) == s_guard.mapper.walk(q)
                && active_table.mapper.mapped_4k(q) == s_guard.mapper.mapped_4k(q));
        };
        assert forall|n: u64|
            mbf <= n <= mbl implies active_table.mapper.walk(#[trigger] Page::spec_from_num(n))
            == Some(((n - kernel_vma_frame()) as u64, PRESENT | PRESENT))
            && active_table.mapper.mapped_4k(Page::spec_from_num(n)) by {
            let q = Page::spec_from_num(n);
            crate::page::lemma_higher_half_p4_index(n);
                assert(q.wf() && q.spec_p4_index() != 510);
            if same_path(q, guard_page) {
                crate::page::lemma_same_indices_same_page(q, guard_page);
            }
            assert(active_table.mapper.walk(q) == s_guard.mapper.walk(q)
                && active_table.mapper.mapped_4k(q) == s_guard.mapper.mapped_4k(q));
        };
        assert(active_table.mapper.walk(vga_page) == s_guard.mapper.walk(vga_page)
            && active_table.mapper.mapped_4k(vga_page) == s_guard.mapper.mapped_4k(vga_page))
            by {
            if same_path(vga_page, guard_page) {
                crate::page::lemma_same_indices_same_page(vga_page, guard_page);
            }
        };
        assert(active_table.mapper.walk(guard_page) == None::<(u64, u64)>
            && active_table.mapper.can_map(guard_page));
        assert forall|q: Page|
            #![trigger active_table.mapper.can_map(q)]
            #![trigger active_table.mapper.walk(q)]
            q.wf() && q.spec_p4_index() != 510 && q.num() != vf && !(mbf <= q.num() <= mbl) && (
            forall|j: int| 0 <= j < ss.len() ==> !in_section_pages(#[trigger] ss[j], q.num()))
            implies active_table.mapper.can_map(q) && active_table.mapper.walk(q) == None::<
            (u64, u64),
        > by {
            let jg = choose|j: int| 0 <= j < ss.len() && in_section_pages(#[trigger] ss[j], gf);
            assert(!in_section_pages(ss[jg], q.num()));
            assert(q.num() != gf);
            if same_path(q, guard_page) {
                crate::page::lemma_same_indices_same_page(q, guard_page);
            }
            assert(s_guard.mapper.can_map(q) && s_guard.mapper.walk(q) == None::<(u64, u64)>);
            assert(active_table.mapper.walk(q) == s_guard.mapper.walk(q)
                && active_table.mapper.can_map(q) == s_guard.mapper.can_map(q));
        };
    }
    // Restore the recursive slot and install the new hierarchy.
    let ghost s_end = *active_table;
    active_table.end_with(backup, &mut temporary_page);
    proof {
        let m = active_table.mapper.tbl();
        assert forall|j: int, n: u64|
            0 <= j < ss.len() && #[trigger] in_section_pages(ss[j], n) && n != gf implies
            spec_walk(m, newp4, Page::spec_from_num(n)) == Some(
            ((n - kernel_vma_frame()) as u64, sec_flags(ss[j]) | PRESENT),
        ) && spec_mapped_4k(m, newp4, Page::spec_from_num(n)) by {
            let q = Page::spec_from_num(n);
            crate::page::lemma_higher_half_p4_index(n);
                assert(q.wf() && q.spec_p4_index() != 510);
            assert(spec_walk(m, newp4, q) == spec_walk(s_end.mapper.tbl(), newp4, q)
                && spec_mapped_4k(m, newp4, q) == spec_mapped_4k(s_end.mapper.tbl(), newp4, q));
        };
        assert forall|n: u64|
            mbf <= n <= mbl implies spec_walk(m, newp4, #[trigger] Page::spec_from_num(n))
            == Some(((n - kernel_vma_frame()) as u64, PRESENT | PRESENT)) && spec_mapped_4k(
            m, newp4, Page::spec_from_num(n)) by {
            let q = Page::spec_from_num(n);
            crate::page::lemma_higher_half_p4_index(n);
                assert(q.wf() && q.spec_p4_index() != 510);
            assert(spec_walk(m, newp4, q) == spec_walk(s_end.mapper.tbl(), newp4, q)
                && spec_mapped_4k(m, newp4, q) == spec_mapped_4k(s_end.mapper.tbl(), newp4, q));
        };
        assert(spec_walk(m, newp4, vga_page) == spec_walk(s_end.mapper.tbl(), newp4, vga_page)
            && spec_mapped_4k(m, newp4, vga_page) == spec_mapped_4k(
            s_end.mapper.tbl(), newp4, vga_page));
        assert(spec_walk(m, newp4, guard_page) == spec_walk(
            s_end.mapper.tbl(), newp4, guard_page) && spec_can_map(m, newp4, guard_page)
            == spec_can_map(s_end.mapper.tbl(), newp4, guard_page));
        assert(entry_at(m, newp4, 510) == spec_entry_bits(newp4, PRESENT_WRITABLE));
        // every never-mapped page still has no walk
        assert forall|q: Page|
            #![trigger spec_can_map(m, newp4, q)]
            #![trigger spec_walk(m, newp4, q)]
            q.wf() && q.spec_p4_index() != 510 && q.num() != vf && !(mbf <= q.num() <= mbl) && (
            forall|j: int| 0 <= j < ss.len() ==> !in_section_pages(#[trigger] ss[j], q.num()))
            implies spec_can_map(m, newp4, q) && spec_walk(m, newp4, q) == None::<(u64, u64)> by {
            assert(s_end.mapper.can_map(q) && s_end.mapper.walk(q) == None::<(u64, u64)>);
            assert(spec_walk(m, newp4, q) == spec_walk(s_end.mapper.tbl(), newp4, q)
                && spec_can_map(m, newp4, q) == spec_can_map(s_end.mapper.tbl(), newp4, q));
        };
        // hence no walk of the new hierarchy meets a huge entry at all
        assert forall|q: Page|
            q.wf() && q.spec_p4_index() != 510 implies huge_aligned(probe(m, newp4, q)) by {
            if exists|j: int| 0 <= j < ss.len() && in_section_pages(#[trigger] ss[j], q.num()) {
                let j = choose|j: int|
                    0 <= j < ss.len() && in_section_pages(#[trigger] ss[j], q.num());
                if q.num() == gf {
                    assert(q == guard_page);
                    assert(spec_can_map(m, newp4, q));
                } else {
                    assert(q == Page::spec_from_num(q.num()));
                    assert(spec_mapped_4k(m, newp4, q));
                }
            } else if q.num() == vf {
                assert(q == vga_page);
                assert(spec_mapped_4k(m, newp4, q));
            } else if mbf <= q.num() <= mbl {
                assert(q == Page::spec_from_num(q.num()));
                assert(spec_mapped_4k(m, newp4, q));
            } else {
                assert(spec_can_map(m, newp4, q));
            }
        };
    }
    let _old_table = active_table.switch(new_table);
}

} // verus!
