//! The mapper: translation and mapping on a page-table hierarchy.
//!
//! The mapper owns the modelled page-table store and the root P4 frame
//! that table walks start from, together with counters of the TLB flushes
//! the hardware would see.
use vstd::prelude::*;
use crate::entry::{
    spec_present, spec_huge, spec_frame_of, spec_flags_of, spec_entry_bits, valid_entry_args,
    lemma_present_writable, lemma_flags_or_present, PRESENT, HUGE_PAGE, ADDRESS_MASK,
    MAX_ENTRY_FRAME, PRESENT_WRITABLE, FLAGS_MASK,
};
use crate::frame::FrameAllocator;
use crate::frame::Frame;
use crate::page::{Page, canonical_address};
use crate::layout::PAGE_SIZE;
use crate::table::{
    FrameTable, tbl_of, distinct_frames, lemma_tbl_of, lemma_tbl_of_update, entry_at, probe,
    spec_walk, spec_can_map, spec_mapped_4k, spec_tables_needed, huge_aligned, zero_table,
    same_path,
};

verus! {

/// A structural edge of the table graph: a present, non-huge entry of a
/// table at level 2 or above, leaving the recursive P4 slot aside.
pub open spec fn edge(m: Map<u64, Seq<u64>>, lv: Map<u64, int>, f: u64, i: u64) -> bool {
    &&& m.contains_key(f)
    &&& lv.contains_key(f)
    &&& lv[f] >= 2
    &&& 0 <= i < 512
    &&& !(lv[f] == 4 && i == 510)
    &&& spec_present(entry_at(m, f, i))
    &&& !spec_huge(entry_at(m, f, i))
}

/// The mapper: the in-memory page-table store, the P4 frame that walks
/// start from, and the TLB flush counters.
pub struct Mapper {
    pub(crate) tables: Vec<FrameTable>,
    pub(crate) p4_frame: u64,
    pub(crate) levels: Ghost<Map<u64, int>>,
    pub(crate) page_flushes: u64,
    pub(crate) full_flushes: u64,
}

impl Mapper {
    /// The store: table contents by frame number.
    pub closed spec fn tbl(&self) -> Map<u64, Seq<u64>> {
        tbl_of(self.tables@)
    }

    /// The P4 frame that walks start from.
    pub closed spec fn root(&self) -> u64 {
        self.p4_frame
    }

    /// The level (4 down to 1) of each table of the store.
    pub closed spec fn lvl(&self) -> Map<u64, int> {
        self.levels@
    }

    /// How many single-page TLB flushes have been issued.
    pub closed spec fn spec_page_flushes(&self) -> u64 {
        self.page_flushes
    }

    /// How many full TLB flushes have been issued.
    pub closed spec fn spec_full_flushes(&self) -> u64 {
        self.full_flushes
    }

    /// The frames of the store.
    pub open spec fn frames(&self) -> Set<u64> {
        self.tbl().dom()
    }

    /// The frame and flags `q` translates to.
    pub open spec fn walk(&self, q: Page) -> Option<(u64, u64)> {
        spec_walk(self.tbl(), self.root(), q)
    }

    /// Whether a fresh 4 KiB mapping can be installed for `q`.
    pub open spec fn can_map(&self, q: Page) -> bool {
        spec_can_map(self.tbl(), self.root(), q)
    }

    /// Whether `q` is mapped through a full four-level 4 KiB chain.
    pub open spec fn mapped_4k(&self, q: Page) -> bool {
        spec_mapped_4k(self.tbl(), self.root(), q)
    }

    /// How many intermediate tables mapping `q` would create.
    pub open spec fn tables_needed(&self, q: Page) -> int {
        spec_tables_needed(self.tbl(), self.root(), q)
    }

    /// Huge entries on the walk of `q` are aligned.
    pub open spec fn walk_aligned(&self, q: Page) -> bool {
        huge_aligned(probe(self.tbl(), self.root(), q))
    }

    /// The store holds distinct frames, each with 512 entries.
    pub closed spec fn store_wf(&self) -> bool {
        &&& distinct_frames(self.tables@)
        &&& forall|i: int|
            0 <= i < self.tables@.len() ==> (#[trigger] self.tables@[i].entries@.len()) == 512
    }

    /// The table graph is well formed: every table has a level from 4
    /// down to 1, the root is a level-4 table, every structural edge steps
    /// one level down, and no two structural edges share a target.
    pub open spec fn graph_wf(&self) -> bool {
        let m = self.tbl();
        let lv = self.lvl();
        &&& lv.dom() == m.dom()
        &&& forall|f: u64| #[trigger] m.contains_key(f) ==> m[f].len() == 512
        &&& forall|f: u64| #[trigger] m.contains_key(f) ==> 1 <= lv[f] <= 4
        &&& m.contains_key(self.root())
        &&& lv[self.root()] == 4
        &&& forall|f: u64, i: u64| #[trigger]
            edge(m, lv, f, i) ==> m.contains_key(spec_frame_of(entry_at(m, f, i))) && lv[spec_frame_of(
                entry_at(m, f, i),
            )] == lv[f] - 1
        &&& forall|f: u64, i: u64, g: u64, j: u64|
            edge(m, lv, f, i) && edge(m, lv, g, j) && spec_frame_of(#[trigger] entry_at(m, f, i))
                == spec_frame_of(#[trigger] entry_at(m, g, j)) ==> f == g && i == j
    }

    /// The mapper's invariant.
    pub open spec fn wf(&self) -> bool {
        self.store_wf() && self.graph_wf()
    }

    /// A mapper over a single P4 table: the frame CR3 holds and the 512
    /// entry words currently in it, as handed over by the bootstrap code.
    pub fn new(p4_frame: u64, entries: Vec<u64>) -> (r: Mapper)
        requires
            entries@.len() == 512,
        ensures
            r.root() == p4_frame,
            r.tbl() == Map::<u64, Seq<u64>>::empty().insert(p4_frame, entries@),
            r.lvl() == Map::<u64, int>::empty().insert(p4_frame, 4int),
            r.spec_page_flushes() == 0,
            r.spec_full_flushes() == 0,
            r.store_wf(),
    {
        let mut tables: Vec<FrameTable> = Vec::new();
        tables.push(FrameTable { frame: p4_frame, entries });
        let r = Mapper {
            tables,
            p4_frame,
            levels: Ghost(Map::<u64, int>::empty().insert(p4_frame, 4int)),
            page_flushes: 0,
            full_flushes: 0,
        };
        proof {
            lemma_tbl_of(r.tables@);
            assert forall|k: u64| #[trigger] r.tbl().contains_key(k) implies k == p4_frame by {
                let i = choose|i: int|
                    0 <= i < r.tables@.len() && (#[trigger] r.tables@[i].frame) == k;
            };
            assert(r.tables@[0].frame == p4_frame);
            assert(r.tbl().contains_key(p4_frame) && r.tbl()[p4_frame] == r.tables@[0].entries@);
            assert(r.tbl() =~= Map::<u64, Seq<u64>>::empty().insert(
                p4_frame,
                r.tables@[0].entries@,
            ));
        }
        r
    }

    /// The frames of the store, listed once each: every frame that holds
    /// a page table of the modelled hierarchy.
    pub fn table_frame_numbers(&self) -> (r: Vec<u64>)
        requires
            self.store_wf(),
        ensures
            forall|k: int| 0 <= k < r@.len() ==> self.tbl().contains_key(#[trigger] r@[k]),
            forall|f: u64| #[trigger] self.tbl().contains_key(f) ==> r@.contains(f),
    {
        let n = self.tables.len();
        let mut r: Vec<u64> = Vec::new();
        let mut i: usize = 0;
        while i < n
            invariant
                n == self.tables@.len(),
                0 <= i <= n,
                r@.len() == i,
                forall|k: int| 0 <= k < i ==> (#[trigger] r@[k]) == self.tables@[k].frame,
            decreases n - i,
        {
            r.push(self.tables[i].frame);
            i = i + 1;
        }
        proof {
            lemma_tbl_of(self.tables@);
            assert forall|f: u64| #[trigger] self.tbl().contains_key(f) implies r@.contains(
                f,
            ) by {
                let k = choose|k: int|
                    0 <= k < self.tables@.len() && (#[trigger] self.tables@[k].frame) == f;
                assert(r@[k] == f);
            };
            assert forall|k: int| 0 <= k < r@.len() implies self.tbl().contains_key(
                #[trigger] r@[k],
            ) by {
                assert(self.tables@[k].frame == r@[k]);
            };
        }
        r
    }

    /// How many single-page TLB flushes have been issued.
    pub fn page_flush_count(&self) -> (r: u64)
        ensures
            r == self.spec_page_flushes(),
    {
        self.page_flushes
    }

    /// How many full TLB flushes have been issued.
    pub fn full_flush_count(&self) -> (r: u64)
        ensures
            r == self.spec_full_flushes(),
    {
        self.full_flushes
    }

    /// Count one full TLB flush.
    pub(crate) fn bump_full_flushes(&mut self)
        requires
            old(self).spec_full_flushes() < u64::MAX,
        ensures
            final(self).spec_full_flushes() == old(self).spec_full_flushes() + 1,
            final(self).spec_page_flushes() == old(self).spec_page_flushes(),
            final(self).tbl() == old(self).tbl(),
            final(self).lvl() == old(self).lvl(),
            final(self).root() == old(self).root(),
            final(self).store_wf() == old(self).store_wf(),
            final(self).graph_wf() == old(self).graph_wf(),
    {
        self.full_flushes = self.full_flushes + 1;
    }

    /// Point the recursive accesses at another P4 frame.
    pub(crate) fn set_root(&mut self, f: u64)
        ensures
            final(self).root() == f,
            final(self).tbl() == old(self).tbl(),
            final(self).lvl() == old(self).lvl(),
            final(self).spec_page_flushes() == old(self).spec_page_flushes(),
            final(self).spec_full_flushes() == old(self).spec_full_flushes(),
            final(self).store_wf() == old(self).store_wf(),
    {
        self.p4_frame = f;
    }

    /// Record the level of a table added to the store.
    pub(crate) fn set_levels(&mut self, levels: Ghost<Map<u64, int>>)
        ensures
            final(self).lvl() == levels@,
            final(self).tbl() == old(self).tbl(),
            final(self).root() == old(self).root(),
            final(self).spec_page_flushes() == old(self).spec_page_flushes(),
            final(self).spec_full_flushes() == old(self).spec_full_flushes(),
            final(self).store_wf() == old(self).store_wf(),
    {
        self.levels = levels;
    }

    /// Index of the table for frame `f` in the store, if present.
    fn find_table(&self, f: u64) -> (r: Option<usize>)
        requires
            self.store_wf(),
        ensures
            match r {
                Some(i) => 0 <= i < self.tables@.len() && self.tables@[i as int].frame == f
                    && self.tbl().contains_key(f) && self.tbl()[f] == self.tables@[
                    i as int].entries@,
                None => !self.tbl().contains_key(f),
            },
    {
        proof {
            lemma_tbl_of(self.tables@);
        }
        let n = self.tables.len();
        let mut i: usize = 0;
        while i < n
            invariant
                n == self.tables@.len(),
                0 <= i <= n,
                forall|j: int| 0 <= j < i ==> (#[trigger] self.tables@[j].frame) != f,
                self.store_wf(),
            decreases n - i,
        {
            if self.tables[i].frame == f {
                proof {
                    lemma_tbl_of(self.tables@);
                }
                return Some(i);
            }
            i = i + 1;
        }
        proof {
            lemma_tbl_of(self.tables@);
            if self.tbl().contains_key(f) {
                let k = choose|k: int|
                    0 <= k < self.tables@.len() && (#[trigger] self.tables@[k].frame) == f;
                assert(false);
            }
        }
        None
    }

    /// The raw entry word at slot `index` of the table in frame `f`, or
    /// zero when the store holds no table there.
    pub fn entry_in_frame(&self, f: u64, index: usize) -> (r: u64)
        requires
            self.store_wf(),
            index < 512,
        ensures
            r == entry_at(self.tbl(), f, index as u64),
    {
        match self.find_table(f) {
            Some(i) => self.tables[i].entries[index],
            None => 0,
        }
    }

    /// Write the raw entry word at slot `index` of the table in frame `f`.
    pub(crate) fn set_entry(&mut self, f: u64, index: usize, bits: u64)
        requires
            old(self).store_wf(),
            old(self).tbl().contains_key(f),
            index < 512,
        ensures
            final(self).store_wf(),
            final(self).tbl() == old(self).tbl().insert(
                f,
                old(self).tbl()[f].update(index as int, bits),
            ),
            final(self).root() == old(self).root(),
            final(self).lvl() == old(self).lvl(),
            final(self).spec_page_flushes() == old(self).spec_page_flushes(),
            final(self).spec_full_flushes() == old(self).spec_full_flushes(),
    {
        let ghost pre = *self;
        let idx = match self.find_table(f) {
            Some(i) => i,
            None => {
                proof {
                    assert(false);
                }
                0
            },
        };
        let mut t = self.tables.remove(idx);
        t.entries.set(index, bits);
        let ghost nt = t;
        self.tables.insert(idx, t);
        proof {
            assert(self.tables@ =~= pre.tables@.update(idx as int, nt));
            lemma_tbl_of_update(pre.tables@, idx as int, nt);
            assert(nt.entries@ =~= pre.tbl()[f].update(index as int, bits));
            assert forall|i: int, j: int| 0 <= i < j < self.tables@.len() implies (
            #[trigger] self.tables@[i].frame) != (#[trigger] self.tables@[j].frame) by {
                assert(pre.tables@[i].frame != pre.tables@[j].frame);
            };
        }
    }

    /// Add a zeroed table for frame `f` to the store.
    pub(crate) fn insert_zeroed(&mut self, f: u64)
        requires
            old(self).store_wf(),
            !old(self).tbl().contains_key(f),
        ensures
            final(self).store_wf(),
            final(self).tbl() == old(self).tbl().insert(f, zero_table()),
            final(self).root() == old(self).root(),
            final(self).lvl() == old(self).lvl(),
            final(self).spec_page_flushes() == old(self).spec_page_flushes(),
            final(self).spec_full_flushes() == old(self).spec_full_flushes(),
    {
        let ghost pre = *self;
        let mut entries: Vec<u64> = Vec::new();
        let mut i: usize = 0;
        while i < 512
            invariant
                entries@.len() == i,
                0 <= i <= 512,
                forall|j: int| 0 <= j < i ==> (#[trigger] entries@[j]) == 0,
            decreases 512 - i,
        {
            entries.push(0);
            i = i + 1;
        }
        proof {
            assert(entries@ =~= zero_table());
            lemma_tbl_of(pre.tables@);
        }
        self.tables.push(FrameTable { frame: f, entries });
        proof {
            assert(self.tables@.drop_last() =~= pre.tables@);
            assert(self.tables@.last().frame == f);
            assert(self.tables@.last().entries@ =~= zero_table());
            assert forall|i2: int, j: int| 0 <= i2 < j < self.tables@.len() implies (
            #[trigger] self.tables@[i2].frame) != (#[trigger] self.tables@[j].frame) by {
                if j < self.tables@.len() - 1 {
                    assert(pre.tables@[i2].frame != pre.tables@[j].frame);
                } else {
                    assert(self.tables@[i2].frame == pre.tables@[i2].frame);
                }
            };
        }
    }

    /// The table one level below `parent` at slot `index`, creating and
    /// zeroing it from the allocator when the slot is empty.
    fn next_table_or_create<A: FrameAllocator>(
        &mut self,
        parent: u64,
        index: usize,
        parent_lvl: Ghost<int>,
        allocator: &mut A,
    ) -> (child: u64)
        requires
            old(self).wf(),
            old(self).tbl().contains_key(parent),
            old(self).lvl()[parent] == parent_lvl@,
            2 <= parent_lvl@ <= 4,
            index < 512,
            !(parent_lvl@ == 4 && index == 510),
            !(spec_present(entry_at(old(self).tbl(), parent, index as u64)) && spec_huge(
                entry_at(old(self).tbl(), parent, index as u64),
            )),
            old(allocator).inv(),
            old(allocator).avail().disjoint(old(self).frames()),
            forall|n: u64| old(allocator).avail().contains(n) ==> n < MAX_ENTRY_FRAME,
            !spec_present(entry_at(old(self).tbl(), parent, index as u64)) ==> !old(allocator).avail().is_empty(),
        ensures
            final(self).wf(),
            final(self).root() == old(self).root(),
            final(self).spec_page_flushes() == old(self).spec_page_flushes(),
            final(self).spec_full_flushes() == old(self).spec_full_flushes(),
            final(allocator).inv(),
            final(self).tbl().contains_key(child),
            final(self).lvl()[child] == parent_lvl@ - 1,
            child < MAX_ENTRY_FRAME,
            if spec_present(entry_at(old(self).tbl(), parent, index as u64)) {
                &&& *final(self) == *old(self)
                &&& *final(allocator) == *old(allocator)
                &&& child == spec_frame_of(entry_at(old(self).tbl(), parent, index as u64))
            } else {
                &&& old(allocator).avail().contains(child)
                &&& final(allocator).avail() == old(allocator).avail().remove(child)
                &&& !old(self).tbl().contains_key(child)
                &&& final(self).tbl() == old(self).tbl().insert(
                    parent,
                    old(self).tbl()[parent].update(
                        index as int,
                        spec_entry_bits(child, PRESENT_WRITABLE),
                    ),
                ).insert(child, zero_table())
                &&& final(self).lvl() == old(self).lvl().insert(child, parent_lvl@ - 1)
            },
    {
        let e = self.entry_in_frame(parent, index);
        if e & PRESENT != 0 {
            let child = (e & ADDRESS_MASK) >> 12u64;
            proof {
                crate::entry::lemma_frame_of_bounds(e);
                assert(edge(self.tbl(), self.lvl(), parent, index as u64));
            }
            child
        } else {
            let ghost pre = *self;
            let ghost prealloc = *allocator;
            let frame = match allocator.allocate_frame() {
                Some(f) => f,
                None => {
                    proof {
                        assert(false);
                    }
                    Frame { number: 0 }
                },
            };
            let child = frame.number;
            proof {
                assert(!pre.tbl().contains_key(child));
            }
            self.insert_zeroed(child);
            proof {
                self.levels@ = pre.lvl().insert(child, parent_lvl@ - 1);
            }
            let bits = child * PAGE_SIZE + PRESENT_WRITABLE;
            self.set_entry(parent, index, bits);
            proof {
                lemma_present_writable();
                crate::entry::lemma_entry_round_trip(child, PRESENT_WRITABLE);
                let m0 = pre.tbl();
                let lv0 = pre.lvl();
                let m1 = self.tbl();
                let lv1 = self.lvl();
                let eb = spec_entry_bits(child, PRESENT_WRITABLE);
                assert(m1 == m0.insert(parent, m0[parent].update(index as int, eb)).insert(
                    child,
                    zero_table(),
                )) by {
                    assert(m0.insert(child, zero_table()).insert(
                        parent,
                        m0.insert(child, zero_table())[parent].update(index as int, eb),
                    ) =~= m0.insert(parent, m0[parent].update(index as int, eb)).insert(
                        child,
                        zero_table(),
                    ));
                };
                assert(lv1.dom() =~= m1.dom());
                assert forall|f: u64| #[trigger] m1.contains_key(f) implies m1[f].len() == 512
                    && 1 <= lv1[f] <= 4 by {
                    if f != child {
                        assert(m0.contains_key(f));
                    }
                };
                assert(self.root() == pre.root());
                assert(pre.root() != child);
                assert(lv1[self.root()] == 4);
                // every structural edge still steps one level down
                assert forall|f: u64, i: u64| #[trigger] edge(m1, lv1, f, i) implies m1.contains_key(
                    spec_frame_of(entry_at(m1, f, i)),
                ) && lv1[spec_frame_of(entry_at(m1, f, i))] == lv1[f] - 1 by {
                    if f == child {
                        assert(entry_at(m1, f, i) == 0);
                        crate::entry::lemma_zero_entry();
                        assert(false);
                    } else if f == parent && i == index as u64 {
                        assert(entry_at(m1, f, i) == eb);
                        assert(spec_frame_of(eb) == child);
                    } else {
                        assert(entry_at(m1, f, i) == entry_at(m0, f, i));
                        assert(edge(m0, lv0, f, i));
                        assert(spec_frame_of(entry_at(m0, f, i)) != child);
                    }
                };
                // and no two structural edges share a target
                assert forall|f: u64, i: u64, g: u64, j: u64|
                    edge(m1, lv1, f, i) && edge(m1, lv1, g, j) && spec_frame_of(
                        #[trigger] entry_at(m1, f, i),
                    ) == spec_frame_of(#[trigger] entry_at(m1, g, j)) implies f == g && i
                    == j by {
                    if f == child || g == child {
                        crate::entry::lemma_zero_entry();
                        assert(false);
                    } else {
                        let fi_new = f == parent && i == index as u64;
                        let gj_new = g == parent && j == index as u64;
                        if fi_new && gj_new {
                        } else if fi_new {
                            assert(entry_at(m1, g, j) == entry_at(m0, g, j));
                            assert(edge(m0, lv0, g, j));
                            assert(spec_frame_of(entry_at(m0, g, j)) != child);
                            assert(false);
                        } else if gj_new {
                            assert(entry_at(m1, f, i) == entry_at(m0, f, i));
                            assert(edge(m0, lv0, f, i));
                            assert(spec_frame_of(entry_at(m0, f, i)) != child);
                            assert(false);
                        } else {
                            assert(entry_at(m1, f, i) == entry_at(m0, f, i));
                            assert(entry_at(m1, g, j) == entry_at(m0, g, j));
                            assert(edge(m0, lv0, f, i));
                            assert(edge(m0, lv0, g, j));
                        }
                    }
                };
            }
            child
        }
    }

    /// Install a 4 KiB mapping from `page` to `frame` with the given
    /// flags, OR-ing PRESENT in, allocating and zeroing missing
    /// intermediate tables from the allocator.  The target P1 entry must
    /// be currently unused.  The walk of every other page, and whether it
    /// can be mapped, are left unchanged.
    #[verifier::rlimit(100)]
    pub fn map_to<A: FrameAllocator>(
        &mut self,
        page: Page,
        frame: Frame,
        flags: u64,
        allocator: &mut A,
    )
        requires
            old(self).wf(),
            page.wf(),
            old(self).can_map(page),
            flags & !FLAGS_MASK == 0,
            frame.num() < MAX_ENTRY_FRAME,
            old(allocator).inv(),
            old(allocator).avail().disjoint(old(self).frames()),
            forall|n: u64| old(allocator).avail().contains(n) ==> n < MAX_ENTRY_FRAME,
            old(allocator).avail().finite(),
            old(allocator).avail().len() >= old(self).tables_needed(page),
        ensures
            final(self).wf(),
            final(self).root() == old(self).root(),
            final(self).spec_page_flushes() == old(self).spec_page_flushes(),
            final(self).spec_full_flushes() == old(self).spec_full_flushes(),
            final(self).walk(page) == Some((frame.num(), flags | PRESENT)),
            final(self).mapped_4k(page),
            old(self).frames().subset_of(final(self).frames()),
            final(self).frames().subset_of(old(self).frames().union(old(allocator).avail())),
            final(allocator).inv(),
            final(allocator).avail().subset_of(old(allocator).avail()),
            final(allocator).avail().finite(),
            // exactly one frame is drawn for each missing intermediate table
            final(allocator).avail().len() == old(allocator).avail().len() - old(
                self,
            ).tables_needed(page),
            final(allocator).avail().disjoint(final(self).frames()),
            forall|f: u64|
                old(self).lvl().contains_key(f) ==> final(self).lvl().contains_key(f) && #[trigger]
                final(self).lvl()[f] == old(self).lvl()[f],
            forall|f: u64, i: u64|
                old(self).tbl().contains_key(f) && old(self).lvl()[f] == 4 && 0 <= i < 512 && !(f
                    == old(self).root() && i == page.spec_p4_index()) ==> #[trigger] entry_at(
                    final(self).tbl(), f, i) == entry_at(old(self).tbl(), f, i),
            forall|r2: u64, q: Page|
                #![trigger spec_walk(final(self).tbl(), r2, q)]
                #![trigger spec_can_map(final(self).tbl(), r2, q)]
                #![trigger spec_mapped_4k(final(self).tbl(), r2, q)]
                old(self).tbl().contains_key(r2) && old(self).lvl()[r2] == 4 && q.wf()
                    && q.spec_p4_index() != 510 && !(r2 == old(self).root() && same_path(q, page))
                    ==> spec_walk(final(self).tbl(), r2, q) == spec_walk(old(self).tbl(), r2, q)
                    && spec_can_map(final(self).tbl(), r2, q) == spec_can_map(
                    old(self).tbl(), r2, q) && spec_mapped_4k(final(self).tbl(), r2, q)
                    == spec_mapped_4k(old(self).tbl(), r2, q),
            forall|q: Page|
                #![trigger final(self).walk(q)]
                #![trigger final(self).can_map(q)]
                #![trigger final(self).mapped_4k(q)]
                q.wf() && q.spec_p4_index() != 510 && !same_path(q, page) ==> final(self).walk(q)
                    == old(self).walk(q) && final(self).can_map(q) == old(self).can_map(q)
                    && final(self).mapped_4k(q) == old(self).mapped_4k(q),
    {
        let ghost s0 = *self;
        let ghost a0 = *allocator;
        let ghost m0 = s0.tbl();
        let root = self.p4_frame;
        proof {
            vstd::set_lib::lemma_set_empty_equivalency_len(a0.avail());
        }
        let p3f = self.next_table_or_create(root, page.p4_index(), Ghost(4int), allocator);
        let ghost s1 = *self;
        let ghost a1 = *allocator;
        let ghost c3 = !spec_present(entry_at(m0, root, page.spec_p4_index()));
        proof {
            if c3 {
                vstd::set::axiom_set_remove_len(a0.avail(), p3f);
            }
            assert(entry_at(s1.tbl(), p3f, page.spec_p3_index()) == if c3 {
                0u64
            } else {
                entry_at(m0, spec_frame_of(entry_at(m0, root, page.spec_p4_index())),
                    page.spec_p3_index())
            });
            crate::entry::lemma_zero_entry();
            assert(a1.avail().disjoint(s1.frames()));
            vstd::set_lib::lemma_set_empty_equivalency_len(a1.avail());
        }
        let p2f = self.next_table_or_create(p3f, page.p3_index(), Ghost(3int), allocator);
        let ghost s2 = *self;
        let ghost a2 = *allocator;
        let ghost c2 = !spec_present(entry_at(s1.tbl(), p3f, page.spec_p3_index()));
        proof {
            if c2 {
                vstd::set::axiom_set_remove_len(a1.avail(), p2f);
            }
            assert(entry_at(s2.tbl(), p2f, page.spec_p2_index()) == if c2 {
                0u64
            } else {
                entry_at(m0, spec_frame_of(entry_at(s1.tbl(), p3f, page.spec_p3_index())),
                    page.spec_p2_index())
            });
            crate::entry::lemma_zero_entry();
            assert(a2.avail().disjoint(s2.frames()));
            vstd::set_lib::lemma_set_empty_equivalency_len(a2.avail());
        }
        let p1f = self.next_table_or_create(p2f, page.p2_index(), Ghost(2int), allocator);
        let ghost s3 = *self;
        let ghost a3 = *allocator;
        let ghost c1 = !spec_present(entry_at(s2.tbl(), p2f, page.spec_p2_index()));
        proof {
            if c1 {
                vstd::set::axiom_set_remove_len(a2.avail(), p1f);
            }
            assert(entry_at(s3.tbl(), p1f, page.spec_p1_index()) == 0) by {
                if c1 {
                } else {
                    assert(!c2 && !c3);
                }
            };
        }
        let fl = flags | PRESENT;
        let bits = frame.start_address() | fl;
        proof {
            lemma_flags_or_present(flags);
            let a = frame.num();
            let g = fl;
            assert((((a * 4096) as u64) | g) == (a * 4096 + g) as u64) by (bit_vector)
                requires
                    a < 0x100_0000_0000u64,
                    g & !0x8000_0000_0000_01ffu64 == 0,
            ;
            assert(bits == spec_entry_bits(frame.num(), fl));
        }
        self.set_entry(p1f, page.p1_index(), bits);
        proof {
            lemma_present_writable();
            let m0 = s0.tbl();
            let lv0 = s0.lvl();
            let m4 = self.tbl();
            let lvf = self.lvl();
            let p4i = page.spec_p4_index();
            let p3i = page.spec_p3_index();
            let p2i = page.spec_p2_index();
            let p1i = page.spec_p1_index();
            // the created tables cascade: a zeroed table has empty slots
            assert(forall|i: u64| 0 <= i < 512 ==> entry_at(m4, p1f, i) == if i == p1i {
                bits
            } else if c1 {
                0u64
            } else {
                entry_at(m0, p1f, i)
            });
            assert(c3 ==> c2) by {
                if c3 && !c2 {
                    assert(spec_present(0u64)) by (bit_vector)
                        requires
                            spec_present(0u64),
                    ;
                }
            };
            assert(c2 ==> c1);
            // levels of the four chain tables, hence their distinctness
            assert(lvf[self.root()] == 4 && lvf[p3f] == 3 && lvf[p2f] == 2 && lvf[p1f] == 1);
            assert(root == self.root());
            // the final chain entries for `page`
            let e4n = entry_at(m4, root, p4i);
            let e3n = entry_at(m4, p3f, p3i);
            let e2n = entry_at(m4, p2f, p2i);
            let e1n = entry_at(m4, p1f, p1i);
            if c3 {
                crate::entry::lemma_entry_round_trip(p3f, PRESENT_WRITABLE);
            }
            if c2 {
                crate::entry::lemma_entry_round_trip(p2f, PRESENT_WRITABLE);
            }
            if c1 {
                crate::entry::lemma_entry_round_trip(p1f, PRESENT_WRITABLE);
            }
            crate::entry::lemma_entry_round_trip(frame.num(), fl);
            assert(spec_present(e4n) && !spec_huge(e4n) && spec_frame_of(e4n) == p3f);
            assert(spec_present(e3n) && !spec_huge(e3n) && spec_frame_of(e3n) == p2f);
            assert(spec_present(e2n) && !spec_huge(e2n) && spec_frame_of(e2n) == p1f);
            assert(e1n == bits && spec_present(e1n) && spec_frame_of(e1n) == frame.num()
                && spec_flags_of(e1n) == fl);
            assert(self.walk(page) == Some((frame.num(), fl)));
            assert(self.mapped_4k(page));
            // the graph stays well formed: the written slot is in a
            // level-1 table and is no structural edge
            assert(self.graph_wf()) by {
                let m3 = s3.tbl();
                assert(lvf.dom() =~= m4.dom());
                assert forall|f: u64, i: u64| #[trigger] edge(m4, lvf, f, i) implies m4.contains_key(
                    spec_frame_of(entry_at(m4, f, i)),
                ) && lvf[spec_frame_of(entry_at(m4, f, i))] == lvf[f] - 1 by {
                    assert(f != p1f);
                    assert(entry_at(m4, f, i) == entry_at(m3, f, i));
                    assert(edge(m3, lvf, f, i));
                };
                assert forall|f: u64, i: u64, g: u64, j: u64|
                    edge(m4, lvf, f, i) && edge(m4, lvf, g, j) && spec_frame_of(
                        #[trigger] entry_at(m4, f, i),
                    ) == spec_frame_of(#[trigger] entry_at(m4, g, j)) implies f == g && i
                    == j by {
                    assert(f != p1f && g != p1f);
                    assert(entry_at(m4, f, i) == entry_at(m3, f, i));
                    assert(entry_at(m4, g, j) == entry_at(m3, g, j));
                    assert(edge(m3, lvf, f, i) && edge(m3, lvf, g, j));
                };
            };
            assert forall|f: u64, i: u64|
                m0.contains_key(f) && lv0[f] == 4 && 0 <= i < 512 && !(f == root && i == p4i)
                implies #[trigger] entry_at(m4, f, i) == entry_at(m0, f, i) by {
                assert(f != p3f || c3);
                assert(f != p2f || c2);
                assert(f != p1f || c1);
            };
            // preservation for every other page
            assert forall|r2: u64, q: Page|
                #![trigger spec_walk(m4, r2, q)]
                #![trigger spec_can_map(m4, r2, q)]
                #![trigger spec_mapped_4k(m4, r2, q)]
                m0.contains_key(r2) && lv0[r2] == 4 && q.wf() && q.spec_p4_index() != 510 && !(r2
                == root && same_path(q, page)) implies spec_walk(m4, r2, q) == spec_walk(
                m0, r2, q) && spec_can_map(m4, r2, q) == spec_can_map(m0, r2, q)
                && spec_mapped_4k(m4, r2, q) == spec_mapped_4k(m0, r2, q) by {
                let q4 = q.spec_p4_index();
                let q3 = q.spec_p3_index();
                let q2 = q.spec_p2_index();
                let q1 = q.spec_p1_index();
                crate::page::lemma_index_bounds(q.num());
                if r2 != root {
                    let e4a = entry_at(m0, r2, q4);
                    assert(entry_at(m4, r2, q4) == e4a);
                    if spec_present(e4a) && !spec_huge(e4a) {
                        let g3 = spec_frame_of(e4a);
                        assert(edge(m0, lv0, r2, q4));
                        assert(lv0[g3] == 3);
                        if !c3 {
                            assert(edge(m0, lv0, root, p4i));
                            assert(g3 != p3f);
                        }
                        assert(forall|i: u64| 0 <= i < 512 ==> entry_at(m4, g3, i) == entry_at(
                            m0, g3, i));
                        let e3a = entry_at(m0, g3, q3);
                        if spec_present(e3a) && !spec_huge(e3a) {
                            let g2 = spec_frame_of(e3a);
                            assert(edge(m0, lv0, g3, q3));
                            assert(lv0[g2] == 2);
                            if !c2 {
                                assert(edge(m0, lv0, p3f, p3i));
                                assert(g2 != p2f);
                            }
                            assert(forall|i: u64| 0 <= i < 512 ==> entry_at(m4, g2, i)
                                == entry_at(m0, g2, i));
                            let e2a = entry_at(m0, g2, q2);
                            if spec_present(e2a) && !spec_huge(e2a) {
                                let g1 = spec_frame_of(e2a);
                                assert(edge(m0, lv0, g2, q2));
                                assert(lv0[g1] == 1);
                                if !c1 {
                                    assert(edge(m0, lv0, p2f, p2i));
                                    assert(g1 != p1f);
                                }
                                assert(forall|i: u64| 0 <= i < 512 ==> entry_at(m4, g1, i)
                                    == entry_at(m0, g1, i));
                            }
                        }
                    }
                    assert(probe(m4, r2, q) == probe(m0, r2, q));
                } else {
                let e4a = entry_at(m0, root, q4);
                let e4b = entry_at(m4, root, q4);
                if q4 != p4i {
                    assert(e4b == e4a);
                    if spec_present(e4a) && !spec_huge(e4a) {
                        let g3 = spec_frame_of(e4a);
                        assert(edge(m0, lv0, root, q4));
                        assert(lv0[g3] == 3);
                        if !c3 {
                            assert(edge(m0, lv0, root, p4i));
                            assert(g3 != p3f);
                        }
                        assert(forall|i: u64| 0 <= i < 512 ==> entry_at(m4, g3, i) == entry_at(
                            m0, g3, i));
                        let e3a = entry_at(m0, g3, q3);
                        if spec_present(e3a) && !spec_huge(e3a) {
                            let g2 = spec_frame_of(e3a);
                            assert(edge(m0, lv0, g3, q3));
                            assert(lv0[g2] == 2);
                            if !c2 {
                                assert(edge(m0, lv0, p3f, p3i));
                                assert(g2 != p2f);
                            }
                            assert(forall|i: u64| 0 <= i < 512 ==> entry_at(m4, g2, i)
                                == entry_at(m0, g2, i));
                            let e2a = entry_at(m0, g2, q2);
                            if spec_present(e2a) && !spec_huge(e2a) {
                                let g1 = spec_frame_of(e2a);
                                assert(edge(m0, lv0, g2, q2));
                                assert(lv0[g1] == 1);
                                if !c1 {
                                    assert(edge(m0, lv0, p2f, p2i));
                                    assert(g1 != p1f);
                                }
                                assert(forall|i: u64| 0 <= i < 512 ==> entry_at(m4, g1, i)
                                    == entry_at(m0, g1, i));
                            }
                        }
                    }
                    assert(probe(m4, root, q) == probe(m0, root, q));
                } else {
                    // q shares the P4 slot with `page`
                    if q3 != p3i {
                        if c3 {
                            assert(!spec_present(e4a));
                            assert(entry_at(m4, p3f, q3) == 0);
                            assert(self.walk(q) == None::<(u64, u64)> && s0.walk(q)
                                == None::<(u64, u64)>);
                            assert(self.can_map(q) && s0.can_map(q));
                            assert(!self.mapped_4k(q) && !s0.mapped_4k(q));
                        } else {
                            assert(e4b == e4a && spec_frame_of(e4a) == p3f);
                            assert(entry_at(m4, p3f, q3) == entry_at(m0, p3f, q3));
                            let e3a = entry_at(m0, p3f, q3);
                            if spec_present(e3a) && !spec_huge(e3a) {
                                let g2 = spec_frame_of(e3a);
                                assert(edge(m0, lv0, p3f, q3));
                                assert(lv0[g2] == 2);
                                if !c2 {
                                    assert(edge(m0, lv0, p3f, p3i));
                                    assert(g2 != p2f);
                                }
                                assert(forall|i: u64| 0 <= i < 512 ==> entry_at(m4, g2, i)
                                    == entry_at(m0, g2, i));
                                let e2a = entry_at(m0, g2, q2);
                                if spec_present(e2a) && !spec_huge(e2a) {
                                    let g1 = spec_frame_of(e2a);
                                    assert(edge(m0, lv0, g2, q2));
                                    assert(lv0[g1] == 1);
                                    if !c1 {
                                        assert(edge(m0, lv0, p2f, p2i));
                                        assert(g1 != p1f);
                                    }
                                    assert(forall|i: u64| 0 <= i < 512 ==> entry_at(m4, g1, i)
                                        == entry_at(m0, g1, i));
                                }
                            }
                            assert(probe(m4, root, q) == probe(m0, root, q));
                        }
                    } else if q2 != p2i {
                        if c2 {
                            assert(entry_at(m4, p2f, q2) == 0);
                            if c3 {
                                assert(!spec_present(e4a));
                            } else {
                                assert(!spec_present(entry_at(m0, p3f, p3i)));
                            }
                            assert(self.walk(q) == None::<(u64, u64)> && s0.walk(q)
                                == None::<(u64, u64)>);
                            assert(self.can_map(q) && s0.can_map(q));
                            assert(!self.mapped_4k(q) && !s0.mapped_4k(q));
                        } else {
                            assert(e4b == e4a && spec_frame_of(e4a) == p3f);
                            assert(entry_at(m4, p3f, p3i) == entry_at(m0, p3f, p3i));
                            assert(entry_at(m4, p2f, q2) == entry_at(m0, p2f, q2));
                            let e2a = entry_at(m0, p2f, q2);
                            if spec_present(e2a) && !spec_huge(e2a) {
                                let g1 = spec_frame_of(e2a);
                                assert(edge(m0, lv0, p2f, q2));
                                assert(lv0[g1] == 1);
                                if !c1 {
                                    assert(edge(m0, lv0, p2f, p2i));
                                    assert(g1 != p1f);
                                }
                                assert(forall|i: u64| 0 <= i < 512 ==> entry_at(m4, g1, i)
                                    == entry_at(m0, g1, i));
                            }
                            assert(probe(m4, root, q) == probe(m0, root, q));
                        }
                    } else {
                        assert(q1 != p1i);
                        if c1 {
                            assert(entry_at(m4, p1f, q1) == 0);
                            if c3 {
                                assert(!spec_present(e4a));
                            } else if c2 {
                                assert(!spec_present(entry_at(m0, p3f, p3i)));
                            } else {
                                assert(!spec_present(entry_at(m0, p2f, p2i)));
                            }
                            assert(self.walk(q) == None::<(u64, u64)> && s0.walk(q)
                                == None::<(u64, u64)>);
                            assert(self.can_map(q) && s0.can_map(q));
                            assert(!self.mapped_4k(q) && !s0.mapped_4k(q));
                        } else {
                            assert(e4b == e4a && spec_frame_of(e4a) == p3f);
                            assert(entry_at(m4, p3f, p3i) == entry_at(m0, p3f, p3i));
                            assert(entry_at(m4, p2f, p2i) == entry_at(m0, p2f, p2i));
                            assert(entry_at(m4, p1f, q1) == entry_at(m0, p1f, q1));
                            assert(probe(m4, root, q) == probe(m0, root, q));
                        }
                    }
                }
                }
            };
            // bookkeeping: frames grew only by allocated frames, and what
            // the allocator can still return stays off the store
            assert(old(self).frames().subset_of(self.frames()));
            assert(self.frames().subset_of(old(self).frames().union(a0.avail())));
            assert forall|n: u64| #[trigger] allocator.avail().contains(n) implies !self.frames().contains(
                n,
            ) by {
                assert(a0.avail().contains(n));
            };
            assert(allocator.avail().disjoint(self.frames()));
            assert(s0.tables_needed(page) == (if c3 {
                3int
            } else if c2 {
                2int
            } else if c1 {
                1int
            } else {
                0int
            }));
        }
    }

    /// Allocate a frame and map `page` to it with the given flags.
    pub fn map<A: FrameAllocator>(&mut self, page: Page, flags: u64, allocator: &mut A)
        requires
            old(self).wf(),
            page.wf(),
            old(self).can_map(page),
            flags & !FLAGS_MASK == 0,
            old(allocator).inv(),
            old(allocator).avail().disjoint(old(self).frames()),
            forall|n: u64| old(allocator).avail().contains(n) ==> n < MAX_ENTRY_FRAME,
            old(allocator).avail().finite(),
            old(allocator).avail().len() >= old(self).tables_needed(page) + 1,
        ensures
            final(self).wf(),
            final(self).root() == old(self).root(),
            final(self).spec_page_flushes() == old(self).spec_page_flushes(),
            final(self).spec_full_flushes() == old(self).spec_full_flushes(),
            final(self).mapped_4k(page),
            exists|n: u64|
                old(allocator).avail().contains(n) && #[trigger] final(self).walk(page) == Some(
                    (n, flags | PRESENT),
                ),
            old(self).frames().subset_of(final(self).frames()),
            final(allocator).inv(),
            final(allocator).avail().subset_of(old(allocator).avail()),
            final(allocator).avail().finite(),
            // one frame for the mapping itself, one for each missing table
            final(allocator).avail().len() == old(allocator).avail().len() - old(
                self,
            ).tables_needed(page) - 1,
            final(allocator).avail().disjoint(final(self).frames()),
            forall|f: u64|
                old(self).lvl().contains_key(f) ==> final(self).lvl().contains_key(f) && #[trigger]
                final(self).lvl()[f] == old(self).lvl()[f],
            forall|f: u64, i: u64|
                old(self).tbl().contains_key(f) && old(self).lvl()[f] == 4 && 0 <= i < 512 && !(f
                    == old(self).root() && i == page.spec_p4_index()) ==> #[trigger] entry_at(
                    final(self).tbl(), f, i) == entry_at(old(self).tbl(), f, i),
            forall|r2: u64, q: Page|
                #![trigger spec_walk(final(self).tbl(), r2, q)]
                #![trigger spec_can_map(final(self).tbl(), r2, q)]
                #![trigger spec_mapped_4k(final(self).tbl(), r2, q)]
                old(self).tbl().contains_key(r2) && old(self).lvl()[r2] == 4 && q.wf()
                    && q.spec_p4_index() != 510 && !(r2 == old(self).root() && same_path(q, page))
                    ==> spec_walk(final(self).tbl(), r2, q) == spec_walk(old(self).tbl(), r2, q)
                    && spec_can_map(final(self).tbl(), r2, q) == spec_can_map(
                    old(self).tbl(), r2, q) && spec_mapped_4k(final(self).tbl(), r2, q)
                    == spec_mapped_4k(old(self).tbl(), r2, q),
            forall|q: Page|
                #![trigger final(self).walk(q)]
                #![trigger final(self).can_map(q)]
                #![trigger final(self).mapped_4k(q)]
                q.wf() && q.spec_p4_index() != 510 && !same_path(q, page) ==> final(self).walk(q)
                    == old(self).walk(q) && final(self).can_map(q) == old(self).can_map(q)
                    && final(self).mapped_4k(q) == old(self).mapped_4k(q),
    {
        proof {
            vstd::set_lib::lemma_set_empty_equivalency_len(old(allocator).avail());
        }
        let frame = match allocator.allocate_frame() {
            Some(f) => f,
            None => {
                proof {
                    assert(false);
                }
                Frame { number: 0 }
            },
        };
        proof {
            vstd::set::axiom_set_remove_len(old(allocator).avail(), frame.num());
        }
        self.map_to(page, frame, flags, allocator);
    }

    /// Remove the 4 KiB mapping of `page` and flush that page from the
    /// TLB.  The frame the mapping pointed to is not handed back to the
    /// allocator, and now-empty intermediate tables are not collapsed:
    /// both are accepted bootstrap-era leaks.  Huge-page mappings cannot
    /// be removed.  The walk of every other page is left unchanged.
    pub fn unmap<A: FrameAllocator>(&mut self, page: Page, _allocator: &mut A)
        requires
            old(self).wf(),
            page.wf(),
            page.spec_p4_index() != 510,
            old(self).mapped_4k(page),
            old(self).spec_page_flushes() < u64::MAX,
        ensures
            final(self).wf(),
            final(self).root() == old(self).root(),
            final(self).frames() == old(self).frames(),
            final(self).lvl() == old(self).lvl(),
            final(self).walk(page) == None::<(u64, u64)>,
            final(self).can_map(page),
            final(self).tables_needed(page) == 0,
            final(self).spec_page_flushes() == old(self).spec_page_flushes() + 1,
            final(self).spec_full_flushes() == old(self).spec_full_flushes(),
            *final(_allocator) == *old(_allocator),
            forall|f: u64, i: u64|
                old(self).tbl().contains_key(f) && old(self).lvl()[f] == 4 && 0 <= i < 512
                    ==> #[trigger] entry_at(final(self).tbl(), f, i) == entry_at(
                    old(self).tbl(), f, i),
            forall|r2: u64, q: Page|
                #![trigger spec_walk(final(self).tbl(), r2, q)]
                #![trigger spec_can_map(final(self).tbl(), r2, q)]
                #![trigger spec_mapped_4k(final(self).tbl(), r2, q)]
                old(self).tbl().contains_key(r2) && old(self).lvl()[r2] == 4 && q.wf()
                    && q.spec_p4_index() != 510 && !(r2 == old(self).root() && same_path(q, page))
                    ==> spec_walk(final(self).tbl(), r2, q) == spec_walk(old(self).tbl(), r2, q)
                    && spec_can_map(final(self).tbl(), r2, q) == spec_can_map(
                    old(self).tbl(), r2, q) && spec_mapped_4k(final(self).tbl(), r2, q)
                    == spec_mapped_4k(old(self).tbl(), r2, q) && spec_tables_needed(
                    final(self).tbl(), r2, q) == spec_tables_needed(old(self).tbl(), r2, q),
            forall|q: Page|
                #![trigger final(self).walk(q)]
                #![trigger final(self).can_map(q)]
                #![trigger final(self).mapped_4k(q)]
                q.wf() && q.spec_p4_index() != 510 && !same_path(q, page) ==> final(self).walk(q)
                    == old(self).walk(q) && final(self).can_map(q) == old(self).can_map(q)
                    && final(self).mapped_4k(q) == old(self).mapped_4k(q)
                    && final(self).tables_needed(q) == old(self).tables_needed(q),
    {
        let ghost s0 = *self;
        let ghost m0 = s0.tbl();
        let ghost lv = s0.lvl();
        let root = self.p4_frame;
        let e4 = self.entry_in_frame(root, page.p4_index());
        let f3 = (e4 & ADDRESS_MASK) >> 12u64;
        proof {
            crate::entry::lemma_frame_of_bounds(e4);
            assert(edge(m0, lv, root, page.spec_p4_index()));
        }
        let e3 = self.entry_in_frame(f3, page.p3_index());
        let f2 = (e3 & ADDRESS_MASK) >> 12u64;
        proof {
            crate::entry::lemma_frame_of_bounds(e3);
            assert(edge(m0, lv, f3, page.spec_p3_index()));
        }
        let e2 = self.entry_in_frame(f2, page.p2_index());
        let f1 = (e2 & ADDRESS_MASK) >> 12u64;
        proof {
            crate::entry::lemma_frame_of_bounds(e2);
            assert(edge(m0, lv, f2, page.spec_p2_index()));
        }
        self.set_entry(f1, page.p1_index(), 0);
        self.page_flushes = self.page_flushes + 1;
        proof {
            let m1 = self.tbl();
            let p4i = page.spec_p4_index();
            let p3i = page.spec_p3_index();
            let p2i = page.spec_p2_index();
            let p1i = page.spec_p1_index();
            assert(lv[root] == 4 && lv[f3] == 3 && lv[f2] == 2 && lv[f1] == 1);
            crate::entry::lemma_zero_entry();
            assert(m1.dom() =~= m0.dom());
            assert(self.graph_wf()) by {
                assert forall|f: u64, i: u64| #[trigger] edge(m1, lv, f, i) implies m1.contains_key(
                    spec_frame_of(entry_at(m1, f, i)),
                ) && lv[spec_frame_of(entry_at(m1, f, i))] == lv[f] - 1 by {
                    assert(f != f1);
                    assert(entry_at(m1, f, i) == entry_at(m0, f, i));
                    assert(edge(m0, lv, f, i));
                };
                assert forall|f: u64, i: u64, g: u64, j: u64|
                    edge(m1, lv, f, i) && edge(m1, lv, g, j) && spec_frame_of(
                        #[trigger] entry_at(m1, f, i),
                    ) == spec_frame_of(#[trigger] entry_at(m1, g, j)) implies f == g && i
                    == j by {
                    assert(f != f1 && g != f1);
                    assert(entry_at(m1, f, i) == entry_at(m0, f, i));
                    assert(entry_at(m1, g, j) == entry_at(m0, g, j));
                    assert(edge(m0, lv, f, i) && edge(m0, lv, g, j));
                };
            };
            assert(entry_at(m1, root, p4i) == entry_at(m0, root, p4i));
            assert(entry_at(m1, f3, p3i) == entry_at(m0, f3, p3i));
            assert(entry_at(m1, f2, p2i) == entry_at(m0, f2, p2i));
            assert(entry_at(m1, f1, p1i) == 0);
            assert(self.walk(page) == None::<(u64, u64)>);
            assert forall|f: u64, i: u64|
                m0.contains_key(f) && lv[f] == 4 && 0 <= i < 512 implies #[trigger] entry_at(
                m1, f, i) == entry_at(m0, f, i) by {
                assert(f != f1);
            };
            assert forall|r2: u64, q: Page|
                #![trigger spec_walk(m1, r2, q)]
                #![trigger spec_can_map(m1, r2, q)]
                #![trigger spec_mapped_4k(m1, r2, q)]
                m0.contains_key(r2) && lv[r2] == 4 && q.wf() && q.spec_p4_index() != 510 && !(r2
                == root && same_path(q, page)) implies spec_walk(m1, r2, q) == spec_walk(
                m0, r2, q) && spec_can_map(m1, r2, q) == spec_can_map(m0, r2, q)
                && spec_mapped_4k(m1, r2, q) == spec_mapped_4k(m0, r2, q) && spec_tables_needed(
                m1, r2, q) == spec_tables_needed(m0, r2, q) by {
                let q4 = q.spec_p4_index();
                let q3 = q.spec_p3_index();
                let q2 = q.spec_p2_index();
                let q1 = q.spec_p1_index();
                crate::page::lemma_index_bounds(q.num());
                let e4a = entry_at(m0, r2, q4);
                assert(entry_at(m1, r2, q4) == e4a);
                if spec_present(e4a) && !spec_huge(e4a) {
                    let g3 = spec_frame_of(e4a);
                    assert(edge(m0, lv, r2, q4));
                    assert(lv[g3] == 3);
                    assert(forall|i: u64| 0 <= i < 512 ==> entry_at(m1, g3, i) == entry_at(
                        m0, g3, i));
                    let e3a = entry_at(m0, g3, q3);
                    if spec_present(e3a) && !spec_huge(e3a) {
                        let g2 = spec_frame_of(e3a);
                        assert(edge(m0, lv, g3, q3));
                        assert(lv[g2] == 2);
                        assert(forall|i: u64| 0 <= i < 512 ==> entry_at(m1, g2, i) == entry_at(
                            m0, g2, i));
                        let e2a = entry_at(m0, g2, q2);
                        if spec_present(e2a) && !spec_huge(e2a) {
                            let g1 = spec_frame_of(e2a);
                            assert(edge(m0, lv, g2, q2));
                            assert(lv[g1] == 1);
                            if g1 == f1 {
                                assert(g2 == f2 && q2 == p2i);
                                assert(g3 == f3 && q3 == p3i);
                                assert(r2 == root && q4 == p4i);
                                assert(q1 != p1i);
                                assert(entry_at(m1, f1, q1) == entry_at(m0, f1, q1));
                            } else {
                                assert(forall|i: u64|
                                    0 <= i < 512 ==> entry_at(m1, g1, i) == entry_at(m0, g1, i));
                            }
                        }
                    }
                }
                assert(probe(m1, r2, q) == probe(m0, r2, q));
            };
        }
    }

    /// Translate a page to the frame backing it, honoring 1 GiB and 2 MiB
    /// huge pages.
    pub fn translate_page(&self, page: Page) -> (r: Option<Frame>)
        requires
            self.store_wf(),
            self.walk_aligned(page),
        ensures
            r == match self.walk(page) {
                Some((f, fl)) => Some(Frame::spec_from_num(f)),
                None => None,
            },
            r is Some ==> r->Some_0.wf(),
    {
        let e4 = self.entry_in_frame(self.p4_frame, page.p4_index());
        if e4 & PRESENT == 0 || e4 & HUGE_PAGE != 0 {
            return None;
        }
        let f3 = (e4 & ADDRESS_MASK) >> 12u64;
        proof {
            crate::entry::lemma_frame_of_bounds(e4);
        }
        let e3 = self.entry_in_frame(f3, page.p3_index());
        if e3 & PRESENT != 0 && e3 & HUGE_PAGE != 0 {
            // A 1 GiB page: the start frame must be aligned to 512 * 512.
            let start = (e3 & ADDRESS_MASK) >> 12u64;
            proof {
                crate::entry::lemma_frame_of_bounds(e3);
            }
            assert(start % 0x40000 == 0);
            return Some(Frame { number: start + (page.p2_index() as u64) * 512 + (
            page.p1_index() as u64) });
        }
        if e3 & PRESENT == 0 {
            return None;
        }
        let f2 = (e3 & ADDRESS_MASK) >> 12u64;
        proof {
            crate::entry::lemma_frame_of_bounds(e3);
        }
        let e2 = self.entry_in_frame(f2, page.p2_index());
        if e2 & PRESENT != 0 && e2 & HUGE_PAGE != 0 {
            // A 2 MiB page: the start frame must be aligned to 512.
            let start = (e2 & ADDRESS_MASK) >> 12u64;
            proof {
                crate::entry::lemma_frame_of_bounds(e2);
            }
            assert(start % 512 == 0);
            return Some(Frame { number: start + (page.p1_index() as u64) });
        }
        if e2 & PRESENT == 0 {
            return None;
        }
        let f1 = (e2 & ADDRESS_MASK) >> 12u64;
        proof {
            crate::entry::lemma_frame_of_bounds(e2);
        }
        let e1 = self.entry_in_frame(f1, page.p1_index());
        if e1 & PRESENT != 0 {
            let target = (e1 & ADDRESS_MASK) >> 12u64;
            proof {
                crate::entry::lemma_frame_of_bounds(e1);
            }
            Some(Frame { number: target })
        } else {
            None
        }
    }

    /// Translate a virtual address to the physical address backing it:
    /// the bits below the page (or huge page) size come from the input.
    pub fn translate(&self, virtual_address: u64) -> (r: Option<u64>)
        requires
            self.store_wf(),
            canonical_address(virtual_address),
            self.walk_aligned(Page::spec_containing(virtual_address)),
        ensures
            r == match self.walk(Page::spec_containing(virtual_address)) {
                Some((f, fl)) => Some((f * PAGE_SIZE + virtual_address % PAGE_SIZE) as u64),
                None => None,
            },
    {
        let offset = virtual_address % PAGE_SIZE;
        match self.translate_page(Page::containing_address(virtual_address)) {
            Some(frame) => Some(frame.number * PAGE_SIZE + offset),
            None => None,
        }
    }
}

/// Map-then-translate law: once `map_to(page, frame, flags)` has ensured
/// `walk(page) == Some((frame, flags | PRESENT))`, translating any
/// address `page.start_address() + k` with `k < 4096` goes through the
/// same walk and, by the contract of `translate`, yields
/// `frame.start_address() + k`.
pub proof fn lemma_map_then_translate(m: Mapper, page: Page, frame: Frame, flags: u64, k: u64)
    requires
        page.wf(),
        k < PAGE_SIZE,
        m.walk(page) == Some((frame.num(), flags | PRESENT)),
    ensures
        canonical_address((page.num() * PAGE_SIZE + k) as u64),
        Page::spec_containing((page.num() * PAGE_SIZE + k) as u64) == page,
        ((page.num() * PAGE_SIZE + k) as u64) % PAGE_SIZE == k,
        m.walk(Page::spec_containing((page.num() * PAGE_SIZE + k) as u64)) == Some(
            (frame.num(), flags | PRESENT),
        ),
{
    let p = page.num();
    assert(p * 4096 + k < 0x1_0000_0000_0000_0000 && (p * 4096 + k) / 4096 == p && (p * 4096
        + k) % 4096 == k) by (nonlinear_arith)
        requires
            p < 0x10_0000_0000_0000,
            k < 4096,
    ;
    assert(p >= 0xf_fff8_0000_0000 ==> p * 4096 >= 0xffff_8000_0000_0000) by (nonlinear_arith);
    assert(p < 0x8_0000_0000 ==> p * 4096 + k < 0x8000_0000_0000) by (nonlinear_arith)
        requires
            k < 4096,
    ;
}

/// Unmap-then-translate law: once `unmap(page)` has ensured
/// `walk(page) == None`, translating any address inside the page goes
/// through the same walk and, by the contract of `translate`, yields
/// nothing.
pub proof fn lemma_unmap_then_translate(m: Mapper, page: Page, k: u64)
    requires
        page.wf(),
        k < PAGE_SIZE,
        m.walk(page) == None::<(u64, u64)>,
    ensures
        canonical_address((page.num() * PAGE_SIZE + k) as u64),
        Page::spec_containing((page.num() * PAGE_SIZE + k) as u64) == page,
        m.walk(Page::spec_containing((page.num() * PAGE_SIZE + k) as u64)) == None::<(u64, u64)>,
{
    let p = page.num();
    assert(p * 4096 + k < 0x1_0000_0000_0000_0000 && (p * 4096 + k) / 4096 == p)
        by (nonlinear_arith)
        requires
            p < 0x10_0000_0000_0000,
            k < 4096,
    ;
    assert(p >= 0xf_fff8_0000_0000 ==> p * 4096 >= 0xffff_8000_0000_0000) by (nonlinear_arith);
    assert(p < 0x8_0000_0000 ==> p * 4096 + k < 0x8000_0000_0000) by (nonlinear_arith)
        requires
            k < 4096,
    ;
}

/// Double-map law: once a page is mapped through a full 4 KiB chain, the
/// invariant check of `map_to` for the same page fails: it cannot be
/// mapped again without an intervening `unmap`.
pub proof fn lemma_double_map_fails(m: Mapper, page: Page)
    requires
        m.mapped_4k(page),
    ensures
        !m.can_map(page),
{
    let (e4, e3, e2, e1) = probe(m.tbl(), m.root(), page);
    assert(spec_present(e1) ==> e1 != 0) by {
        let b = e1;
        assert(b & 0x1u64 != 0 ==> b != 0) by (bit_vector);
    };
}

} // verus!
