//! In-memory page tables and the four-level walk.
//!
//! Physical memory that holds page tables is modelled as a store: a map
//! from frame number to the 512 raw entry words of the table living in
//! that frame.  A walk follows entries from a root P4 frame down to a P1
//! entry, honoring 1 GiB and 2 MiB huge pages on the way.
use vstd::prelude::*;
use crate::entry::{spec_present, spec_huge, spec_frame_of, spec_flags_of};
use crate::page::Page;

verus! {

/// The entries of one page table held in one frame of the store.
pub struct FrameTable {
    /// The physical frame holding the table.
    pub frame: u64,
    /// The 512 raw entry words of the table.
    pub entries: Vec<u64>,
}

/// The contents of a zeroed table.
pub open spec fn zero_table() -> Seq<u64> {
    Seq::new(512, |i: int| 0u64)
}

/// The store described by a sequence of frame tables: later tables win,
/// though a well-formed store has distinct frames.
pub open spec fn tbl_of(ts: Seq<FrameTable>) -> Map<u64, Seq<u64>>
    decreases ts.len(),
{
    if ts.len() == 0 {
        Map::empty()
    } else {
        tbl_of(ts.drop_last()).insert(ts.last().frame, ts.last().entries@)
    }
}

/// Frames of a table sequence are pairwise distinct.
pub open spec fn distinct_frames(ts: Seq<FrameTable>) -> bool {
    forall|i: int, j: int|
        0 <= i < j < ts.len() ==> (#[trigger] ts[i].frame) != (#[trigger] ts[j].frame)
}

/// A key is in the store exactly when some table carries it, and with
/// distinct frames each table's entries are what the store holds for its
/// frame.
pub proof fn lemma_tbl_of(ts: Seq<FrameTable>)
    ensures
        forall|f: u64|
            #[trigger] tbl_of(ts).contains_key(f) <==> exists|i: int|
                0 <= i < ts.len() && (#[trigger] ts[i].frame) == f,
        distinct_frames(ts) ==> forall|i: int|
            0 <= i < ts.len() ==> tbl_of(ts)[(#[trigger] ts[i].frame)] == ts[i].entries@,
    decreases ts.len(),
{
    if ts.len() > 0 {
        lemma_tbl_of(ts.drop_last());
        assert forall|f: u64| #[trigger] tbl_of(ts).contains_key(f) implies exists|i: int|
            0 <= i < ts.len() && (#[trigger] ts[i].frame) == f by {
            if f == ts.last().frame {
                assert(ts[ts.len() - 1].frame == f);
            } else {
                assert(tbl_of(ts.drop_last()).contains_key(f));
                let i = choose|i: int|
                    0 <= i < ts.drop_last().len() && (#[trigger] ts.drop_last()[i].frame) == f;
                assert(ts[i].frame == f);
            }
        };
        assert forall|f: u64|
            (exists|i: int| 0 <= i < ts.len() && (#[trigger] ts[i].frame) == f) implies #[trigger]
        tbl_of(ts).contains_key(f) by {
            let i = choose|i: int| 0 <= i < ts.len() && (#[trigger] ts[i].frame) == f;
            if i < ts.len() - 1 {
                assert(ts.drop_last()[i].frame == f);
                assert(tbl_of(ts.drop_last()).contains_key(f));
            } else {
                assert(ts.last().frame == f);
            }
        };
        if distinct_frames(ts) {
            assert(distinct_frames(ts.drop_last())) by {
                assert forall|i: int, j: int|
                    0 <= i < j < ts.drop_last().len() implies (#[trigger] ts.drop_last()[i].frame)
                    != (#[trigger] ts.drop_last()[j].frame) by {
                    assert(ts[i].frame != ts[j].frame);
                };
            };
            assert forall|i: int| 0 <= i < ts.len() implies tbl_of(ts)[(
            #[trigger] ts[i].frame)] == ts[i].entries@ by {
                if i < ts.len() - 1 {
                    assert(ts[i].frame != ts.last().frame);
                    assert(ts.drop_last()[i].frame == ts[i].frame);
                }
            };
        }
    }
}

/// Updating table `i` to a new table with the same frame updates the
/// store at that frame alone.
pub proof fn lemma_tbl_of_update(ts: Seq<FrameTable>, i: int, nt: FrameTable)
    requires
        distinct_frames(ts),
        0 <= i < ts.len(),
        nt.frame == ts[i].frame,
    ensures
        tbl_of(ts.update(i, nt)) == tbl_of(ts).insert(nt.frame, nt.entries@),
    decreases ts.len(),
{
    let ts2 = ts.update(i, nt);
    if i == ts.len() - 1 {
        assert(ts2.drop_last() =~= ts.drop_last());
        assert(ts2.last() == nt);
        assert(tbl_of(ts2) == tbl_of(ts.drop_last()).insert(nt.frame, nt.entries@));
        assert(tbl_of(ts) == tbl_of(ts.drop_last()).insert(ts.last().frame, ts.last().entries@));
        assert(tbl_of(ts).insert(nt.frame, nt.entries@) =~= tbl_of(ts.drop_last()).insert(
            nt.frame,
            nt.entries@,
        ));
    } else {
        assert(distinct_frames(ts.drop_last())) by {
            assert forall|k: int, j: int|
                0 <= k < j < ts.drop_last().len() implies (#[trigger] ts.drop_last()[k].frame)
                != (#[trigger] ts.drop_last()[j].frame) by {
                assert(ts[k].frame != ts[j].frame);
            };
        };
        lemma_tbl_of_update(ts.drop_last(), i, nt);
        assert(ts2.drop_last() =~= ts.drop_last().update(i, nt));
        assert(ts2.last() == ts.last());
        assert(ts[i].frame != ts.last().frame);
        assert(tbl_of(ts2) == tbl_of(ts.drop_last()).insert(nt.frame, nt.entries@).insert(
            ts.last().frame,
            ts.last().entries@,
        ));
        assert(tbl_of(ts.drop_last()).insert(nt.frame, nt.entries@).insert(
            ts.last().frame,
            ts.last().entries@,
        ) =~= tbl_of(ts.drop_last()).insert(ts.last().frame, ts.last().entries@).insert(
            nt.frame,
            nt.entries@,
        ));
    }
}

/// The raw entry word at slot `i` of the table in frame `f`, zero when the
/// store has no such table or slot.
pub open spec fn entry_at(m: Map<u64, Seq<u64>>, f: u64, i: u64) -> u64 {
    if m.contains_key(f) && 0 <= i < m[f].len() {
        m[f][i as int]
    } else {
        0
    }
}

/// The four entry words a walk for page `q` reads, levels P4 down to P1.
/// After a level that does not continue (absent, or huge), the lower words
/// are reported as zero.
pub open spec fn probe(m: Map<u64, Seq<u64>>, root: u64, q: Page) -> (u64, u64, u64, u64) {
    let e4 = entry_at(m, root, q.spec_p4_index());
    let e3 = if spec_present(e4) && !spec_huge(e4) {
        entry_at(m, spec_frame_of(e4), q.spec_p3_index())
    } else {
        0
    };
    let e2 = if spec_present(e3) && !spec_huge(e3) {
        entry_at(m, spec_frame_of(e3), q.spec_p2_index())
    } else {
        0
    };
    let e1 = if spec_present(e2) && !spec_huge(e2) {
        entry_at(m, spec_frame_of(e2), q.spec_p1_index())
    } else {
        0
    };
    (e4, e3, e2, e1)
}

/// The frame and flags page `q` translates to, given the four words its
/// walk reads: a P3 huge entry maps a 1 GiB page and must be aligned to
/// 512 * 512 frames, a P2 huge entry maps a 2 MiB page and must be aligned
/// to 512 frames, and otherwise a present P1 entry decides.
pub open spec fn walk_words(words: (u64, u64, u64, u64), q: Page) -> Option<(u64, u64)> {
    let (e4, e3, e2, e1) = words;
    if !spec_present(e4) || spec_huge(e4) {
        None
    } else if spec_present(e3) && spec_huge(e3) {
        if spec_frame_of(e3) % 0x40000 == 0 {
            Some(
                (
                    (spec_frame_of(e3) + q.spec_p2_index() * 512 + q.spec_p1_index()) as u64,
                    spec_flags_of(e3),
                ),
            )
        } else {
            None
        }
    } else if !spec_present(e3) {
        None
    } else if spec_present(e2) && spec_huge(e2) {
        if spec_frame_of(e2) % 512 == 0 {
            Some(((spec_frame_of(e2) + q.spec_p1_index()) as u64, spec_flags_of(e2)))
        } else {
            None
        }
    } else if !spec_present(e2) {
        None
    } else if spec_present(e1) {
        Some((spec_frame_of(e1), spec_flags_of(e1)))
    } else {
        None
    }
}

/// The frame and flags page `q` translates to under root `root`.
pub open spec fn spec_walk(m: Map<u64, Seq<u64>>, root: u64, q: Page) -> Option<(u64, u64)> {
    walk_words(probe(m, root, q), q)
}

/// Whether a fresh 4 KiB mapping can be installed for `q`: the walk meets
/// no huge entry, and the P1 slot, if its table exists, is fully unused.
/// Slot 510 of the P4 is the recursive slot and is never mapped over.
pub open spec fn can_map_words(words: (u64, u64, u64, u64)) -> bool {
    let (e4, e3, e2, e1) = words;
    !(spec_present(e4) && spec_huge(e4)) && !(spec_present(e3) && spec_huge(e3)) && !(spec_present(
        e2,
    ) && spec_huge(e2)) && (!spec_present(e2) || e1 == 0)
}

/// Whether `q` can be mapped as a fresh 4 KiB page under `root`.
pub open spec fn spec_can_map(m: Map<u64, Seq<u64>>, root: u64, q: Page) -> bool {
    q.spec_p4_index() != 510 && can_map_words(probe(m, root, q))
}

/// Whether `q` is mapped through a full four-level chain of present,
/// non-huge entries down to a present P1 entry.
pub open spec fn spec_mapped_4k(m: Map<u64, Seq<u64>>, root: u64, q: Page) -> bool {
    let (e4, e3, e2, e1) = probe(m, root, q);
    spec_present(e4) && !spec_huge(e4) && spec_present(e3) && !spec_huge(e3) && spec_present(e2)
        && !spec_huge(e2) && spec_present(e1)
}

/// How many intermediate tables a fresh mapping of `q` would create.
pub open spec fn spec_tables_needed(m: Map<u64, Seq<u64>>, root: u64, q: Page) -> int {
    let (e4, e3, e2, e1) = probe(m, root, q);
    if !spec_present(e4) {
        3
    } else if !spec_present(e3) {
        2
    } else if !spec_present(e2) {
        1
    } else {
        0
    }
}

/// Two pages walk through exactly the same four table slots when all four
/// of their indices agree.
pub open spec fn same_path(a: Page, b: Page) -> bool {
    a.spec_p4_index() == b.spec_p4_index() && a.spec_p3_index() == b.spec_p3_index()
        && a.spec_p2_index() == b.spec_p2_index() && a.spec_p1_index() == b.spec_p1_index()
}

/// Huge entries met on a walk are aligned to their page size: 512 * 512
/// frames for a 1 GiB page at P3, 512 frames for a 2 MiB page at P2.  A
/// misaligned huge entry is a fatal invariant violation.
pub open spec fn huge_aligned(words: (u64, u64, u64, u64)) -> bool {
    let (e4, e3, e2, e1) = words;
    &&& (spec_present(e3) && spec_huge(e3)) ==> spec_frame_of(e3) % 0x40000 == 0
    &&& (spec_present(e2) && spec_huge(e2)) ==> spec_frame_of(e2) % 512 == 0
}


} // verus!
