//! Virtual pages and their page-table indices.
use vstd::prelude::*;
use crate::layout::PAGE_SIZE;
use crate::frame::MAX_FRAME_NUMBER;

verus! {

/// An x86_64 virtual address is canonical when its top 17 bits are all zero
/// or all one.
pub open spec fn canonical_address(address: u64) -> bool {
    address < 0x8000_0000_0000 || address >= 0xffff_8000_0000_0000
}

/// A 4 KiB page of virtual memory, identified by its page number.
#[derive(Debug, Clone, Copy, PartialEq, Eq, Structural)]
pub struct Page {
    /// The page number: virtual address divided by the page size.
    pub number: u64,
}

impl Page {
    /// The page number.
    pub open spec fn num(&self) -> u64 {
        self.number
    }

    /// The page containing the given virtual address.
    pub open spec fn spec_containing(address: u64) -> Page {
        Page { number: address / PAGE_SIZE }
    }

    /// The page with the given number.
    pub open spec fn spec_from_num(number: u64) -> Page {
        Page { number }
    }

    /// The page covers canonical addresses.
    pub open spec fn wf(&self) -> bool {
        self.num() < 0x8_0000_0000 || (0xf_fff8_0000_0000 <= self.num()
            < MAX_FRAME_NUMBER)
    }

    /// The page containing the given virtual address, which must be
    /// canonical: a non-canonical address is a programmer error.
    pub fn containing_address(address: u64) -> (r: Page)
        requires
            canonical_address(address),
        ensures
            r == Page::spec_containing(address),
            r.num() == address / PAGE_SIZE,
            r.wf(),
    {
        proof {
            assert(address < 0x8000_0000_0000 ==> address / 4096 < 0x8_0000_0000);
            assert(address >= 0xffff_8000_0000_0000 ==> address / 4096 >= 0xf_fff8_0000_0000);
            assert(address / 4096 < MAX_FRAME_NUMBER);
        }
        Page { number: address / PAGE_SIZE }
    }

    /// Virtual address of the first byte of the page.
    pub fn start_address(&self) -> (r: u64)
        requires
            self.wf(),
        ensures
            r == self.num() * PAGE_SIZE,
    {
        self.number * PAGE_SIZE
    }

    /// Index of this page's entry in the P4 table: bits 39..47 of the address.
    pub open spec fn spec_p4_index(&self) -> u64 {
        (self.num() >> 27) & 0x1ff
    }

    /// Index of this page's entry in its P3 table: bits 30..38 of the address.
    pub open spec fn spec_p3_index(&self) -> u64 {
        (self.num() >> 18) & 0x1ff
    }

    /// Index of this page's entry in its P2 table: bits 21..29 of the address.
    pub open spec fn spec_p2_index(&self) -> u64 {
        (self.num() >> 9) & 0x1ff
    }

    /// Index of this page's entry in its P1 table: bits 12..20 of the address.
    pub open spec fn spec_p1_index(&self) -> u64 {
        self.num() & 0x1ff
    }

    /// Index of this page's entry in the P4 table.
    pub fn p4_index(&self) -> (r: usize)
        ensures
            r == self.spec_p4_index(),
            r < 512,
    {
        proof {
            lemma_index_bounds(self.number);
        }
        ((self.number >> 27) & 0x1ff) as usize
    }

    /// Index of this page's entry in its P3 table.
    pub fn p3_index(&self) -> (r: usize)
        ensures
            r == self.spec_p3_index(),
            r < 512,
    {
        proof {
            lemma_index_bounds(self.number);
        }
        ((self.number >> 18) & 0x1ff) as usize
    }

    /// Index of this page's entry in its P2 table.
    pub fn p2_index(&self) -> (r: usize)
        ensures
            r == self.spec_p2_index(),
            r < 512,
    {
        proof {
            lemma_index_bounds(self.number);
        }
        ((self.number >> 9) & 0x1ff) as usize
    }

    /// Index of this page's entry in its P1 table.
    pub fn p1_index(&self) -> (r: usize)
        ensures
            r == self.spec_p1_index(),
            r < 512,
    {
        proof {
            lemma_index_bounds(self.number);
        }
        (self.number & 0x1ff) as usize
    }
}

/// The four table indices of any page number are below 512.
pub proof fn lemma_index_bounds(n: u64)
    ensures
        ((n >> 27) & 0x1ff) < 512,
        ((n >> 18) & 0x1ff) < 512,
        ((n >> 9) & 0x1ff) < 512,
        (n & 0x1ff) < 512,
{
    assert(((n >> 27) & 0x1ff) < 512 && ((n >> 18) & 0x1ff) < 512 && ((n >> 9) & 0x1ff) < 512 && (
    n & 0x1ff) < 512) by (bit_vector);
}

/// Pages of the higher-half kernel region all live in P4 slot 511.
pub proof fn lemma_higher_half_p4_index(n: u64)
    requires
        0xf_ffff_fff8_0000 <= n < 0x10_0000_0000_0000,
    ensures
        (n >> 27) & 0x1ff == 511,
{
    assert((n >> 27) & 0x1ff == 511) by (bit_vector)
        requires
            0xf_ffff_fff8_0000u64 <= n < 0x10_0000_0000_0000u64,
    ;
}

/// Two well-formed pages with the same four table indices are the same
/// page: the indices fix bits 12..47 of the address, and canonicality
/// fixes the bits above from the P4 index.
pub proof fn lemma_same_indices_same_page(a: Page, b: Page)
    requires
        a.wf(),
        b.wf(),
        a.spec_p4_index() == b.spec_p4_index(),
        a.spec_p3_index() == b.spec_p3_index(),
        a.spec_p2_index() == b.spec_p2_index(),
        a.spec_p1_index() == b.spec_p1_index(),
    ensures
        a == b,
{
    let x = a.num();
    let y = b.num();
    assert(x == y) by (bit_vector)
        requires
            x < 0x8_0000_0000 || (0xf_fff8_0000_0000 <= x < 0x10_0000_0000_0000),
            y < 0x8_0000_0000 || (0xf_fff8_0000_0000 <= y < 0x10_0000_0000_0000),
            (x >> 27) & 0x1ff == (y >> 27) & 0x1ff,
            (x >> 18) & 0x1ff == (y >> 18) & 0x1ff,
            (x >> 9) & 0x1ff == (y >> 9) & 0x1ff,
            x & 0x1ff == y & 0x1ff,
    ;
}

} // verus!
