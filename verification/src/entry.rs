//! Page-table entries and their flag bits.
//!
//! An entry is a 64-bit word: zero means unused, otherwise bits 12..51 carry
//! the physical frame address and the remaining defined bits carry flags.
use vstd::prelude::*;
use crate::frame::Frame;
use crate::layout::PAGE_SIZE;

verus! {

/// The page is in memory (bit 0).
pub const PRESENT: u64 = 0x1;
/// The page is writable (bit 1).
pub const WRITABLE: u64 = 0x2;
/// The page may be used from user mode (bit 2).
pub const USER_ACCESSIBLE: u64 = 0x4;
/// Writes go directly to memory (bit 3).
pub const WRITE_THROUGH: u64 = 0x8;
/// No cache is used for the page (bit 4).
pub const NO_CACHE: u64 = 0x10;
/// Set by the CPU when the page is accessed (bit 5).
pub const ACCESSED: u64 = 0x20;
/// Set by the CPU when the page is written to (bit 6).
pub const DIRTY: u64 = 0x40;
/// A 1 GiB page in a P3 entry, a 2 MiB page in a P2 entry (bit 7).
pub const HUGE_PAGE: u64 = 0x80;
/// The page is not flushed from the TLB on an address-space switch (bit 8).
pub const GLOBAL: u64 = 0x100;
/// Code in the page may not be executed (bit 63).
pub const NO_EXECUTE: u64 = 0x8000_0000_0000_0000;

/// All defined flag bits together.
pub const FLAGS_MASK: u64 = 0x8000_0000_0000_01ff;

/// Bits 12..51 of an entry: the physical address of the target frame.
pub const ADDRESS_MASK: u64 = 0x000f_ffff_ffff_f000;

/// Frame addresses must fit in bits 12..51 of an entry, so frame numbers
/// that enter an entry stay below 2^40.
pub const MAX_ENTRY_FRAME: u64 = 0x100_0000_0000;

/// The flag bits of a raw entry word.
pub open spec fn spec_flags_of(bits: u64) -> u64 {
    bits & FLAGS_MASK
}

/// The target frame number of a raw entry word.
pub open spec fn spec_frame_of(bits: u64) -> u64 {
    (bits & ADDRESS_MASK) >> 12u64
}

/// Whether a raw entry word has the PRESENT flag.
pub open spec fn spec_present(bits: u64) -> bool {
    bits & PRESENT != 0
}

/// Whether a raw entry word has the HUGE_PAGE flag.
pub open spec fn spec_huge(bits: u64) -> bool {
    bits & HUGE_PAGE != 0
}

/// The raw word that `Entry::set` stores for a frame and flag set.
pub open spec fn spec_entry_bits(frame_number: u64, flags: u64) -> u64 {
    (frame_number * PAGE_SIZE + flags) as u64
}

/// The arguments `Entry::set` accepts: a frame whose address has no bits
/// outside 12..51, and flags within the defined set.
pub open spec fn valid_entry_args(frame_number: u64, flags: u64) -> bool {
    frame_number < MAX_ENTRY_FRAME && flags & !FLAGS_MASK == 0
}

/// Entry round trip: the word stored for a valid frame and flag pair reads
/// its flags, its presence and its frame number back exactly, and is zero
/// only for the zero pair.
pub proof fn lemma_entry_round_trip(frame_number: u64, flags: u64)
    requires
        valid_entry_args(frame_number, flags),
    ensures
        spec_flags_of(spec_entry_bits(frame_number, flags)) == flags,
        spec_frame_of(spec_entry_bits(frame_number, flags)) == frame_number,
        spec_present(spec_entry_bits(frame_number, flags)) == (flags & PRESENT != 0),
        spec_huge(spec_entry_bits(frame_number, flags)) == (flags & HUGE_PAGE != 0),
        spec_entry_bits(frame_number, flags) == 0 <==> (frame_number == 0 && flags == 0),
{
    let a = frame_number;
    let f = flags;
    assert({
        &&& ((a * 4096 + f) as u64) & 0x8000_0000_0000_01ffu64 == f
        &&& (((a * 4096 + f) as u64) & 0x000f_ffff_ffff_f000u64) >> 12u64 == a
        &&& (((a * 4096 + f) as u64) & 0x1u64 != 0) == (f & 0x1u64 != 0)
        &&& (((a * 4096 + f) as u64) & 0x80u64 != 0) == (f & 0x80u64 != 0)
        &&& (((a * 4096 + f) as u64) == 0 <==> (a == 0 && f == 0))
    }) by (bit_vector)
        requires
            a < 0x100_0000_0000u64,
            f & !0x8000_0000_0000_01ffu64 == 0,
    ;
}

/// PRESENT together with WRITABLE: the flags of a freshly created
/// intermediate table entry.
pub const PRESENT_WRITABLE: u64 = 0x3;

/// The flags of a fresh intermediate table entry are within the defined
/// set, present, and not huge.
pub proof fn lemma_present_writable()
    ensures
        PRESENT_WRITABLE & !FLAGS_MASK == 0,
        spec_present(PRESENT_WRITABLE),
        !spec_huge(PRESENT_WRITABLE),
        PRESENT_WRITABLE & PRESENT != 0,
{
    assert(0x3u64 & !0x8000_0000_0000_01ffu64 == 0 && 0x3u64 & 0x1u64 != 0 && 0x3u64 & 0x80u64
        == 0) by (bit_vector);
}

/// OR-ing PRESENT into a defined flag set keeps it within the defined
/// set, makes it present, and does not add HUGE_PAGE.
pub proof fn lemma_flags_or_present(flags: u64)
    requires
        flags & !FLAGS_MASK == 0,
    ensures
        (flags | PRESENT) & !FLAGS_MASK == 0,
        spec_present(flags | PRESENT),
        spec_huge(flags | PRESENT) == spec_huge(flags),
{
    let f = flags;
    assert({
        &&& (f | 0x1u64) & !0x8000_0000_0000_01ffu64 == 0
        &&& (f | 0x1u64) & 0x1u64 != 0
        &&& ((f | 0x1u64) & 0x80u64 != 0) == (f & 0x80u64 != 0)
    }) by (bit_vector)
        requires
            f & !0x8000_0000_0000_01ffu64 == 0,
    ;
}

/// The zero word is neither present nor huge.
pub proof fn lemma_zero_entry()
    ensures
        !spec_present(0u64),
        !spec_huge(0u64),
{
    assert(0u64 & 0x1u64 == 0 && 0u64 & 0x80u64 == 0) by (bit_vector);
}

/// The frame number an entry points at always fits back into an entry,
/// and equals the masked address divided by the page size.
pub proof fn lemma_frame_of_bounds(bits: u64)
    ensures
        spec_frame_of(bits) < MAX_ENTRY_FRAME,
        (bits & ADDRESS_MASK) / PAGE_SIZE == spec_frame_of(bits),
{
    let b = bits;
    assert((b & 0x000f_ffff_ffff_f000u64) >> 12u64 < 0x100_0000_0000u64 && (b
        & 0x000f_ffff_ffff_f000u64) / 4096 == (b & 0x000f_ffff_ffff_f000u64) >> 12u64)
        by (bit_vector);
}

/// One page-table entry.
#[derive(Debug, Clone, Copy, PartialEq, Eq, Structural)]
pub struct Entry {
    bits: u64,
}

impl Entry {
    /// The raw 64-bit word of the entry.
    pub closed spec fn spec_bits(&self) -> u64 {
        self.bits
    }

    /// An entry that does not translate and carries no metadata.
    pub fn new_unused() -> (r: Entry)
        ensures
            r.spec_bits() == 0,
    {
        Entry { bits: 0 }
    }

    /// An entry seen from its raw 64-bit word.
    pub fn from_bits(bits: u64) -> (r: Entry)
        ensures
            r.spec_bits() == bits,
    {
        Entry { bits }
    }

    /// Whether the entry is unused, that is, fully zero.
    pub fn is_unused(&self) -> (r: bool)
        ensures
            r == (self.spec_bits() == 0),
    {
        self.bits == 0
    }

    /// Clear the entry.
    pub fn set_unused(&mut self)
        ensures
            final(self).spec_bits() == 0,
    {
        self.bits = 0;
    }

    /// The flag bits of the entry.
    pub fn flags(&self) -> (r: u64)
        ensures
            r == spec_flags_of(self.spec_bits()),
    {
        self.bits & FLAGS_MASK
    }

    /// The frame the entry points at, if the entry is present.
    pub fn pointed_frame(&self) -> (r: Option<Frame>)
        ensures
            r == if spec_present(self.spec_bits()) {
                Some(Frame::spec_from_num(spec_frame_of(self.spec_bits())))
            } else {
                None::<Frame>
            },
    {
        if self.bits & PRESENT != 0 {
            proof {
                lemma_frame_of_bounds(self.bits);
            }
            Some(Frame::containing_address(self.bits & ADDRESS_MASK))
        } else {
            None
        }
    }

    /// Point the entry at `frame` with the given flags.  The frame address
    /// must fit in bits 12..51 and the flags must stay within the defined
    /// bits; setting an entry without PRESENT is legal and means the entry
    /// carries metadata but does not translate.
    pub fn set(&mut self, frame: Frame, flags: u64)
        requires
            valid_entry_args(frame.num(), flags),
        ensures
            final(self).spec_bits() == spec_entry_bits(frame.num(), flags),
    {
        let address = frame.start_address();
        proof {
            let a = frame.num();
            let f = flags;
            assert((((a * 4096) as u64) | f) == (a * 4096 + f) as u64) by (bit_vector)
                requires
                    a < 0x100_0000_0000u64,
                    f & !0x8000_0000_0000_01ffu64 == 0,
            ;
        }
        self.bits = address | flags;
    }
}

/// Flags for mapping an ELF section reported by the bootloader, from its
/// allocated / writable / executable flag triple: PRESENT when the section
/// is allocated, WRITABLE when it is writable, and NO_EXECUTE exactly when
/// it is not executable, so that data cannot be executed and read-only
/// sections cannot be written.
pub fn from_elf_section(allocated: bool, writable: bool, executable: bool) -> (r: u64)
    ensures
        r == spec_elf_flags(allocated, writable, executable),
{
    let base: u64 = if allocated {
        PRESENT
    } else {
        0
    };
    let write_bit: u64 = if writable {
        WRITABLE
    } else {
        0
    };
    let nx_bit: u64 = if !executable {
        NO_EXECUTE
    } else {
        0
    };
    base + write_bit + nx_bit
}

/// The flags derived from an ELF section flag triple.
pub open spec fn spec_elf_flags(allocated: bool, writable: bool, executable: bool) -> u64 {
    ((if allocated {
        PRESENT
    } else {
        0
    }) + (if writable {
        WRITABLE
    } else {
        0
    }) + (if !executable {
        NO_EXECUTE
    } else {
        0
    })) as u64
}

/// ELF flag derivation law: the derived flags stay within the defined flag
/// set and never carry HUGE_PAGE; they carry PRESENT exactly for an
/// allocated section, WRITABLE exactly for a writable one, and NO_EXECUTE
/// exactly for one that is not executable.
pub proof fn lemma_elf_flags(allocated: bool, writable: bool, executable: bool)
    ensures
        spec_elf_flags(allocated, writable, executable) & !FLAGS_MASK == 0,
        spec_elf_flags(allocated, writable, executable) & HUGE_PAGE == 0,
        spec_present(spec_elf_flags(allocated, writable, executable)) == allocated,
        (spec_elf_flags(allocated, writable, executable) & WRITABLE != 0) == writable,
        (spec_elf_flags(allocated, writable, executable) & NO_EXECUTE != 0) == !executable,
{
    let v = spec_elf_flags(allocated, writable, executable);
    let a = allocated;
    let w = writable;
    let e = executable;
    assert({
        &&& v & !0x8000_0000_0000_01ffu64 == 0
        &&& v & 0x80u64 == 0
        &&& (v & 0x1u64 != 0) == a
        &&& (v & 0x2u64 != 0) == w
        &&& (v & 0x8000_0000_0000_0000u64 != 0) == !e
    }) by (bit_vector)
        requires
            v == ((if a {
                0x1u64
            } else {
                0u64
            }) + (if w {
                0x2u64
            } else {
                0u64
            }) + (if !e {
                0x8000_0000_0000_0000u64
            } else {
                0u64
            })) as u64,
    ;
}

} // verus!
