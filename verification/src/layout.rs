//! The fixed virtual-address layout of the higher-half kernel.
use vstd::prelude::*;

verus! {

/// Size in bytes of one page or frame.
pub const PAGE_SIZE: u64 = 4096;

/// Number of entries in one page table.
pub const ENTRY_COUNT: u64 = 512;

/// Index of the P4 slot that points back at the P4 itself.  The kernel is
/// linked at P4 slot 511, so the recursive slot sits just below it.
pub const RECURSIVE_ENTRY: u64 = 510;

/// Virtual address at which the recursive trick exposes the P4 table:
/// the recursive index replicated at every level.
pub const P4_TABLE_ADDRESS: u64 = 0xffff_ff7f_bfdf_e000;

/// First virtual address of the higher-half kernel image.
pub const KERNEL_VMA: u64 = 0xffff_ffff_8000_0000;

/// Virtual address of the VGA text framebuffer, physical 0xb8000.
pub const VGA_BUFFER_VMA: u64 = 0xffff_ffff_8000_0000 + 0xb8000;

/// Start of the reserved kernel heap region.
pub const HEAP_START: u64 = KERNEL_VMA + 0x4000_0000;

/// Size in bytes of the reserved kernel heap region.
pub const HEAP_SIZE: u64 = 100 * 1024;

/// Virtual page used by the temporary-page machinery.
pub const TEMP_PAGE: u64 = 0xffff_ffff_f000_0000;

} // verus!
