//! CPU feature bits the remap relies on.
//!
//! Before remapping, the kernel sets bit 11 (NXE) of the IA32_EFER model
//! specific register so NO_EXECUTE entries take effect, and bit 16 (WP)
//! of CR0 so kernel writes to read-only pages fault.  The register reads
//! and writes themselves are privileged machine access outside this
//! library; these functions compute the values to write.
use vstd::prelude::*;

verus! {

/// Bit 11 of IA32_EFER: NO_EXECUTE entries take effect.
pub const EFER_NXE: u64 = 0x800;

/// Bit 16 of CR0: kernel writes to read-only pages fault.
pub const CR0_WRITE_PROTECT: u64 = 0x1_0000;

/// The IA32_EFER value with the NXE bit set.
pub fn efer_with_nxe(efer: u64) -> (r: u64)
    ensures
        r == efer | EFER_NXE,
        r & EFER_NXE != 0,
{
    proof {
        let e = efer;
        assert((e | 0x800u64) & 0x800u64 != 0) by (bit_vector);
    }
    efer | EFER_NXE
}

/// The CR0 value with the write-protect bit set.
pub fn cr0_with_write_protect(cr0: u64) -> (r: u64)
    ensures
        r == cr0 | CR0_WRITE_PROTECT,
        r & CR0_WRITE_PROTECT != 0,
{
    proof {
        let c = cr0;
        assert((c | 0x1_0000u64) & 0x1_0000u64 != 0) by (bit_vector);
    }
    cr0 | CR0_WRITE_PROTECT
}

} // verus!
