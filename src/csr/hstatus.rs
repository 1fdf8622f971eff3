//! The hypervisor status register.
use vstd::prelude::*;

use crate::csr::VirtualzationMode;

verus! {

/// `hstatus` with its previous-virtualization bit (bit 7) set to `mode`, so
/// that the next return enters that mode.
pub fn set_spv(hstatus: u64, mode: VirtualzationMode) -> (r: u64)
    ensures
        r == (hstatus & !(1u64 << 7u64)) | (mode.spec_bits() << 7u64),
{
    let spv_mask: u64 = !(1u64 << 7u64);
    (hstatus & spv_mask) | (mode.bits() << 7u64)
}

} // verus!
