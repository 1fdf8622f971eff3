//! The machine status register.
use vstd::prelude::*;

use crate::csr::{CpuMode, VirtualzationMode};

verus! {

/// `mstatus` with its previous-privilege field (bits 11-12) set to `mode`.
pub fn set_mpp(mstatus: u64, mode: CpuMode) -> (r: u64)
    ensures
        r == (mstatus & !(3u64 << 11u64)) | (mode.spec_bits() << 11u64),
{
    let mpp_mask: u64 = !(3u64 << 11u64);
    (mstatus & mpp_mask) | (mode.bits() << 11u64)
}

/// `mstatus` with its previous-virtualization bit (bit 39) set to `mode`.
pub fn set_mpv(mstatus: u64, mode: VirtualzationMode) -> (r: u64)
    ensures
        r == (mstatus & !(1u64 << 39u64)) | (mode.spec_bits() << 39u64),
{
    let mpv_mask: u64 = !(1u64 << 39u64);
    (mstatus & mpv_mask) | (mode.bits() << 39u64)
}

} // verus!
