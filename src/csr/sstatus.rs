//! The supervisor status register.
use vstd::prelude::*;

use crate::csr::CpuMode;

verus! {

/// `sstatus` with its previous-privilege bit (bit 8) set to the low bit of
/// `mode`, all other bits kept.
pub fn set_spp(sstatus: u64, mode: CpuMode) -> (r: u64)
    ensures
        r == (sstatus & !(1u64 << 8u64)) | ((mode.spec_bits() & 1) << 8u64),
{
    let spp_mask: u64 = !(1u64 << 8u64);
    (sstatus & spp_mask) | ((mode.bits() & 1) << 8u64)
}

/// `sstatus` with its supervisor interrupt-enable bit (bit 1) set to
/// `enabled`, all other bits kept.
pub fn set_sie(sstatus: u64, enabled: bool) -> (r: u64)
    ensures
        r == (sstatus & !2u64) | (if enabled { 2u64 } else { 0u64 }),
{
    let sie_mask: u64 = !(1u64 << 1u64);
    assert(!(1u64 << 1u64) == !2u64) by (bit_vector);
    (sstatus & sie_mask) | (if enabled { 2u64 } else { 0u64 })
}

} // verus!
