//! The platform-level interrupt controller: enabling sources and the
//! claim/complete protocol. Offsets are bytes from the controller's base.
use vstd::prelude::*;

use crate::memlayout::{UART0_IRQ, VIRTIO0_IRQ};
use crate::mmio::MmioWrite;

verus! {

/// The enable mask of the supervisor context.
pub const PLIC_SENABLE: u64 = 0x2080;

/// The acceptance threshold of the supervisor context.
pub const PLIC_SPRIORITY: u64 = 0x20_1000;

/// Reading claims a pending interrupt; writing completes it.
pub const PLIC_SCLAIM: u64 = 0x20_1004;

/// The stores of `enable_interrupt`, in order.
pub open spec fn enable_writes() -> Seq<MmioWrite> {
    seq![
        MmioWrite { offset: 4u64, value: 1 },
        MmioWrite { offset: 40u64, value: 1 },
        MmioWrite { offset: PLIC_SENABLE, value: 0x402 },
        MmioWrite { offset: PLIC_SPRIORITY, value: 0 },
    ]
}

/// The stores that enable the block device and the console: a nonzero
/// priority for each source, both in the enable mask, threshold zero.
pub fn enable_interrupt() -> (r: Vec<MmioWrite>)
    ensures
        r@ == enable_writes(),
{
    let mut w: Vec<MmioWrite> = Vec::new();
    w.push(MmioWrite { offset: 4 * VIRTIO0_IRQ as u64, value: 1 });
    w.push(MmioWrite { offset: 4 * UART0_IRQ as u64, value: 1 });
    w.push(MmioWrite { offset: PLIC_SENABLE, value: (1u32 << VIRTIO0_IRQ) | (1u32 << UART0_IRQ) });
    w.push(MmioWrite { offset: PLIC_SPRIORITY, value: 0 });
    assert((1u32 << 1u32) | (1u32 << 10u32) == 0x402u32) by (bit_vector);
    w
}

/// The store that signals completion of interrupt `interrupt`.
pub fn complete(interrupt: u32) -> (r: MmioWrite)
    ensures
        r == (MmioWrite { offset: PLIC_SCLAIM, value: interrupt }),
{
    MmioWrite { offset: PLIC_SCLAIM, value: interrupt }
}

/// The claimed interrupt, from the value read at the claim register; zero
/// means that none is pending.
pub fn get_claim(claim_register: u32) -> (r: Option<u32>)
    ensures
        claim_register == 0 ==> r is None,
        claim_register != 0 ==> r == Some(claim_register),
{
    if claim_register == 0 {
        None
    } else {
        Some(claim_register)
    }
}

} // verus!
