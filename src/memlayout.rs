//! Fixed addresses and sizes of the machine and of the guest.
use vstd::prelude::*;

verus! {

/// Size of one page frame in bytes.
pub const PAGE_SIZE: u64 = 4096;

/// Interrupt source id of the first virtio device.
pub const VIRTIO0_IRQ: u32 = 1;

/// Interrupt source id of the console.
pub const UART0_IRQ: u32 = 10;

/// Console registers of the host.
pub const UART_BASE: u64 = 0x1000_0000;

/// Registers of the first virtio device.
pub const VIRTIO0_BASE: u64 = 0x1000_1000;

/// Registers of the platform-level interrupt controller.
pub const PLIC_BASE: u64 = 0x0c00_0000;

/// First byte of host memory.
pub const DRAM_START: u64 = 0x8000_0000;

/// Last address that the page allocator may hand out.
pub const DRAM_END: u64 = 0x9000_0000;

/// Console registers as the guest sees them.
pub const GUEST_UART_BASE: u64 = 0x1000_0000;

/// First address of the guest's memory window.
pub const GUEST_DRAM_START: u64 = 0x8000_0000;

/// Last page of the guest's memory window (that page is mapped too).
pub const GUEST_DRAM_END: u64 = 0x8200_0000;

} // verus!
