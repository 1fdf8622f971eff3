//! A small type-1 hypervisor core for RISC-V with the hypervisor extension,
//! written against an explicit model of physical memory and device registers.

pub mod csr;
pub mod elf;
pub mod gpr;
pub mod guest;
pub mod hypervisor;
pub mod jump;
pub mod memlayout;
pub mod mmio;
pub mod paging;
pub mod plic;
pub mod uart;
pub mod virtio;
