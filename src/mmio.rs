//! Writes to memory-mapped device registers, described as values.
use vstd::prelude::*;

verus! {

/// One 32-bit store to the register at byte `offset` from a device's base.
#[derive(Debug, Clone, Copy, PartialEq, Eq, Structural)]
pub struct MmioWrite {
    pub offset: u64,
    pub value: u32,
}

/// One 64-bit store to physical memory at `addr`.
#[derive(Debug, Clone, Copy, PartialEq, Eq, Structural)]
pub struct MemWrite {
    pub addr: u64,
    pub value: u64,
}

} // verus!
