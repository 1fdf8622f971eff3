//! Control and status registers. Each setter computes the value to store from
//! the register's current value; the store itself is a privileged instruction.
use vstd::prelude::*;

pub mod hgatp;
pub mod hstatus;
pub mod mepc;
pub mod mstatus;
pub mod mtvec;
pub mod satp;
pub mod sepc;
pub mod sstatus;
pub mod stvec;
pub mod vsepc;

verus! {

/// Privilege levels.
#[derive(Debug, Clone, Copy, PartialEq, Eq, Structural)]
pub enum CpuMode {
    M,
    S,
    U,
}

impl CpuMode {
    pub open spec fn spec_bits(&self) -> u64 {
        match self {
            CpuMode::M => 3,
            CpuMode::S => 1,
            CpuMode::U => 0,
        }
    }

    /// The mode's encoding in a previous-privilege field.
    pub fn bits(&self) -> (r: u64)
        ensures
            r == self.spec_bits(),
    {
        match self {
            CpuMode::M => 3,
            CpuMode::S => 1,
            CpuMode::U => 0,
        }
    }
}

/// Whether the hart runs the host or a guest.
#[derive(Debug, Clone, Copy, PartialEq, Eq, Structural)]
pub enum VirtualzationMode {
    Host,
    Guest,
}

impl VirtualzationMode {
    pub open spec fn spec_bits(&self) -> u64 {
        match self {
            VirtualzationMode::Host => 0,
            VirtualzationMode::Guest => 1,
        }
    }

    pub fn bits(&self) -> (r: u64)
        ensures
            r == self.spec_bits(),
    {
        match self {
            VirtualzationMode::Host => 0,
            VirtualzationMode::Guest => 1,
        }
    }
}

} // verus!
