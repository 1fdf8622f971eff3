//! The supervisor address translation register.
use vstd::prelude::*;

verus! {

/// Translation schemes for supervisor virtual addresses.
#[derive(Debug, Clone, Copy, PartialEq, Eq, Structural)]
pub enum Mode {
    Bare,
    Sv39,
    Sv48,
}

impl Mode {
    pub open spec fn spec_bits(&self) -> u64 {
        match self {
            Mode::Bare => 0,
            Mode::Sv39 => 8,
            Mode::Sv48 => 9,
        }
    }

    pub fn bits(&self) -> (r: u64)
        ensures
            r == self.spec_bits(),
    {
        match self {
            Mode::Bare => 0,
            Mode::Sv39 => 8,
            Mode::Sv48 => 9,
        }
    }
}

/// Mode, address-space id and root frame number of the translation.
#[derive(Debug, Clone, Copy, PartialEq, Eq, Structural)]
pub struct Setting {
    pub mode: Mode,
    pub asid: u16,
    pub ppn: u64,
}

/// The register value: mode in the top four bits, the id from bit 44, the
/// frame number in the low bits.
pub open spec fn setting_word(mode: Mode, asid: u16, ppn: u64) -> u64 {
    (mode.spec_bits() << 60u64) | ((asid as u64) << 44u64) | ppn
}

impl Setting {
    pub fn new(mode: Mode, asid: u16, ppn: u64) -> (r: Setting)
        ensures
            r == (Setting { mode, asid, ppn }),
    {
        Setting { mode: mode, asid: asid, ppn: ppn }
    }

    pub fn to_usize(&self) -> (r: u64)
        ensures
            r == setting_word(self.mode, self.asid, self.ppn),
    {
        let mut v: u64 = 0;
        v = v | (self.mode.bits() << 60u64);
        v = v | ((self.asid as u64) << 44u64);
        v = v | self.ppn;
        let m = self.mode.bits();
        let id = self.asid as u64;
        let p = self.ppn;
        assert(((0u64 | (m << 60u64)) | (id << 44u64)) | p == (m << 60u64) | (id << 44u64) | p)
            by (bit_vector);
        v
    }
}

/// The value to store in the register for `s`.
pub fn set(s: &Setting) -> (r: u64)
    ensures
        r == setting_word(s.mode, s.asid, s.ppn),
{
    s.to_usize()
}

} // verus!
