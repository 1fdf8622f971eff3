//! Things whose address can be stored in a program-counter or vector register.
use vstd::prelude::*;

verus! {

pub trait Target {
    /// The address the value stands for.
    spec fn address(&self) -> u64;

    fn convert_to_fn_address(&self) -> (r: u64)
        ensures
            r == self.address(),
    ;
}

impl Target for u64 {
    open spec fn address(&self) -> u64 {
        *self
    }

    fn convert_to_fn_address(&self) -> (r: u64) {
        *self
    }
}

} // verus!
