//! The supervisor exception program counter.
use vstd::prelude::*;

use crate::jump::Target;

verus! {

/// The value to store in the register so that it holds the address of `t`.
pub fn set<T: Target>(t: &T) -> (r: u64)
    ensures
        r == t.address(),
{
    t.convert_to_fn_address()
}

} // verus!
