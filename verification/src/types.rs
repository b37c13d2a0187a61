//! Conversion of Rust values into registry values.
use vstd::prelude::*;
use crate::reg_value::RegValue;

verus! {

/// A Rust value that can be stored as a registry value.
pub trait ToRegValue {
    /// The registry value that represents `self`.
    spec fn spec_reg_value(&self) -> RegValue;

    /// The registry value that represents `self`.
    fn to_reg_value(&self) -> (r: RegValue)
        ensures
            r == self.spec_reg_value(),
    ;
}

} // verus!
