//! A registry value: its raw bytes and its type.
use vstd::prelude::*;
use crate::enums::RegType;

verus! {

/// The raw bytes of a registry value and the type they are read as.
#[derive(Debug, Clone, PartialEq)]
pub struct RegValue {
    pub bytes: Vec<u8>,
    pub vtype: RegType,
}

} // verus!
