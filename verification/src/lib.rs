//! A registry of keys and values kept as a JSON document per predefined key.
#![allow(non_camel_case_types)]

pub mod common;
pub mod enums;
pub mod json;
pub mod path;
pub mod reg_value;
pub mod reg_key;
pub mod laws;
pub mod types;
pub mod storage;
