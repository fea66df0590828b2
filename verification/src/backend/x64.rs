//! The sizes of C's scalar types on x86-64.
use vstd::prelude::*;

verus! {

#[allow(non_camel_case_types)]
pub type SIZE_T = u64;

pub const CHAR_BIT: u16 = 8;

pub const BOOL_SIZE: u16 = 1;

pub const SHORT_SIZE: u16 = 2;

pub const INT_SIZE: u16 = 4;

pub const LONG_SIZE: u16 = 8;

pub const FLOAT_SIZE: u16 = 4;

pub const DOUBLE_SIZE: u16 = 8;

pub const PTR_SIZE: u16 = 8;

} // verus!
