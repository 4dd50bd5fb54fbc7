//! The frames of the signals stream.

use vstd::prelude::*;

verus! {

pub const EXIT: u8 = 0x01;

pub const RAW_MODE: u8 = 0x02;

pub const QUERY_SIZE: u8 = 0x03;

pub const NODELAY: u8 = 0x04;

pub const EXECUTING: u8 = 0x05;

} // verus!
