//! Notices that clients and workers send about themselves.

use vstd::prelude::*;

verus! {

/// "JDN\x01".
pub const MAGIC: u32 = 0x4A444E01;

/// What a notice is about.
#[derive(Debug, Clone, Copy, PartialEq, Eq, Structural)]
pub enum Type {
    ClientDone,
    WorkerUnresponsive,
    WorkerExit,
    ClientExit,
    ClientInterrupt,
}

impl Type {
    /// The byte that stands for this type.
    pub open spec fn byte(&self) -> u8 {
        match self {
            Type::ClientDone => 0x01,
            Type::WorkerUnresponsive => 0x02,
            Type::WorkerExit => 0x03,
            Type::ClientExit => 0x04,
            Type::ClientInterrupt => 0x05,
        }
    }

    /// The type that `b` stands for.
    pub fn from_u8(b: u8) -> (r: Option<Self>)
        ensures
            r matches Some(t) ==> t.byte() == b,
            r is None <==> !(1 <= b <= 5),
    {
        match b {
            0x01 => Some(Type::ClientDone),
            0x02 => Some(Type::WorkerUnresponsive),
            0x03 => Some(Type::WorkerExit),
            0x04 => Some(Type::ClientExit),
            0x05 => Some(Type::ClientInterrupt),
            _ => None,
        }
    }

    pub fn to_u8(self) -> (r: u8)
        ensures
            r == self.byte(),
    {
        match self {
            Type::ClientDone => 0x01,
            Type::WorkerUnresponsive => 0x02,
            Type::WorkerExit => 0x03,
            Type::ClientExit => 0x04,
            Type::ClientInterrupt => 0x05,
        }
    }
}

/// No two types share a byte, and each byte is in the range that is read.
pub proof fn law_type_bytes_distinct(a: Type, b: Type)
    ensures
        1 <= a.byte() <= 5,
        a.byte() == b.byte() ==> a == b,
{
}

} // verus!
