//! What a client's request begins with.

use vstd::prelude::*;

verus! {

/// "JDC\x01".
pub const MAGIC: u32 = 0x4A444301;

/// Sent to a client whose environment is not known yet.
pub const ENV_REQUEST: u8 = 0x3F;

/// The flags of a request: the lowest bit says that standard input is a
/// terminal.
pub struct Flags(pub u8);

impl Flags {
    pub open spec fn tty(&self) -> bool {
        self.0 % 2 == 1
    }

    pub fn is_tty(&self) -> (r: bool)
        ensures
            r == self.tty(),
    {
        let b: u8 = self.0;
        assert((b & 1 != 0) == (b % 2 == 1)) by (bit_vector);
        b & 1 != 0
    }

    pub fn new(tty: bool) -> (r: u8)
        ensures
            r == if tty {
                1u8
            } else {
                0u8
            },
            Flags(r).tty() == tty,
    {
        if tty {
            1
        } else {
            0
        }
    }
}

} // verus!
