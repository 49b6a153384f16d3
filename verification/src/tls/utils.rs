//! Small helper traits over integers and byte-yielding values.

use vstd::prelude::*;

verus! {

/// A value that can hand out its raw bytes.
pub trait AsBytes {
    fn as_bytes(&self) -> Vec<u8>;
}

/// Picks single bytes out of an integer. Index 0 is the lowest byte;
/// larger indices are worth more.
pub trait IntoU8: Sized + Copy {
    /// How many bytes the integer holds.
    spec fn spec_width(self) -> nat;

    /// The byte at the given position.
    spec fn spec_byte_at(self, index: nat) -> u8;

    fn byte_at(self, index: usize) -> (r: u8)
        requires
            index < self.spec_width(),
        ensures
            r == self.spec_byte_at(index as nat),
    ;
}

impl IntoU8 for u16 {
    open spec fn spec_width(self) -> nat {
        2
    }

    open spec fn spec_byte_at(self, index: nat) -> u8 {
        if index == 0 {
            (self % 256) as u8
        } else {
            (self / 256) as u8
        }
    }

    fn byte_at(self, index: usize) -> (r: u8) {
        if index == 0 {
            (self % 256) as u8
        } else {
            (self / 256) as u8
        }
    }
}

impl IntoU8 for u32 {
    open spec fn spec_width(self) -> nat {
        4
    }

    open spec fn spec_byte_at(self, index: nat) -> u8 {
        if index == 0 {
            (self % 256) as u8
        } else if index == 1 {
            ((self / 256) % 256) as u8
        } else if index == 2 {
            ((self / 0x10000) % 256) as u8
        } else {
            (self / 0x1000000) as u8
        }
    }

    fn byte_at(self, index: usize) -> (r: u8) {
        if index == 0 {
            (self % 256) as u8
        } else if index == 1 {
            ((self / 256) % 256) as u8
        } else if index == 2 {
            ((self / 0x10000) % 256) as u8
        } else {
            (self / 0x1000000) as u8
        }
    }
}

} // verus!
