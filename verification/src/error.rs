//! Errors shared by every codec.
//!
//! Each leaf codec reports its own failure with the position and values
//! involved; composite codecs propagate sub-codec failures unchanged, except
//! that a container translates an item's out-of-input failure into a count
//! mismatch over its items (how many it obtained versus how many it needed).

use vstd::prelude::*;

verus! {

/// A decode or encode failure.
#[allow(inconsistent_fields)]
#[derive(Debug, Clone, Copy, PartialEq, Eq, Structural)]
pub enum Error {
    /// A fixed byte did not match the input (literal decode).
    Mismatch { index: usize, expected: u8, received: u8 },
    /// Fewer bytes or elements were available than required, or a container's
    /// length disagreed with an asserted count.
    Length { obtained: usize, expected: usize },
    /// A value did not fit the target integer width.
    Overflow,
    /// A byte with no mapping in the character table (text decode).
    UnmappableByte { index: usize, byte: u8 },
    /// A character with no mapping in the character table (text encode).
    UnmappableChar { index: usize, character: char },
}

impl Error {
    /// True for the failures that mean the input ran out of bytes or elements.
    pub open spec fn is_length(self) -> bool {
        self matches Error::Length { .. }
    }

    /// Executable mirror of [`Error::is_length`].
    pub fn length_like(&self) -> (r: bool)
        ensures
            r == self.is_length(),
    {
        match self {
            Error::Length { .. } => true,
            _ => false,
        }
    }
}

} // verus!
