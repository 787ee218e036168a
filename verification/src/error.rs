//! The ways in which input is refused.

use vstd::prelude::*;

verus! {

/// Why a colour could not be made from what was given.
#[derive(Clone, Copy, Debug, PartialEq, Eq, Structural)]
pub enum ColorError {
    /// No source of a colour was given.
    UsageError,
    /// A channel is not a whole number within its range.
    ParseError,
    /// Hexadecimal text is malformed or does not stand for three bytes.
    DecodeError,
    /// A list of channels has neither three nor four entries, or not the
    /// number that its encoding calls for.
    InvalidLength,
}

} // verus!
