//! The ways in which encoding and decoding fail.
use vstd::prelude::*;

verus! {

/// Why an encode or decode operation was refused.
#[derive(Debug, Clone, Copy, PartialEq, Eq, Structural)]
pub enum Error {
    /// The target region has fewer bytes than the value occupies.
    BufferTooSmall,
    /// The source region ends before the value does.
    Truncated,
    /// The bytes of a text are not valid UTF-8.
    InvalidEncoding,
    /// The value is in a state that has no encoding, such as a collection
    /// that holds drained data and is asked to write itself.
    InvalidState,
    /// A read to the end of the input met an element that occupies no
    /// bytes, so that the input can never be used up.
    Stalled,
}

} // verus!
