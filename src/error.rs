//! The two ways a value can fail to fit a field.
use vstd::prelude::*;

verus! {

/// Errors of operations on a whole record.
#[derive(Debug, PartialEq, Eq)]
pub enum Error {
    /// A setter was given a value that does not fit the field's width.
    OutOfBounds,
    /// A record was built from too many or too few bytes.
    InvalidBufferLen,
}

/// A value needs more bits than its field has.
#[derive(Debug, PartialEq, Eq)]
pub struct OutOfBounds;

/// Raw bits that are no valid value of the field's type.
#[derive(Debug, PartialEq, Eq)]
pub struct InvalidBitPattern<Bytes> {
    /// The rejected raw bits.
    pub invalid_bytes: Bytes,
}

impl<Bytes> InvalidBitPattern<Bytes> {
    /// An error for the rejected raw bits `invalid_bytes`.
    pub fn new(invalid_bytes: Bytes) -> (r: Self)
        ensures
            r.invalid_bytes == invalid_bytes,
    {
        InvalidBitPattern { invalid_bytes }
    }

    /// The rejected raw bits.
    pub fn invalid_bytes(self) -> (r: Bytes)
        ensures
            r == self.invalid_bytes,
    {
        self.invalid_bytes
    }
}

} // verus!
