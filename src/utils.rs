//! A wrapper around the raw representation of a value.
use vstd::prelude::*;

verus! {

/// A value's raw representation, such as an enum discriminant.
pub struct Bits<T>(pub T);

impl<T> Bits<T> {
    /// The raw representation.
    pub fn into_raw(self) -> (r: T)
        ensures
            r == self.0,
    {
        self.0
    }
}

} // verus!
