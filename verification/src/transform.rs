//! Named transformations of values, for others to implement.
use vstd::prelude::*;

verus! {

/// A transformation with a name, applied to values of `T`. Being generic
/// over `T` (rather than having a generic method), it can stand behind a
/// trait object.
pub trait Transform<T> {
    /// The transformation's name.
    fn name(&self) -> &str;

    /// The transformation applied to `x`.
    fn apply(&self, x: T) -> T where T: Copy;
}

} // verus!
