//! Small helpers shared by the rest of the library.
use vstd::prelude::*;

verus! {

/// Values that can be confined to a closed range.
pub trait Clamp<T> {
    /// `self` if it lies between `min` and `max`, else the bound it passed.
    spec fn spec_clamp(&self, min: T, max: T) -> T;

    fn clamp(&self, min: T, max: T) -> (r: T)
        ensures
            r == self.spec_clamp(min, max),
    ;
}

impl Clamp<u32> for u32 {
    open spec fn spec_clamp(&self, min: u32, max: u32) -> u32 {
        if *self < min {
            min
        } else if *self > max {
            max
        } else {
            *self
        }
    }

    fn clamp(&self, min: u32, max: u32) -> (r: u32) {
        if *self < min {
            min
        } else if *self > max {
            max
        } else {
            *self
        }
    }
}

} // verus!
