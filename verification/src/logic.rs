//! A test for "anything set", written as a method.

use vstd::prelude::*;

verus! {

/// Whether a value is anything but its zero.
pub trait Logic {
    /// What `stood` answers.
    spec fn is_stood(&self) -> bool;

    /// Whether `self` is anything but its zero.
    fn stood(&self) -> (r: bool)
        ensures
            r == self.is_stood(),
    ;
}

impl Logic for usize {
    open spec fn is_stood(&self) -> bool {
        *self != 0
    }

    /// Whether the number is not zero.
    fn stood(&self) -> (r: bool) {
        *self != 0
    }
}

} // verus!
