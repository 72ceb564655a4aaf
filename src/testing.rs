//! The absolute value of signed integers, as a trait for generic callers.
use vstd::prelude::*;

verus! {

pub trait Abs: Sized {
    /// The value has an absolute value of the same type (it is not the minimum).
    spec fn abs_defined(&self) -> bool;

    /// `r` is the absolute value of `x`.
    spec fn is_abs_of(&self, x: &Self) -> bool;

    fn abs(self) -> (r: Self)
        requires
            self.abs_defined(),
        ensures
            r.is_abs_of(&self),
    ;
}

impl Abs for i16 {
    open spec fn abs_defined(&self) -> bool {
        *self != i16::MIN
    }

    open spec fn is_abs_of(&self, x: &i16) -> bool {
        *self == if *x < 0 {
            -(*x as int)
        } else {
            *x as int
        }
    }

    fn abs(self) -> (r: i16) {
        if self < 0 {
            -self
        } else {
            self
        }
    }
}

impl Abs for i32 {
    open spec fn abs_defined(&self) -> bool {
        *self != i32::MIN
    }

    open spec fn is_abs_of(&self, x: &i32) -> bool {
        *self == if *x < 0 {
            -(*x as int)
        } else {
            *x as int
        }
    }

    fn abs(self) -> (r: i32) {
        if self < 0 {
            -self
        } else {
            self
        }
    }
}

impl Abs for i64 {
    open spec fn abs_defined(&self) -> bool {
        *self != i64::MIN
    }

    open spec fn is_abs_of(&self, x: &i64) -> bool {
        *self == if *x < 0 {
            -(*x as int)
        } else {
            *x as int
        }
    }

    fn abs(self) -> (r: i64) {
        if self < 0 {
            -self
        } else {
            self
        }
    }
}

} // verus!
