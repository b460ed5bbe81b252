use vstd::prelude::*;

verus! {

/// A scalar that can tell whether it is "not a number".
///
/// Integer types have no such value, so for them the answer is always `false`.
pub trait IsNan: Copy + Sized {
    /// Returns true if self is NaN.
    fn is_nan(self) -> (r: bool)
        ensures
            r == false,
    ;
}

impl IsNan for u8 {
    fn is_nan(self) -> (r: bool) {
        false
    }
}

impl IsNan for u16 {
    fn is_nan(self) -> (r: bool) {
        false
    }
}

impl IsNan for u32 {
    fn is_nan(self) -> (r: bool) {
        false
    }
}

impl IsNan for u64 {
    fn is_nan(self) -> (r: bool) {
        false
    }
}

impl IsNan for u128 {
    fn is_nan(self) -> (r: bool) {
        false
    }
}

impl IsNan for usize {
    fn is_nan(self) -> (r: bool) {
        false
    }
}

impl IsNan for i8 {
    fn is_nan(self) -> (r: bool) {
        false
    }
}

impl IsNan for i16 {
    fn is_nan(self) -> (r: bool) {
        false
    }
}

impl IsNan for i32 {
    fn is_nan(self) -> (r: bool) {
        false
    }
}

impl IsNan for i64 {
    fn is_nan(self) -> (r: bool) {
        false
    }
}

impl IsNan for i128 {
    fn is_nan(self) -> (r: bool) {
        false
    }
}

impl IsNan for isize {
    fn is_nan(self) -> (r: bool) {
        false
    }
}

} // verus!
