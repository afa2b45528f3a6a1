//! Moving an index by one step inside a list, wrapping around at both ends.
use vstd::prelude::*;

verus! {

/// The index before `index` in a list of `length` elements: the last one when `index` is the first.
pub open spec fn previous_index(index: int, length: int) -> int {
    if index == 0 {
        length - 1
    } else {
        index - 1
    }
}

/// The index after `index` in a list of `length` elements: the first one when `index` is the last.
pub open spec fn next_index(index: int, length: int) -> int {
    if index == length - 1 {
        0
    } else {
        index + 1
    }
}

/// Allows a numeric type to add or subtract 1 while staying within some bounds.
///
/// This is useful for scrolling, hence the name.
pub trait Scrollable: Sized + Copy {
    /// The number that the value stands for.
    spec fn value(&self) -> int;

    /// The smallest number of the type.
    spec fn lowest() -> int;

    /// The largest number of the type.
    spec fn highest() -> int;

    /// Returns the index of the previous element according to the total number of elements.
    fn previous(&self, length: Self) -> (index: Self)
        requires
            Self::lowest() <= previous_index(self.value(), length.value()),
        ensures
            index.value() == previous_index(self.value(), length.value()),
    ;

    /// Returns the index of the next element according to the total number of elements.
    fn next(&self, length: Self) -> (index: Self)
        requires
            Self::lowest() <= length.value() - 1,
            next_index(self.value(), length.value()) <= Self::highest(),
        ensures
            index.value() == next_index(self.value(), length.value()),
    ;
}

impl Scrollable for usize {
    open spec fn value(&self) -> int {
        *self as int
    }

    open spec fn lowest() -> int {
        usize::MIN as int
    }

    open spec fn highest() -> int {
        usize::MAX as int
    }

    fn previous(&self, length: Self) -> (index: Self) {
        if *self == 0 {
            length - 1
        } else {
            *self - 1
        }
    }

    fn next(&self, length: Self) -> (index: Self) {
        if *self == length - 1 {
            0
        } else {
            *self + 1
        }
    }
}

impl Scrollable for u8 {
    open spec fn value(&self) -> int {
        *self as int
    }

    open spec fn lowest() -> int {
        u8::MIN as int
    }

    open spec fn highest() -> int {
        u8::MAX as int
    }

    fn previous(&self, length: Self) -> (index: Self) {
        if *self == 0 {
            length - 1
        } else {
            *self - 1
        }
    }

    fn next(&self, length: Self) -> (index: Self) {
        if *self == length - 1 {
            0
        } else {
            *self + 1
        }
    }
}

impl Scrollable for u16 {
    open spec fn value(&self) -> int {
        *self as int
    }

    open spec fn lowest() -> int {
        u16::MIN as int
    }

    open spec fn highest() -> int {
        u16::MAX as int
    }

    fn previous(&self, length: Self) -> (index: Self) {
        if *self == 0 {
            length - 1
        } else {
            *self - 1
        }
    }

    fn next(&self, length: Self) -> (index: Self) {
        if *self == length - 1 {
            0
        } else {
            *self + 1
        }
    }
}

impl Scrollable for u32 {
    open spec fn value(&self) -> int {
        *self as int
    }

    open spec fn lowest() -> int {
        u32::MIN as int
    }

    open spec fn highest() -> int {
        u32::MAX as int
    }

    fn previous(&self, length: Self) -> (index: Self) {
        if *self == 0 {
            length - 1
        } else {
            *self - 1
        }
    }

    fn next(&self, length: Self) -> (index: Self) {
        if *self == length - 1 {
            0
        } else {
            *self + 1
        }
    }
}

impl Scrollable for u64 {
    open spec fn value(&self) -> int {
        *self as int
    }

    open spec fn lowest() -> int {
        u64::MIN as int
    }

    open spec fn highest() -> int {
        u64::MAX as int
    }

    fn previous(&self, length: Self) -> (index: Self) {
        if *self == 0 {
            length - 1
        } else {
            *self - 1
        }
    }

    fn next(&self, length: Self) -> (index: Self) {
        if *self == length - 1 {
            0
        } else {
            *self + 1
        }
    }
}

impl Scrollable for u128 {
    open spec fn value(&self) -> int {
        *self as int
    }

    open spec fn lowest() -> int {
        u128::MIN as int
    }

    open spec fn highest() -> int {
        u128::MAX as int
    }

    fn previous(&self, length: Self) -> (index: Self) {
        if *self == 0 {
            length - 1
        } else {
            *self - 1
        }
    }

    fn next(&self, length: Self) -> (index: Self) {
        if *self == length - 1 {
            0
        } else {
            *self + 1
        }
    }
}

impl Scrollable for isize {
    open spec fn value(&self) -> int {
        *self as int
    }

    open spec fn lowest() -> int {
        isize::MIN as int
    }

    open spec fn highest() -> int {
        isize::MAX as int
    }

    fn previous(&self, length: Self) -> (index: Self) {
        if *self == 0 {
            length - 1
        } else {
            *self - 1
        }
    }

    fn next(&self, length: Self) -> (index: Self) {
        if *self == length - 1 {
            0
        } else {
            *self + 1
        }
    }
}

impl Scrollable for i8 {
    open spec fn value(&self) -> int {
        *self as int
    }

    open spec fn lowest() -> int {
        i8::MIN as int
    }

    open spec fn highest() -> int {
        i8::MAX as int
    }

    fn previous(&self, length: Self) -> (index: Self) {
        if *self == 0 {
            length - 1
        } else {
            *self - 1
        }
    }

    fn next(&self, length: Self) -> (index: Self) {
        if *self == length - 1 {
            0
        } else {
            *self + 1
        }
    }
}

impl Scrollable for i16 {
    open spec fn value(&self) -> int {
        *self as int
    }

    open spec fn lowest() -> int {
        i16::MIN as int
    }

    open spec fn highest() -> int {
        i16::MAX as int
    }

    fn previous(&self, length: Self) -> (index: Self) {
        if *self == 0 {
            length - 1
        } else {
            *self - 1
        }
    }

    fn next(&self, length: Self) -> (index: Self) {
        if *self == length - 1 {
            0
        } else {
            *self + 1
        }
    }
}

impl Scrollable for i32 {
    open spec fn value(&self) -> int {
        *self as int
    }

    open spec fn lowest() -> int {
        i32::MIN as int
    }

    open spec fn highest() -> int {
        i32::MAX as int
    }

    fn previous(&self, length: Self) -> (index: Self) {
        if *self == 0 {
            length - 1
        } else {
            *self - 1
        }
    }

    fn next(&self, length: Self) -> (index: Self) {
        if *self == length - 1 {
            0
        } else {
            *self + 1
        }
    }
}

impl Scrollable for i64 {
    open spec fn value(&self) -> int {
        *self as int
    }

    open spec fn lowest() -> int {
        i64::MIN as int
    }

    open spec fn highest() -> int {
        i64::MAX as int
    }

    fn previous(&self, length: Self) -> (index: Self) {
        if *self == 0 {
            length - 1
        } else {
            *self - 1
        }
    }

    fn next(&self, length: Self) -> (index: Self) {
        if *self == length - 1 {
            0
        } else {
            *self + 1
        }
    }
}

impl Scrollable for i128 {
    open spec fn value(&self) -> int {
        *self as int
    }

    open spec fn lowest() -> int {
        i128::MIN as int
    }

    open spec fn highest() -> int {
        i128::MAX as int
    }

    fn previous(&self, length: Self) -> (index: Self) {
        if *self == 0 {
            length - 1
        } else {
            *self - 1
        }
    }

    fn next(&self, length: Self) -> (index: Self) {
        if *self == length - 1 {
            0
        } else {
            *self + 1
        }
    }
}

} // verus!
