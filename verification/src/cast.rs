//! Checked conversions between the small integer types used for table indices
//! and coordinates.
//!
//! Every conversion demands that the value fits the target type, so that no
//! conversion in the crate truncates silently.

use vstd::prelude::*;

verus! {

/// Keeps the low eight bits of a wider number.
pub trait Truncate: Sized {
    /// The number that `truncate_as_u8` returns.
    spec fn low_byte(self) -> u8;

    /// Gives the low eight bits of the number.
    fn truncate_as_u8(self) -> (r: u8)
        ensures
            r == self.low_byte(),
    ;
}

impl Truncate for u16 {
    open spec fn low_byte(self) -> u8 {
        (self & 0xff) as u8
    }

    fn truncate_as_u8(self) -> (r: u8) {
        assert(self & 0xff < 0x100) by (bit_vector);
        (self & 0xff) as u8
    }
}

/// Value-preserving conversions. Each method requires that the value is
/// representable in the target type and returns the same number.
pub trait As: Sized {
    /// The mathematical value of the number.
    spec fn value(self) -> int;

    /// Gives the number as a `u16`.
    fn as_u16(self) -> (r: u16)
        requires
            0 <= self.value() <= u16::MAX,
        ensures
            r == self.value(),
    ;

    /// Gives the number as an `i16`.
    fn as_i16(self) -> (r: i16)
        requires
            i16::MIN <= self.value() <= i16::MAX,
        ensures
            r == self.value(),
    ;

    /// Gives the number as a `u32`.
    fn as_u32(self) -> (r: u32)
        requires
            0 <= self.value() <= u32::MAX,
        ensures
            r == self.value(),
    ;

    /// Gives the number as a `usize`.
    fn as_usize(self) -> (r: usize)
        requires
            0 <= self.value() <= usize::MAX,
        ensures
            r == self.value(),
    ;

    /// Gives the number as an `isize`.
    fn as_isize(self) -> (r: isize)
        requires
            isize::MIN <= self.value() <= isize::MAX,
        ensures
            r == self.value(),
    ;
}

impl As for i16 {
    open spec fn value(self) -> int {
        self as int
    }

    fn as_u16(self) -> (r: u16) {
        self as u16
    }

    fn as_i16(self) -> (r: i16) {
        self
    }

    fn as_u32(self) -> (r: u32) {
        self as u32
    }

    fn as_usize(self) -> (r: usize) {
        self as usize
    }

    fn as_isize(self) -> (r: isize) {
        self as isize
    }
}

impl As for u32 {
    open spec fn value(self) -> int {
        self as int
    }

    fn as_u16(self) -> (r: u16) {
        self as u16
    }

    fn as_i16(self) -> (r: i16) {
        self as i16
    }

    fn as_u32(self) -> (r: u32) {
        self
    }

    fn as_usize(self) -> (r: usize) {
        self as usize
    }

    fn as_isize(self) -> (r: isize) {
        self as isize
    }
}

impl As for usize {
    open spec fn value(self) -> int {
        self as int
    }

    fn as_u16(self) -> (r: u16) {
        self as u16
    }

    fn as_i16(self) -> (r: i16) {
        self as i16
    }

    fn as_u32(self) -> (r: u32) {
        self as u32
    }

    fn as_usize(self) -> (r: usize) {
        self
    }

    fn as_isize(self) -> (r: isize) {
        self as isize
    }
}

impl As for isize {
    open spec fn value(self) -> int {
        self as int
    }

    fn as_u16(self) -> (r: u16) {
        self as u16
    }

    fn as_i16(self) -> (r: i16) {
        self as i16
    }

    fn as_u32(self) -> (r: u32) {
        self as u32
    }

    fn as_usize(self) -> (r: usize) {
        self as usize
    }

    fn as_isize(self) -> (r: isize) {
        self as isize
    }
}

} // verus!
