//! Cell values as characters.

use vstd::prelude::*;

verus! {

/// Whether a cell value is a Unicode scalar value: a code point up to
/// U+10FFFF that is not a surrogate.
pub open spec fn is_scalar_value(v: u32) -> bool {
    v <= 0xD7FF || 0xE000 <= v <= 0x10FFFF
}

/// `char::from_u32` of the standard library. Its documentation promises the
/// character with the given code where that code is a valid `char`, and `None`
/// for every other number; the valid codes are the Unicode scalar values. This
/// is taken on trust.
pub assume_specification[ char::from_u32 ](i: u32) -> (c: Option<char>)
    ensures
        c == (if is_scalar_value(i) {
            Some(i as char)
        } else {
            None
        }),
;

} // verus!
