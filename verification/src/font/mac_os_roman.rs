//! The Macintosh Roman character encoding.
use vstd::prelude::*;

verus! {

/// The index in a Macintosh Roman byte encoding table of `c`.
///
/// Only the codes 0x00..=0x7F are mapped, where the encoding agrees with
/// ASCII; every other character goes to index 0, the glyph of unknown
/// characters.
pub open spec fn mac_os_roman_index(c: char) -> int {
    if (c as int) < 128 {
        c as int
    } else {
        0
    }
}

/// The index in a Macintosh Roman byte encoding table of `c`: its code for
/// an ASCII character, 0 otherwise.
pub fn from_byte_to_cmap_index(c: char) -> (res: usize)
    ensures
        res == mac_os_roman_index(c),
        res < 128,
{
    let code = c as u32;
    if code < 128 {
        code as usize
    } else {
        0
    }
}

} // verus!
