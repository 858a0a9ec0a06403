//! The `maxp` table: the number of glyphs.
use vstd::prelude::*;

verus! {

/// The first two fields of the `maxp` table.
#[derive(Clone, Copy, Debug, PartialEq, Eq, Structural)]
pub struct Maxp {
    pub version: u32,
    pub number_of_glyphs: u16,
}

} // verus!
