//! The `loca` table: where each glyph starts inside the `glyf` table.
use vstd::prelude::*;

verus! {

/// Glyph offsets from the start of the `glyf` table; glyph `i` runs from
/// `offsets[i]` to `offsets[i + 1]`, and an empty range is a glyph without
/// outline.
#[derive(Debug)]
pub struct Loca {
    pub offsets: Vec<u32>,
}

impl View for Loca {
    type V = Seq<u32>;

    open spec fn view(&self) -> Seq<u32> {
        self.offsets@
    }
}

} // verus!
