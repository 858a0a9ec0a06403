//! The `head` table: global facts about the font.
use vstd::prelude::*;

verus! {

/// The fields of the `head` table, in file order.
///
/// `index_to_loc_format` is 0 when the `loca` table holds 16-bit offsets
/// (halved) and anything else when it holds 32-bit offsets.
#[derive(Clone, Copy, Debug, PartialEq, Eq, Structural)]
pub struct Head {
    pub version: u32,
    pub font_revision: i32,
    pub checksum_adjustment: u32,
    pub magic_number: u32,
    pub flags: u16,
    pub units_per_em: u16,
    pub created: u64,
    pub modified: u64,
    pub xmin: i16,
    pub ymin: i16,
    pub xmax: i16,
    pub ymax: i16,
    pub mac_style: u16,
    pub lowest_rec_ppem: u16,
    pub font_direction_hint: i16,
    pub index_to_loc_format: i16,
    pub glyph_data_format: i16,
}

} // verus!
