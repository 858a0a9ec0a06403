use font_rasterizer::font::cmap::{Cmap, CmapSubtable, DisplayGlyph, Format0, Format4};
use font_rasterizer::font::mac_os_roman::from_byte_to_cmap_index;

fn format4(id_range_offsets: Vec<u16>, id_deltas: Vec<u16>, glyphs: Vec<u16>) -> CmapSubtable {
    CmapSubtable::Format4(Format4 {
        format: 4,
        length_in_bytes: 0,
        language: 0,
        seg_count: 2,
        end_codes: vec![100, 0xFFFF],
        start_codes: vec![65, 0xFFFF],
        id_deltas,
        id_range_offsets,
        glyph_index_array: glyphs,
    })
}

fn format0() -> CmapSubtable {
    let mut glyph_index_array = [0u8; 256];
    glyph_index_array[65] = 7;
    CmapSubtable::Format0(Format0 { format: 0, length_in_bytes: 262, language: 0, glyph_index_array })
}

fn cmap(subtables: Vec<CmapSubtable>) -> Cmap {
    Cmap {
        version: 0,
        number_of_subtables: subtables.len() as u16,
        encoding_subtables: vec![],
        subtables,
    }
}

#[test]
fn mac_roman_maps_ascii_only() {
    assert_eq!(from_byte_to_cmap_index('A'), 65);
    assert_eq!(from_byte_to_cmap_index('\0'), 0);
    assert_eq!(from_byte_to_cmap_index('\u{7F}'), 127);
    assert_eq!(from_byte_to_cmap_index('é'), 0);
    assert_eq!(from_byte_to_cmap_index('\u{10000}'), 0);
}

#[test]
fn format4_delta_mapping() {
    let t = format4(vec![0, 0], vec![65472, 1], vec![]);
    assert_eq!(t.get_glyph_index('A'), Some(1));
    assert_eq!(t.get_glyph_index('d'), Some(36));
    assert_eq!(t.get_glyph_index('2'), None);
    assert_eq!(t.get_glyph_index('\u{10041}'), Some(1));
    assert_eq!(t.get_glyph_index('\u{FFFF}'), Some(0));
}

#[test]
fn format4_range_offset_mapping() {
    let t = format4(vec![4, 0], vec![0, 1], vec![10, 11, 12]);
    assert_eq!(t.get_glyph_index('A'), Some(10));
    assert_eq!(t.get_glyph_index('B'), Some(11));
    assert_eq!(t.get_glyph_index('C'), Some(12));
}

#[test]
fn first_mapping_subtable_answers() {
    let c = cmap(vec![
        CmapSubtable::Unhandled { format: 6 },
        format4(vec![0, 0], vec![65472, 1], vec![]),
        format0(),
    ]);
    assert_eq!(c.get_glyph_index('A'), Some(1));
    assert_eq!(c.get_glyph_index('!'), Some(0));
    assert!(!c.lookup_faults('!'));
    let only_unhandled = cmap(vec![CmapSubtable::Unhandled { format: 12 }]);
    assert_eq!(only_unhandled.get_glyph_index('A'), None);
}

#[test]
fn displayed_glyph_comes_from_the_byte_table() {
    let c = cmap(vec![CmapSubtable::Unhandled { format: 6 }, format0()]);
    assert_eq!(c.display_glyph('A'), DisplayGlyph::Index(7));
    assert_eq!(c.display_glyph('é'), DisplayGlyph::Index(0));
    let segment_first = cmap(vec![format4(vec![0, 0], vec![0, 1], vec![]), format0()]);
    assert_eq!(segment_first.display_glyph('A'), DisplayGlyph::SegmentTableFirst);
    let none = cmap(vec![CmapSubtable::Unhandled { format: 6 }]);
    assert_eq!(none.display_glyph('A'), DisplayGlyph::NoByteTable);
}

#[test]
fn byte_table_gives_its_array_entry() {
    let t = format0();
    assert_eq!(t.get_glyph_index('A'), Some(7));
    assert_eq!(t.get_glyph_index('B'), Some(0));
    let mut glyph_index_array = [3u8; 256];
    glyph_index_array[0] = 9;
    let u = CmapSubtable::Format0(Format0 { format: 0, length_in_bytes: 262, language: 0, glyph_index_array });
    assert_eq!(u.get_glyph_index('é'), Some(9));
    assert_eq!(u.get_glyph_index('z'), Some(3));
}

#[test]
fn lookup_faults_are_reported() {
    let short_starts = CmapSubtable::Format4(Format4 {
        format: 4,
        length_in_bytes: 0,
        language: 0,
        seg_count: 1,
        end_codes: vec![100],
        start_codes: vec![],
        id_deltas: vec![],
        id_range_offsets: vec![],
        glyph_index_array: vec![],
    });
    assert!(short_starts.lookup_faults('A'));
    assert!(!short_starts.lookup_faults('\u{1000}'));
    let c = cmap(vec![short_starts]);
    assert!(c.lookup_faults('A'));
    let past_array = cmap(vec![format4(vec![4, 0], vec![0, 1], vec![10])]);
    assert!(!past_array.lookup_faults('A'));
    assert_eq!(past_array.get_glyph_index('A'), Some(10));
    assert!(past_array.lookup_faults('B'));
    let fine = cmap(vec![format0(), format4(vec![4, 0], vec![0, 1], vec![])]);
    assert!(!fine.lookup_faults('B'));
}
