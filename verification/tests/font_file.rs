use font_rasterizer::font::cmap::{CmapSubtable, DisplayGlyph};
use font_rasterizer::font::decode::{FontFault, FontField, ReadFailure};
use font_rasterizer::font::loca::Loca;
use font_rasterizer::font::tables::{cmap_fault, glyf_fault, read_cmap, read_glyf};
use font_rasterizer::font::glyf::GlyfDefinition;
use font_rasterizer::font::{file_to_true_type_font, font_fault, FontError};

fn push_u16(out: &mut Vec<u8>, v: u16) {
    out.push((v >> 8) as u8);
    out.push(v as u8);
}

fn push_u32(out: &mut Vec<u8>, v: u32) {
    push_u16(out, (v >> 16) as u16);
    push_u16(out, v as u16);
}

fn cmap_table(format0_length: u16) -> Vec<u8> {
    let mut t = Vec::new();
    push_u16(&mut t, 0);
    push_u16(&mut t, 1);
    push_u16(&mut t, 1);
    push_u16(&mut t, 0);
    push_u32(&mut t, 12);
    push_u16(&mut t, 0);
    push_u16(&mut t, format0_length);
    push_u16(&mut t, 0);
    for code in 0..256u32 {
        t.push(if code == 65 { 1 } else { 0 });
    }
    t
}

fn maxp_table(glyphs: u16) -> Vec<u8> {
    let mut t = Vec::new();
    push_u32(&mut t, 0x0000_5000);
    push_u16(&mut t, glyphs);
    t
}

fn head_table() -> Vec<u8> {
    let mut t = vec![0u8; 54];
    t[0] = 0;
    t[1] = 1;
    t[18] = 0x08;
    t[50] = 0;
    t[51] = 0;
    t
}

fn loca_table() -> Vec<u8> {
    let mut t = Vec::new();
    push_u16(&mut t, 0);
    push_u16(&mut t, 0);
    push_u16(&mut t, 11);
    t
}

fn triangle_glyph() -> Vec<u8> {
    let mut t = Vec::new();
    push_u16(&mut t, 1);
    push_u16(&mut t, 0);
    push_u16(&mut t, 0);
    push_u16(&mut t, 100);
    push_u16(&mut t, 100);
    push_u16(&mut t, 2);
    push_u16(&mut t, 0);
    t.extend_from_slice(&[0x31, 0x33, 0x03]);
    t.extend_from_slice(&[100, 50]);
    t.extend_from_slice(&[0, 100]);
    t.push(0);
    t
}

fn font_with(tables: Vec<([u8; 4], Vec<u8>)>) -> Vec<u8> {
    let mut out = Vec::new();
    push_u32(&mut out, 0x0001_0000);
    push_u16(&mut out, tables.len() as u16);
    push_u16(&mut out, 0);
    push_u16(&mut out, 0);
    push_u16(&mut out, 0);
    let mut offset = 12 + 16 * tables.len() as u32;
    for (tag, data) in &tables {
        out.extend_from_slice(tag);
        push_u32(&mut out, 0);
        push_u32(&mut out, offset);
        push_u32(&mut out, data.len() as u32);
        offset += data.len() as u32;
    }
    for (_, data) in &tables {
        out.extend_from_slice(data);
    }
    out
}

fn sample_font() -> Vec<u8> {
    font_with(vec![
        (*b"cmap", cmap_table(262)),
        (*b"glyf", triangle_glyph()),
        (*b"head", head_table()),
        (*b"loca", loca_table()),
        (*b"maxp", maxp_table(3)),
    ])
}

#[test]
fn decodes_a_whole_font() {
    let bytes = sample_font();
    assert_eq!(font_fault(&bytes), None);
    let font = match file_to_true_type_font(&bytes) {
        Ok(f) => f,
        Err(e) => panic!("unexpected error {:?}", e),
    };
    assert_eq!(font.offset_subtable.scaler_type, 0x0001_0000);
    assert_eq!(font.offset_subtable.number_of_tables, 5);
    assert_eq!(font.table_directory.entries.len(), 5);
    assert_eq!(font.table_directory.entries[0].tag, *b"cmap");
    assert_eq!(font.table_directory.entries[0].offset, 92);
    assert_eq!(font.cmap.number_of_subtables, 1);
    assert_eq!(font.cmap.encoding_subtables.len(), 1);
    assert_eq!(font.cmap.subtables.len(), 1);
    let tags: Vec<[u8; 4]> = font.table_directory.entries.iter().map(|e| e.tag).collect();
    for tag in [b"cmap", b"maxp", b"head", b"loca", b"glyf"] {
        assert!(tags.contains(tag));
    }
    assert_eq!(font.cmap.encoding_subtables[0].platform_id, 1);
    assert_eq!(font.cmap.encoding_subtables[0].offset, 12);
    match &font.cmap.subtables[0] {
        CmapSubtable::Format0(f) => {
            assert_eq!(f.length_in_bytes, 262);
            assert_eq!(f.glyph_index_array[65], 1);
            assert_eq!(f.glyph_index_array[66], 0);
        }
        other => panic!("expected a format 0 subtable, got {:?}", other),
    }
    assert_eq!(font.glyf.glyphs.len(), 2);
    let empty = &font.glyf.glyphs[0];
    assert_eq!(empty.number_of_contours, 0);
    let triangle = &font.glyf.glyphs[1];
    assert_eq!(triangle.number_of_contours, 1);
    assert_eq!(triangle.x_max, 100);
    assert_eq!(triangle.y_max, 100);
    match &triangle.definition {
        GlyfDefinition::Simple(d) => {
            assert_eq!(d.end_pts_of_contours, vec![2]);
            assert_eq!(d.instruction_length, 0);
            assert_eq!(d.flags.len(), 3);
            assert!(d.flags.iter().all(|f| f.on_curve));
            assert_eq!(d.x_coordinates, vec![0, 100, 50]);
            assert_eq!(d.y_coordinates, vec![0, 0, 100]);
        }
        GlyfDefinition::Compound => panic!("expected a simple glyph"),
    }
    assert_eq!(font.cmap.display_glyph('A'), DisplayGlyph::Index(1));
    assert_eq!(font.cmap.display_glyph('B'), DisplayGlyph::Index(0));
    assert_eq!(font.cmap.get_glyph_index('A'), Some(1));
    assert_eq!(font.cmap.get_glyph_index('B'), Some(0));
}

#[test]
fn missing_table_is_named() {
    let bytes = font_with(vec![
        (*b"glyf", triangle_glyph()),
        (*b"head", head_table()),
        (*b"loca", loca_table()),
        (*b"maxp", maxp_table(3)),
    ]);
    assert_eq!(font_fault(&bytes), None);
    match file_to_true_type_font(&bytes) {
        Err(FontError::MissingTable(m)) => assert_eq!(m, "Cannot find cmap"),
        other => panic!("expected a missing table, got {:?}", other.map(|_| ())),
    }
}

#[test]
fn missing_glyf_is_named_after_the_others() {
    let bytes = font_with(vec![
        (*b"cmap", cmap_table(262)),
        (*b"head", head_table()),
        (*b"loca", loca_table()),
        (*b"maxp", maxp_table(3)),
    ]);
    match file_to_true_type_font(&bytes) {
        Err(FontError::MissingTable(m)) => assert_eq!(m, "Cannot find glyf"),
        other => panic!("expected a missing table, got {:?}", other.map(|_| ())),
    }
}

#[test]
fn truncated_file_is_an_unexpected_end() {
    let bytes = sample_font();
    let cuts = [
        (0usize, FontField::ScalerType),
        (5, FontField::NumberOfTables),
        (11, FontField::RangeShift),
        (12, FontField::Tag),
        (40, FontField::Length),
        (91, FontField::Length),
        (100, FontField::Offset),
        (bytes.len() - 1, FontField::NumberOfGlyphs),
    ];
    for (cut, field) in cuts {
        let part = &bytes[..cut];
        assert_eq!(font_fault(part), None, "cut at {}", cut);
        match file_to_true_type_font(part) {
            Err(FontError::UnexpectedEof(f)) => assert_eq!(f, field, "cut at {}", cut),
            other => panic!("cut at {}: expected an unexpected end, got {:?}", cut, other.map(|_| ())),
        }
    }
}

#[test]
fn wrong_format0_length_is_a_fault() {
    let bytes = font_with(vec![
        (*b"cmap", cmap_table(261)),
        (*b"glyf", triangle_glyph()),
        (*b"head", head_table()),
        (*b"loca", loca_table()),
        (*b"maxp", maxp_table(3)),
    ]);
    assert_eq!(font_fault(&bytes), Some(FontFault::Format0Length));
}

#[test]
fn format4_subtable_is_refused() {
    let mut cmap = Vec::new();
    push_u16(&mut cmap, 0);
    push_u16(&mut cmap, 1);
    push_u16(&mut cmap, 3);
    push_u16(&mut cmap, 1);
    push_u32(&mut cmap, 12);
    push_u16(&mut cmap, 4);
    push_u16(&mut cmap, 32);
    push_u16(&mut cmap, 0);
    push_u16(&mut cmap, 2);
    for _ in 0..3 {
        push_u16(&mut cmap, 0);
    }
    for _ in 0..5 {
        push_u16(&mut cmap, 0xFFFF);
    }
    let bytes = font_with(vec![
        (*b"cmap", cmap.clone()),
        (*b"glyf", triangle_glyph()),
        (*b"head", head_table()),
        (*b"loca", loca_table()),
        (*b"maxp", maxp_table(3)),
    ]);
    assert_eq!(font_fault(&bytes), Some(FontFault::Format4Unsupported));
    cmap.truncate(cmap.len() - 1);
    let short = font_with(vec![(*b"cmap", cmap)]);
    assert_eq!(font_fault(&short), None);
    assert!(matches!(
        file_to_true_type_font(&short),
        Err(FontError::UnexpectedEof(FontField::IdRangeOffset))
    ));
}

#[test]
fn long_loca_offsets_are_read_as_32_bits() {
    let mut head = head_table();
    head[51] = 1;
    let mut loca = Vec::new();
    push_u32(&mut loca, 0);
    push_u32(&mut loca, 22);
    let bytes = font_with(vec![
        (*b"cmap", cmap_table(262)),
        (*b"glyf", triangle_glyph()),
        (*b"head", head),
        (*b"loca", loca),
        (*b"maxp", maxp_table(2)),
    ]);
    let font = file_to_true_type_font(&bytes).map_err(|_| ()).unwrap();
    assert_eq!(font.glyf.glyphs.len(), 1);
    assert_eq!(font.glyf.glyphs[0].number_of_contours, 1);
}

#[test]
fn subtable_offset_overflow_is_a_fault() {
    let mut cmap = Vec::new();
    push_u16(&mut cmap, 0);
    push_u16(&mut cmap, 1);
    push_u16(&mut cmap, 1);
    push_u16(&mut cmap, 0);
    push_u32(&mut cmap, u32::MAX);
    let bytes = font_with(vec![(*b"cmap", cmap)]);
    assert_eq!(font_fault(&bytes), Some(FontFault::OffsetOverflow));
}

/// A font whose `glyf` table is said to start at `glyf_offset`, with two
/// glyphs whose short `loca` words are `words`.
fn font_with_glyf_at(glyf_offset: u32, words: [u16; 3]) -> Vec<u8> {
    let mut loca = Vec::new();
    for w in words {
        push_u16(&mut loca, w);
    }
    let mut bytes = font_with(vec![
        (*b"cmap", cmap_table(262)),
        (*b"glyf", vec![0u8; 16]),
        (*b"head", head_table()),
        (*b"loca", loca),
        (*b"maxp", maxp_table(3)),
    ]);
    let entry = 12 + 16 + 8;
    bytes[entry..entry + 4].copy_from_slice(&glyf_offset.to_be_bytes());
    bytes
}

#[test]
fn glyph_offset_overflow_is_a_fault() {
    let bytes = font_with_glyf_at(u32::MAX - 1, [1, 2, 2]);
    assert_eq!(font_fault(&bytes), Some(FontFault::OffsetOverflow));
    let empty = font_with_glyf_at(u32::MAX, [5, 5, 5]);
    assert_eq!(font_fault(&empty), None);
    let font = file_to_true_type_font(&empty).map_err(|_| ()).unwrap();
    assert_eq!(font.glyf.glyphs.len(), 2);
}

#[test]
fn table_readers_and_their_faults() {
    let good = cmap_table(262);
    assert_eq!(cmap_fault(&good, 0), None);
    let c = read_cmap(&good, 0).map_err(|_| ()).unwrap();
    assert_eq!(c.subtables.len(), 1);
    let bad = cmap_table(261);
    assert_eq!(cmap_fault(&bad, 0), Some(FontFault::Format0Length));
    assert_eq!(
        read_cmap(&good[..10], 0).err(),
        Some(ReadFailure::Truncated(FontField::Offset))
    );

    let glyph = triangle_glyph();
    let loca = Loca { offsets: vec![0, 0, glyph.len() as u32] };
    assert_eq!(glyf_fault(&glyph, 0, &loca), None);
    let glyf = read_glyf(&glyph, 0, &loca).map_err(|_| ()).unwrap();
    assert_eq!(glyf.glyphs.len(), 2);
    assert_eq!(glyf.glyphs[1].number_of_contours, 1);
    let mut reserved = glyph.clone();
    let flags_at = 10 + 2 + 2;
    reserved[flags_at] = 0x71;
    assert_eq!(glyf_fault(&reserved, 0, &loca), Some(FontFault::ReservedFlagBits));
    assert_eq!(
        read_glyf(&glyph[..11], 0, &loca).err(),
        Some(ReadFailure::Truncated(FontField::EndPts))
    );
}
