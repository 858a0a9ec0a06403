use font_rasterizer::font::decode::{FontFault, FontField};
use font_rasterizer::font::glyf::{GlyfData, GlyfDefinition};
use font_rasterizer::font::{file_to_true_type_font, font_fault, FontError};
use font_rasterizer::font::reader::{read_i16, read_i32, read_tag, read_u16, read_u32, read_u64, read_u8};

fn push_u16(out: &mut Vec<u8>, v: u16) {
    out.extend_from_slice(&v.to_be_bytes());
}

fn push_u32(out: &mut Vec<u8>, v: u32) {
    out.extend_from_slice(&v.to_be_bytes());
}

/// A font whose `glyf` table, the last table of the file, is `glyf`, and whose
/// short `loca` table holds `words`.
fn font_around(glyf: &[u8], words: [u16; 4]) -> Vec<u8> {
    let mut cmap = Vec::new();
    push_u16(&mut cmap, 0);
    push_u16(&mut cmap, 0);
    let mut maxp = Vec::new();
    push_u32(&mut maxp, 0x0000_5000);
    push_u16(&mut maxp, 4);
    let head = vec![0u8; 54];
    let mut loca = Vec::new();
    for v in words {
        push_u16(&mut loca, v);
    }
    let tables: Vec<([u8; 4], Vec<u8>)> = vec![
        (*b"cmap", cmap),
        (*b"head", head),
        (*b"loca", loca),
        (*b"maxp", maxp),
        (*b"glyf", glyf.to_vec()),
    ];
    let mut out = Vec::new();
    push_u32(&mut out, 0x0001_0000);
    push_u16(&mut out, tables.len() as u16);
    push_u16(&mut out, 0);
    push_u16(&mut out, 0);
    push_u16(&mut out, 0);
    let mut offset = 12 + 16 * tables.len() as u32;
    for (tag, data) in &tables {
        out.extend_from_slice(tag);
        push_u32(&mut out, 0);
        push_u32(&mut out, offset);
        push_u32(&mut out, data.len() as u32);
        offset += data.len() as u32;
    }
    for (_, data) in &tables {
        out.extend_from_slice(data);
    }
    out
}

/// Glyph 0 and glyph 2 are empty; glyph 1 starts at the first byte of `glyf`.
const ONE_GLYPH: [u16; 4] = [0, 0, 0x7000, 0x7000];

/// Glyph 1 of a font around `glyf`, decoded.
fn first_glyph(glyf: &[u8]) -> GlyfData {
    let bytes = font_around(glyf, ONE_GLYPH);
    assert_eq!(font_fault(&bytes), None);
    let mut font = file_to_true_type_font(&bytes).map_err(|_| ()).unwrap();
    assert_eq!(font.glyf.glyphs.len(), 3);
    font.glyf.glyphs.swap_remove(1)
}

/// The fault that decoding a font around `glyf` meets.
fn fault_of(glyf: &[u8]) -> Option<FontFault> {
    font_fault(&font_around(glyf, ONE_GLYPH))
}

fn header(contours: i16, end_points: &[u16], instructions: &[u8]) -> Vec<u8> {
    let mut t = Vec::new();
    t.extend_from_slice(&contours.to_be_bytes());
    for v in [-5i16, -6, 70, 80] {
        t.extend_from_slice(&v.to_be_bytes());
    }
    for e in end_points {
        t.extend_from_slice(&e.to_be_bytes());
    }
    t.extend_from_slice(&(instructions.len() as u16).to_be_bytes());
    t.extend_from_slice(instructions);
    t
}

#[test]
fn big_endian_reads() {
    let data = [0x12u8, 0x34, 0x56, 0x78, 0x9A, 0xBC, 0xDE, 0xF0, 0xFF];
    assert_eq!(read_u8(&data, 8), Some(0xFF));
    assert_eq!(read_u8(&data, 9), None);
    assert_eq!(read_u16(&data, 0), Some(0x1234));
    assert_eq!(read_u16(&data, 8), None);
    assert_eq!(read_i16(&data, 4), Some(0x9ABCu16 as i16));
    assert_eq!(read_u32(&data, 0), Some(0x1234_5678));
    assert_eq!(read_i32(&data, 4), Some(0x9ABC_DEF0u32 as i32));
    assert_eq!(read_u64(&data, 0), Some(0x1234_5678_9ABC_DEF0));
    assert_eq!(read_u64(&data, 2), None);
    assert_eq!(read_tag(&data, 1), Some([0x34, 0x56, 0x78, 0x9A]));
    assert_eq!(read_u16(&data, usize::MAX), None);
}

#[test]
fn repeated_flags_and_long_coordinates() {
    let mut g = header(1, &[3], &[0xAB, 0xCD]);
    g.extend_from_slice(&[0x09, 3]);
    for v in [10i16, -20, 30, 0] {
        g.extend_from_slice(&v.to_be_bytes());
    }
    for v in [1i16, 2, 3, 4] {
        g.extend_from_slice(&v.to_be_bytes());
    }
    let glyph = first_glyph(&g);
    assert_eq!(glyph.number_of_contours, 1);
    assert_eq!((glyph.x_min, glyph.y_min, glyph.x_max, glyph.y_max), (-5, -6, 70, 80));
    match glyph.definition {
        GlyfDefinition::Simple(d) => {
            assert_eq!(d.instruction_length, 2);
            assert_eq!(d.instructions, vec![0xAB, 0xCD]);
            assert_eq!(d.flags.len(), 4);
            assert!(d.flags.iter().all(|f| f.on_curve && f.original_flag == 0x09));
            assert_eq!(d.x_coordinates, vec![10, -10, 20, 20]);
            assert_eq!(d.y_coordinates, vec![1, 3, 6, 10]);
        }
        GlyfDefinition::Compound => panic!("expected a simple glyph"),
    }
}

#[test]
fn short_and_repeated_coordinates() {
    let mut g = header(2, &[0, 2], &[]);
    g.extend_from_slice(&[0x02, 0x12, 0x30 | 0x04]);
    g.extend_from_slice(&[7, 9]);
    g.extend_from_slice(&[0, 0, 0, 0, 200]);
    let glyph = first_glyph(&g);
    match glyph.definition {
        GlyfDefinition::Simple(d) => {
            assert_eq!(d.end_pts_of_contours, vec![0, 2]);
            assert_eq!(d.flags[0].on_curve, false);
            assert_eq!(d.flags[0].x_short_vector, true);
            assert_eq!(d.flags[1].this_x_is_same, true);
            assert_eq!(d.flags[2].y_short_vector, true);
            assert_eq!(d.flags[2].this_y_is_same, true);
            assert_eq!(d.x_coordinates, vec![-7, 2, 2]);
            assert_eq!(d.y_coordinates, vec![0, 0, 200]);
        }
        GlyfDefinition::Compound => panic!("expected a simple glyph"),
    }
}

#[test]
fn compound_and_empty_glyphs() {
    let g = header(-1, &[], &[]);
    let glyph = first_glyph(&g);
    assert!(matches!(glyph.definition, GlyfDefinition::Compound));
    assert_eq!(glyph.number_of_contours, -1);
    let g = header(0, &[], &[]);
    let glyph = first_glyph(&g);
    match glyph.definition {
        GlyfDefinition::Simple(d) => {
            assert!(d.end_pts_of_contours.is_empty());
            assert!(d.flags.is_empty());
            assert!(d.x_coordinates.is_empty());
        }
        GlyfDefinition::Compound => panic!("expected a simple glyph"),
    }
}

#[test]
fn glyph_faults() {
    let mut too_many = header(1, &[1], &[]);
    too_many.extend_from_slice(&[0x39, 2]);
    assert_eq!(fault_of(&too_many), Some(FontFault::TooManyFlags));

    let mut repeat_overflow = header(1, &[1], &[]);
    repeat_overflow.extend_from_slice(&[0x39, 255]);
    assert_eq!(fault_of(&repeat_overflow), Some(FontFault::RepeatCountOverflow));

    let mut reserved = header(1, &[0], &[]);
    reserved.extend_from_slice(&[0x41]);
    assert_eq!(fault_of(&reserved), Some(FontFault::ReservedFlagBits));

    let mut overflow = header(1, &[1], &[]);
    overflow.extend_from_slice(&[0x21, 0x21]);
    overflow.extend_from_slice(&32767i16.to_be_bytes());
    overflow.extend_from_slice(&1i16.to_be_bytes());
    assert_eq!(fault_of(&overflow), Some(FontFault::CoordinateOverflow));

    let mut short_underflow = header(1, &[1], &[]);
    short_underflow.extend_from_slice(&[0x21, 0x23]);
    short_underflow.extend_from_slice(&(-32700i16).to_be_bytes());
    short_underflow.extend_from_slice(&[100]);
    assert_eq!(fault_of(&short_underflow), Some(FontFault::CoordinateOverflow));

    let points = header(1, &[65535], &[]);
    assert_eq!(fault_of(&points), Some(FontFault::PointCountOverflow));
}

#[test]
fn glyph_truncation() {
    let mut g = header(1, &[2], &[1, 2, 3]);
    g.extend_from_slice(&[0x31, 0x31, 0x03]);
    g.extend_from_slice(&[5]);
    g.extend_from_slice(&[0, 9]);
    let whole = font_around(&g, ONE_GLYPH);
    let glyf_start = whole.len() - g.len();
    assert!(file_to_true_type_font(&whole).is_ok());
    for cut in glyf_start..whole.len() {
        let part = &whole[..cut];
        assert_eq!(font_fault(part), None, "cut {}", cut);
        let field = match cut - glyf_start {
            0..=1 => FontField::NumberOfContours,
            2..=3 => FontField::XMin,
            4..=5 => FontField::YMin,
            6..=7 => FontField::XMax,
            8..=9 => FontField::YMax,
            10..=11 => FontField::EndPts,
            12..=13 => FontField::InstructionLength,
            14..=16 => FontField::Instructions,
            17..=19 => FontField::Flag,
            20 => FontField::XCoordinateU8,
            _ => FontField::YCoordinateI16,
        };
        match file_to_true_type_font(part) {
            Err(FontError::UnexpectedEof(f)) => assert_eq!(f, field, "cut {}", cut),
            other => panic!("cut {}: expected an unexpected end, got {:?}", cut, other.map(|_| ())),
        }
    }
    let beyond = (g.len() / 2 + 1) as u16;
    let past_end = font_around(&g, [0, 0, beyond, beyond + 1]);
    assert_eq!(font_fault(&past_end), None);
    assert!(matches!(
        file_to_true_type_font(&past_end),
        Err(FontError::UnexpectedEof(FontField::NumberOfContours))
    ));
}

/// The field that a font around `glyf` ends inside, if it ends inside one.
fn truncation_of(glyf: &[u8]) -> Option<FontField> {
    match file_to_true_type_font(&font_around(glyf, ONE_GLYPH)) {
        Err(FontError::UnexpectedEof(f)) => Some(f),
        _ => None,
    }
}

#[test]
fn truncated_points_name_their_field() {
    let mut repeat = header(1, &[3], &[]);
    repeat.push(0x09);
    assert_eq!(truncation_of(&repeat), Some(FontField::RepeatedFlag));

    let mut long_x = header(1, &[0], &[]);
    long_x.extend_from_slice(&[0x01, 0x00]);
    assert_eq!(truncation_of(&long_x), Some(FontField::XCoordinateI16));

    let mut short_y = header(1, &[0], &[]);
    short_y.extend_from_slice(&[0x05, 0x00, 0x07]);
    assert_eq!(truncation_of(&short_y), Some(FontField::YCoordinateU8));

    assert_eq!(truncation_of(&header(1, &[0], &[0x01])), Some(FontField::Flag));
}
