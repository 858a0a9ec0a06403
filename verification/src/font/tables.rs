//! Decoding the `head`, `maxp`, `loca`, `glyf` and `cmap` tables.
use vstd::prelude::*;
use crate::font::cmap::{
    Cmap, CmapEncodingSubtable, CmapSubtable, CmapSubtableView, CmapView, Format0, Format0View,
};
use crate::font::decode::{
    decode_glyph, decode_glyph_at, failure_of, fault_in, first_short, first_short_record,
    lemma_prepend_empty, lemma_prepend_prepend, pass_failure, prepend, short_field,
    short_record_field, Decoded, FontFault, FontField, ReadFailure,
};
use crate::font::glyf::{
    empty_simple_definition, empty_simple_view, Glyf, GlyfData, GlyfDataView, GlyfDefinition,
    GlyfDefinitionView,
};
use crate::font::head::Head;
use crate::font::loca::Loca;
use crate::font::maxp::Maxp;
use crate::font::reader::{
    be_i16, be_i32, be_u16, be_u32, be_u64, fits, has_bytes, read_i16, read_i32, read_u16,
    read_u32, read_u64,
};

verus! {

/// The fields of the `head` table.
pub open spec fn head_layout() -> Seq<(FontField, usize)> {
    seq![
        (FontField::Version, 4usize),
        (FontField::FontRevision, 4usize),
        (FontField::ChecksumAdjustment, 4usize),
        (FontField::MagicNumber, 4usize),
        (FontField::Flags, 2usize),
        (FontField::UnitsPerEm, 2usize),
        (FontField::Created, 8usize),
        (FontField::Modified, 8usize),
        (FontField::HeadXMin, 2usize),
        (FontField::HeadYMin, 2usize),
        (FontField::HeadXMax, 2usize),
        (FontField::HeadYMax, 2usize),
        (FontField::MacStyle, 2usize),
        (FontField::LowestRecPpem, 2usize),
        (FontField::FontDirectionHint, 2usize),
        (FontField::IndexToLocFormat, 2usize),
        (FontField::GlyphDataFormat, 2usize),
    ]
}

/// The `head` table at `p`: 54 bytes of fixed fields.
pub open spec fn decode_head(s: Seq<u8>, p: int) -> Decoded<Head> {
    if !fits(s, p, 54) {
        Decoded::Truncated(first_short(s, p, head_layout()))
    } else {
        Decoded::Value(
            Head {
                version: be_u32(s, p),
                font_revision: be_i32(s, p + 4),
                checksum_adjustment: be_u32(s, p + 8),
                magic_number: be_u32(s, p + 12),
                flags: be_u16(s, p + 16),
                units_per_em: be_u16(s, p + 18),
                created: be_u64(s, p + 20),
                modified: be_u64(s, p + 28),
                xmin: be_i16(s, p + 36),
                ymin: be_i16(s, p + 38),
                xmax: be_i16(s, p + 40),
                ymax: be_i16(s, p + 42),
                mac_style: be_u16(s, p + 44),
                lowest_rec_ppem: be_u16(s, p + 46),
                font_direction_hint: be_i16(s, p + 48),
                index_to_loc_format: be_i16(s, p + 50),
                glyph_data_format: be_i16(s, p + 52),
            },
            p + 54,
        )
    }
}

/// Decodes the `head` table at `p`.
pub fn read_head(data: &[u8], p: usize) -> (res: Result<Head, ReadFailure>)
    ensures
        match res {
            Ok(h) => decode_head(data@, p as int) matches Decoded::Value(v, _) && v == h,
            Err(e) => decode_head(data@, p as int) matches Decoded::Truncated(f) && e
                == ReadFailure::Truncated(f),
        },
{
    if !has_bytes(data, p, 54) {
        let layout = vec![
            (FontField::Version, 4usize),
            (FontField::FontRevision, 4usize),
            (FontField::ChecksumAdjustment, 4usize),
            (FontField::MagicNumber, 4usize),
            (FontField::Flags, 2usize),
            (FontField::UnitsPerEm, 2usize),
            (FontField::Created, 8usize),
            (FontField::Modified, 8usize),
            (FontField::HeadXMin, 2usize),
            (FontField::HeadYMin, 2usize),
            (FontField::HeadXMax, 2usize),
            (FontField::HeadYMax, 2usize),
            (FontField::MacStyle, 2usize),
            (FontField::LowestRecPpem, 2usize),
            (FontField::FontDirectionHint, 2usize),
            (FontField::IndexToLocFormat, 2usize),
            (FontField::GlyphDataFormat, 2usize),
        ];
        assert(layout@ =~= head_layout());
        return Err(ReadFailure::Truncated(short_field(data, p, &layout)));
    }
    Ok(
        Head {
            version: read_u32(data, p).unwrap(),
            font_revision: read_i32(data, p + 4).unwrap(),
            checksum_adjustment: read_u32(data, p + 8).unwrap(),
            magic_number: read_u32(data, p + 12).unwrap(),
            flags: read_u16(data, p + 16).unwrap(),
            units_per_em: read_u16(data, p + 18).unwrap(),
            created: read_u64(data, p + 20).unwrap(),
            modified: read_u64(data, p + 28).unwrap(),
            xmin: read_i16(data, p + 36).unwrap(),
            ymin: read_i16(data, p + 38).unwrap(),
            xmax: read_i16(data, p + 40).unwrap(),
            ymax: read_i16(data, p + 42).unwrap(),
            mac_style: read_u16(data, p + 44).unwrap(),
            lowest_rec_ppem: read_u16(data, p + 46).unwrap(),
            font_direction_hint: read_i16(data, p + 48).unwrap(),
            index_to_loc_format: read_i16(data, p + 50).unwrap(),
            glyph_data_format: read_i16(data, p + 52).unwrap(),
        },
    )
}

/// The `maxp` table at `p`: its version and the number of glyphs.
pub open spec fn decode_maxp(s: Seq<u8>, p: int) -> Decoded<Maxp> {
    if !fits(s, p, 6) {
        Decoded::Truncated(
            first_short(
                s,
                p,
                seq![(FontField::MaxpVersion, 4usize), (FontField::NumberOfGlyphs, 2usize)],
            ),
        )
    } else {
        Decoded::Value(Maxp { version: be_u32(s, p), number_of_glyphs: be_u16(s, p + 4) }, p + 6)
    }
}

/// Decodes the `maxp` table at `p`.
pub fn read_maxp(data: &[u8], p: usize) -> (res: Result<Maxp, ReadFailure>)
    ensures
        match res {
            Ok(m) => decode_maxp(data@, p as int) matches Decoded::Value(v, _) && v == m,
            Err(e) => decode_maxp(data@, p as int) matches Decoded::Truncated(f) && e
                == ReadFailure::Truncated(f),
        },
{
    if !has_bytes(data, p, 6) {
        let layout = vec![(FontField::MaxpVersion, 4usize), (FontField::NumberOfGlyphs, 2usize)];
        assert(layout@ =~= seq![(FontField::MaxpVersion, 4usize), (FontField::NumberOfGlyphs, 2usize)]);
        return Err(ReadFailure::Truncated(short_field(data, p, &layout)));
    }
    Ok(Maxp { version: read_u32(data, p).unwrap(), number_of_glyphs: read_u16(data, p + 4).unwrap() })
}

/// The `count` offsets of the `loca` table at `p`: 32-bit values when
/// `long`, else 16-bit values that count 2-byte words.
pub open spec fn decode_loca(s: Seq<u8>, p: int, count: nat, long: bool) -> Decoded<Seq<u32>> {
    let size: int = if long { 4 } else { 2 };
    if !fits(s, p, size * count) {
        Decoded::Truncated(FontField::LocaOffset)
    } else {
        Decoded::Value(
            Seq::new(
                count,
                |i: int|
                    if long {
                        be_u32(s, p + 4 * i)
                    } else {
                        (be_u16(s, p + 2 * i) * 2) as u32
                    },
            ),
            p + size * count,
        )
    }
}

/// Decodes the `loca` table at `p`, with as many offsets as `maxp` counts
/// glyphs, in the format that `head` gives.
pub fn read_loca(data: &[u8], p: usize, head: &Head, maxp: &Maxp) -> (res: Result<Loca, ReadFailure>)
    ensures
        match res {
            Ok(l) => decode_loca(
                data@,
                p as int,
                maxp.number_of_glyphs as nat,
                head.index_to_loc_format != 0,
            ) matches Decoded::Value(v, _) && v == l@,
            Err(e) => decode_loca(
                data@,
                p as int,
                maxp.number_of_glyphs as nat,
                head.index_to_loc_format != 0,
            ) == Decoded::<Seq<u32>>::Truncated(FontField::LocaOffset) && e == ReadFailure::Truncated(
                FontField::LocaOffset,
            ),
        },
{
    let ghost s = data@;
    let len = data.len();
    let count = maxp.number_of_glyphs as usize;
    let long = head.index_to_loc_format != 0;
    let size: usize = if long { 4 } else { 2 };
    if !has_bytes(data, p, size * count) {
        return Err(ReadFailure::Truncated(FontField::LocaOffset));
    }
    let mut offsets: Vec<u32> = Vec::with_capacity(count);
    let mut i: usize = 0;
    while i < count
        invariant
            s == data@,
            len == s.len(),
            i <= count,
            count == maxp.number_of_glyphs,
            long == (head.index_to_loc_format != 0),
            size == (if long { 4int } else { 2int }),
            fits(s, p as int, size * count),
            offsets@ =~= Seq::new(
                i as nat,
                |k: int|
                    if long {
                        be_u32(s, p + 4 * k)
                    } else {
                        (be_u16(s, p + 2 * k) * 2) as u32
                    },
            ),
        decreases count - i,
    {
        if long {
            offsets.push(read_u32(data, p + 4 * i).unwrap());
        } else {
            let half = read_u16(data, p + 2 * i).unwrap();
            offsets.push(half as u32 * 2);
        }
        i = i + 1;
    }
    Ok(Loca { offsets })
}

/// The value of a glyph without outline.
pub open spec fn empty_glyph_view() -> GlyfDataView {
    GlyfDataView {
        number_of_contours: 0,
        x_min: 0,
        y_min: 0,
        x_max: 0,
        y_max: 0,
        definition: GlyfDefinitionView::Simple(empty_simple_view()),
    }
}

/// The glyphs `i..` of the `glyf` table at `base`, one for each pair of
/// consecutive `loca` offsets.
pub open spec fn decode_glyphs(s: Seq<u8>, base: int, offsets: Seq<u32>, i: nat) -> Decoded<
    Seq<GlyfDataView>,
>
    decreases offsets.len() - i,
{
    if i + 1 >= offsets.len() {
        Decoded::Value(Seq::empty(), 0)
    } else {
        let start = offsets[i as int];
        let end = offsets[i + 1 as int];
        if start == end {
            prepend(seq![empty_glyph_view()], decode_glyphs(s, base, offsets, i + 1))
        } else if base + start > u32::MAX {
            Decoded::Malformed(FontFault::OffsetOverflow)
        } else {
            match decode_glyph(s, base + start) {
                Decoded::Value(g, _) => prepend(seq![g], decode_glyphs(s, base, offsets, i + 1)),
                other => pass_failure(other),
            }
        }
    }
}

/// Decodes the glyphs of the `glyf` table at `base` that `loca` locates.
pub(crate) fn decode_glyf_table(data: &[u8], base: u32, loca: &Loca) -> (res: Result<Glyf, ReadFailure>)
    ensures
        match res {
            Ok(g) => decode_glyphs(data@, base as int, loca@, 0) matches Decoded::Value(v, _) && v
                == g@,
            Err(e) => !(decode_glyphs(data@, base as int, loca@, 0) is Value) && e == failure_of(
                decode_glyphs(data@, base as int, loca@, 0),
            ),
        },
{
    let ghost s = data@;
    let offsets = &loca.offsets;
    let mut glyphs: Vec<GlyfData> = Vec::new();
    let mut i: usize = 0;
    proof {
        assert(glyphs@.map_values(|g: GlyfData| g@) =~= Seq::<GlyfDataView>::empty());
        lemma_prepend_empty(decode_glyphs(s, base as int, offsets@, 0));
    }
    let n = offsets.len();
    while n > 0 && i < n - 1
        invariant
            s == data@,
            offsets@ == loca@,
            n == offsets@.len(),
            i < n || n == 0,
            decode_glyphs(s, base as int, offsets@, 0) == prepend(
                glyphs@.map_values(|g: GlyfData| g@),
                decode_glyphs(s, base as int, offsets@, i as nat),
            ),
        decreases offsets@.len() - i,
    {
        let start = offsets[i];
        let end = offsets[i + 1];
        let ghost before = glyphs@.map_values(|g: GlyfData| g@);
        let g = if start == end {
            GlyfData {
                number_of_contours: 0,
                x_min: 0,
                y_min: 0,
                x_max: 0,
                y_max: 0,
                definition: GlyfDefinition::Simple(empty_simple_definition()),
            }
        } else {
            let pos = match base.checked_add(start) {
                Some(p) => p,
                None => {
                    return Err(ReadFailure::Fault(FontFault::OffsetOverflow));
                },
            };
            match decode_glyph_at(data, pos as usize) {
                Ok((g, _)) => g,
                Err(e) => {
                    return Err(e);
                },
            }
        };
        proof {
            lemma_prepend_prepend(
                before,
                seq![g@],
                decode_glyphs(s, base as int, offsets@, (i + 1) as nat),
            );
        }
        glyphs.push(g);
        assert(glyphs@.map_values(|g: GlyfData| g@) =~= before + seq![g@]);
        i = i + 1;
    }
    proof {
        assert(glyphs@.map_values(|g: GlyfData| g@) + Seq::<GlyfDataView>::empty()
            =~= glyphs@.map_values(|g: GlyfData| g@));
    }
    Ok(Glyf { glyphs })
}

} // verus!

verus! {

/// The character map subtable at `q`.
///
/// A format 0 subtable holds its length (always 262), its language and 256
/// glyph indices. A format 4 subtable is read up to the end of its
/// id-range-offset array and then refused. Other formats are kept by number.
pub open spec fn decode_cmap_subtable(s: Seq<u8>, q: int) -> Decoded<CmapSubtableView> {
    if !fits(s, q, 2) {
        Decoded::Truncated(FontField::Format)
    } else {
        let format = be_u16(s, q);
        if format == 0 {
            if !fits(s, q + 2, 260) {
                Decoded::Truncated(first_short(s, q + 2, format0_layout()))
            } else if be_u16(s, q + 2) != 262 {
                Decoded::Malformed(FontFault::Format0Length)
            } else {
                Decoded::Value(
                    CmapSubtableView::Format0(
                        Format0View {
                            format: 0,
                            length_in_bytes: 262,
                            language: be_u16(s, q + 4),
                            glyph_index_array: s.subrange(q + 6, q + 262),
                        },
                    ),
                    q + 262,
                )
            }
        } else if format == 4 {
            if !fits(s, q + 2, 6) {
                Decoded::Truncated(first_short(s, q + 2, format4_head_layout()))
            } else if fits(s, q + 2, 14 + 8 * (be_u16(s, q + 6) / 2)) {
                Decoded::Malformed(FontFault::Format4Unsupported)
            } else {
                Decoded::Truncated(
                    first_short(s, q + 8, format4_rest_layout((be_u16(s, q + 6) / 2) as usize)),
                )
            }
        } else {
            Decoded::Value(CmapSubtableView::Unhandled { format }, q + 2)
        }
    }
}

/// The fields of a byte encoding subtable after its format.
pub open spec fn format0_layout() -> Seq<(FontField, usize)> {
    seq![
        (FontField::LengthInBytes, 2usize),
        (FontField::Language, 2usize),
        (FontField::GlyphIndexArray, 256usize),
    ]
}

/// The first fields of a segment mapping subtable after its format.
pub open spec fn format4_head_layout() -> Seq<(FontField, usize)> {
    seq![
        (FontField::LengthInBytes, 2usize),
        (FontField::Language, 2usize),
        (FontField::SegCountX2, 2usize),
    ]
}

/// The fields of a segment mapping subtable of `h` segments after its
/// segment count, up to its glyph index array.
pub open spec fn format4_rest_layout(h: usize) -> Seq<(FontField, usize)> {
    seq![
        (FontField::SegmentSearchRange, 2usize),
        (FontField::SegmentEntrySelector, 2usize),
        (FontField::SegmentRangeShift, 2usize),
        (FontField::EndCodes, (2 * h) as usize),
        (FontField::ReservedPad, 2usize),
        (FontField::StartCodes, (2 * h) as usize),
        (FontField::IdDeltas, (2 * h) as usize),
        (FontField::IdRangeOffset, (2 * h) as usize),
    ]
}

/// Decodes the character map subtable at `q`.
pub(crate) fn read_cmap_subtable(data: &[u8], q: usize) -> (res: Result<CmapSubtable, ReadFailure>)
    ensures
        match res {
            Ok(t) => decode_cmap_subtable(data@, q as int) matches Decoded::Value(v, _) && v
                == t@,
            Err(e) => !(decode_cmap_subtable(data@, q as int) is Value) && e == failure_of(
                decode_cmap_subtable(data@, q as int),
            ),
        },
{
    let ghost s = data@;
    let len = data.len();
    let format = match read_u16(data, q) {
        Some(f) => f,
        None => {
            return Err(ReadFailure::Truncated(FontField::Format));
        },
    };
    if format == 0 {
        if !has_bytes(data, q + 2, 260) {
            let layout = vec![
                (FontField::LengthInBytes, 2usize),
                (FontField::Language, 2usize),
                (FontField::GlyphIndexArray, 256usize),
            ];
            assert(layout@ =~= format0_layout());
            return Err(ReadFailure::Truncated(short_field(data, q + 2, &layout)));
        }
        let length_in_bytes = read_u16(data, q + 2).unwrap();
        let language = read_u16(data, q + 4).unwrap();
        let mut glyph_index_array = [0u8; 256];
        let mut k: usize = 0;
        while k < 256
            invariant
                s == data@,
                len == s.len(),
                k <= 256,
                fits(s, q + 2, 260),
                forall|j: int| 0 <= j < k ==> glyph_index_array@[j] == s[q + 6 + j],
            decreases 256 - k,
        {
            glyph_index_array[k] = data[q + 6 + k];
            k = k + 1;
        }
        if length_in_bytes != 262 {
            return Err(ReadFailure::Fault(FontFault::Format0Length));
        }
        let t = Format0 { format: 0, length_in_bytes, language, glyph_index_array };
        assert(t@.glyph_index_array =~= s.subrange(q + 6, q + 262));
        Ok(CmapSubtable::Format0(t))
    } else if format == 4 {
        if !has_bytes(data, q + 2, 6) {
            let layout = vec![
                (FontField::LengthInBytes, 2usize),
                (FontField::Language, 2usize),
                (FontField::SegCountX2, 2usize),
            ];
            assert(layout@ =~= format4_head_layout());
            return Err(ReadFailure::Truncated(short_field(data, q + 2, &layout)));
        }
        let seg_count_x2 = read_u16(data, q + 6).unwrap();
        let n = (seg_count_x2 / 2) as usize;
        if has_bytes(data, q + 2, 14 + 8 * n) {
            Err(ReadFailure::Fault(FontFault::Format4Unsupported))
        } else {
            let layout = vec![
                (FontField::SegmentSearchRange, 2usize),
                (FontField::SegmentEntrySelector, 2usize),
                (FontField::SegmentRangeShift, 2usize),
                (FontField::EndCodes, 2 * n),
                (FontField::ReservedPad, 2usize),
                (FontField::StartCodes, 2 * n),
                (FontField::IdDeltas, 2 * n),
                (FontField::IdRangeOffset, 2 * n),
            ];
            assert(layout@ =~= format4_rest_layout(n));
            Err(ReadFailure::Truncated(short_field(data, q + 8, &layout)))
        }
    } else {
        Ok(CmapSubtable::Unhandled { format })
    }
}

/// The encoding records of a `cmap` table at `p` that has `n` of them.
pub open spec fn encoding_records(s: Seq<u8>, p: int, n: nat) -> Seq<CmapEncodingSubtable> {
    Seq::new(
        n,
        |i: int|
            CmapEncodingSubtable {
                platform_id: be_u16(s, p + 4 + 8 * i),
                platform_specific_id: be_u16(s, p + 6 + 8 * i),
                offset: be_u32(s, p + 8 + 8 * i),
            },
    )
}

/// The fields of the header of a `cmap` table.
pub open spec fn cmap_header_layout() -> Seq<(FontField, usize)> {
    seq![(FontField::Version, 2usize), (FontField::NumberOfSubtables, 2usize)]
}

/// The fields of an encoding record.
pub open spec fn encoding_record_layout() -> Seq<(FontField, usize)> {
    seq![
        (FontField::PlatformId, 2usize),
        (FontField::PlatformSpecificId, 2usize),
        (FontField::Offset, 4usize),
    ]
}

/// The subtables `i..` that the encoding records locate, from the start `p`
/// of the `cmap` table.
pub open spec fn decode_cmap_subtables(
    s: Seq<u8>,
    p: int,
    records: Seq<CmapEncodingSubtable>,
    i: nat,
) -> Decoded<Seq<CmapSubtableView>>
    decreases records.len() - i,
{
    if i >= records.len() {
        Decoded::Value(Seq::empty(), 0)
    } else if p + records[i as int].offset > u32::MAX {
        Decoded::Malformed(FontFault::OffsetOverflow)
    } else {
        match decode_cmap_subtable(s, p + records[i as int].offset) {
            Decoded::Value(t, _) => prepend(seq![t], decode_cmap_subtables(s, p, records, i + 1)),
            other => pass_failure(other),
        }
    }
}

/// The `cmap` table at `p`: version, number of subtables, the encoding
/// records, then the subtables that they locate.
pub open spec fn decode_cmap(s: Seq<u8>, p: int) -> Decoded<CmapView> {
    if !fits(s, p, 4) {
        Decoded::Truncated(first_short(s, p, cmap_header_layout()))
    } else {
        let n = be_u16(s, p);
        let count = be_u16(s, p + 2);
        if !fits(s, p + 4, 8 * count) {
            Decoded::Truncated(first_short_record(s, p + 4, 8, encoding_record_layout()))
        } else {
            let records = encoding_records(s, p, count as nat);
            match decode_cmap_subtables(s, p, records, 0) {
                Decoded::Value(subtables, _) => Decoded::Value(
                    CmapView {
                        version: n,
                        number_of_subtables: count,
                        encoding_subtables: records,
                        subtables,
                    },
                    0,
                ),
                other => pass_failure(other),
            }
        }
    }
}

/// Decodes the `cmap` table at `p`.
pub(crate) fn decode_cmap_table(data: &[u8], p: u32) -> (res: Result<Cmap, ReadFailure>)
    ensures
        match res {
            Ok(c) => decode_cmap(data@, p as int) matches Decoded::Value(v, _) && v == c@,
            Err(e) => !(decode_cmap(data@, p as int) is Value) && e == failure_of(
                decode_cmap(data@, p as int),
            ),
        },
{
    let ghost s = data@;
    let len = data.len();
    let pos = p as usize;
    if !has_bytes(data, pos, 4) {
        let layout = vec![(FontField::Version, 2usize), (FontField::NumberOfSubtables, 2usize)];
        assert(layout@ =~= cmap_header_layout());
        return Err(ReadFailure::Truncated(short_field(data, pos, &layout)));
    }
    let version = read_u16(data, pos).unwrap();
    let number_of_subtables = read_u16(data, pos + 2).unwrap();
    let count = number_of_subtables as usize;
    if !has_bytes(data, pos + 4, 8 * count) {
        let layout = vec![
            (FontField::PlatformId, 2usize),
            (FontField::PlatformSpecificId, 2usize),
            (FontField::Offset, 4usize),
        ];
        assert(layout@ =~= encoding_record_layout());
        return Err(ReadFailure::Truncated(short_record_field(data, pos + 4, 8, &layout)));
    }
    let mut encoding_subtables: Vec<CmapEncodingSubtable> = Vec::with_capacity(count);
    let mut i: usize = 0;
    while i < count
        invariant
            s == data@,
            len == s.len(),
            i <= count,
            pos == p,
            fits(s, pos + 4, 8 * count),
            encoding_subtables@ =~= encoding_records(s, p as int, count as nat).take(i as int),
        decreases count - i,
    {
        let base = pos + 4 + 8 * i;
        let rec = CmapEncodingSubtable {
            platform_id: read_u16(data, base).unwrap(),
            platform_specific_id: read_u16(data, base + 2).unwrap(),
            offset: read_u32(data, base + 4).unwrap(),
        };
        encoding_subtables.push(rec);
        i = i + 1;
    }
    let ghost records = encoding_records(s, p as int, count as nat);
    assert(encoding_subtables@ =~= records);
    let ghost whole = match decode_cmap_subtables(s, p as int, records, 0) {
        Decoded::Value(st, _) => Decoded::Value(
            CmapView {
                version,
                number_of_subtables,
                encoding_subtables: records,
                subtables: st,
            },
            0,
        ),
        other => pass_failure(other),
    };
    assert(decode_cmap(s, p as int) == whole);
    let mut subtables: Vec<CmapSubtable> = Vec::with_capacity(count);
    let mut j: usize = 0;
    proof {
        assert(subtables@.map_values(|t: CmapSubtable| t@) =~= Seq::<CmapSubtableView>::empty());
        lemma_prepend_empty(decode_cmap_subtables(s, p as int, records, 0));
    }
    while j < count
        invariant
            s == data@,
            j <= count,
            encoding_subtables@ == records,
            records.len() == count,
            decode_cmap(s, p as int) == whole,
            whole == match decode_cmap_subtables(s, p as int, records, 0) {
                Decoded::Value(st, _) => Decoded::Value(
                    CmapView {
                        version,
                        number_of_subtables,
                        encoding_subtables: records,
                        subtables: st,
                    },
                    0,
                ),
                other => pass_failure(other),
            },
            decode_cmap_subtables(s, p as int, records, 0) == prepend(
                subtables@.map_values(|t: CmapSubtable| t@),
                decode_cmap_subtables(s, p as int, records, j as nat),
            ),
        decreases count - j,
    {
        let rec = encoding_subtables[j];
        let q = match p.checked_add(rec.offset) {
            Some(q) => q,
            None => {
                return Err(ReadFailure::Fault(FontFault::OffsetOverflow));
            },
        };
        let t = match read_cmap_subtable(data, q as usize) {
            Ok(t) => t,
            Err(e) => {
                return Err(e);
            },
        };
        let ghost before = subtables@.map_values(|t: CmapSubtable| t@);
        proof {
            lemma_prepend_prepend(
                before,
                seq![t@],
                decode_cmap_subtables(s, p as int, records, (j + 1) as nat),
            );
        }
        subtables.push(t);
        assert(subtables@.map_values(|t: CmapSubtable| t@) =~= before + seq![t@]);
        j = j + 1;
    }
    proof {
        assert(subtables@.map_values(|t: CmapSubtable| t@) + Seq::<CmapSubtableView>::empty()
            =~= subtables@.map_values(|t: CmapSubtable| t@));
    }
    Ok(Cmap { version, number_of_subtables, encoding_subtables, subtables })
}

/// The `glyf` table gives one glyph for each pair of consecutive `loca`
/// offsets, in order.
pub proof fn law_one_glyph_per_offset_pair(s: Seq<u8>, base: int, offsets: Seq<u32>, i: nat)
    requires
        i < offsets.len(),
    ensures
        decode_glyphs(s, base, offsets, i) matches Decoded::Value(gs, _) ==> gs.len() == offsets.len()
            - 1 - i,
    decreases offsets.len() - i,
{
    if i + 1 < offsets.len() {
        law_one_glyph_per_offset_pair(s, base, offsets, i + 1);
    }
}

/// A format 0 subtable is kept only when its length field is 262, and then
/// with its 256 glyph indices.
pub proof fn law_format0_shape(s: Seq<u8>, q: int)
    ensures
        decode_cmap_subtable(s, q) matches Decoded::Value(CmapSubtableView::Format0(f), _) ==> f.length_in_bytes == 262
            && f.glyph_index_array.len() == 256,
{
}


/// Whether the subtable at `q` decodes to `t`.
pub open spec fn subtable_at(s: Seq<u8>, q: int, t: CmapSubtableView) -> bool {
    decode_cmap_subtable(s, q) matches Decoded::Value(u, _) && u == t
}

/// The subtables decoded from `records[i..]` are one per record, each the
/// subtable at the table's position plus the record's offset.
proof fn lemma_subtables_follow_records(
    s: Seq<u8>,
    p: int,
    records: Seq<CmapEncodingSubtable>,
    i: nat,
)
    requires
        i <= records.len(),
    ensures
        decode_cmap_subtables(s, p, records, i) matches Decoded::Value(ts, _) ==> {
            &&& ts.len() == records.len() - i
            &&& forall|k: int|
                #![trigger ts[k]]
                0 <= k < ts.len() ==> subtable_at(s, p + records[i + k].offset, ts[k])
        },
    decreases records.len() - i,
{
    if i < records.len() && p + records[i as int].offset <= u32::MAX {
        lemma_subtables_follow_records(s, p, records, i + 1);
        match decode_cmap_subtable(s, p + records[i as int].offset) {
            Decoded::Value(t, _) => match decode_cmap_subtables(s, p, records, i + 1) {
                Decoded::Value(rest, _) => {
                    let ts = seq![t] + rest;
                    assert(decode_cmap_subtables(s, p, records, i) == prepend(
                        seq![t],
                        decode_cmap_subtables(s, p, records, i + 1),
                    ));
                    assert(ts.len() == records.len() - i);
                    assert forall|k: int| #![trigger ts[k]] 0 <= k < ts.len() implies subtable_at(s, p + records[i + k].offset, ts[k]) by {
                        if k > 0 {
                            assert(ts[k] == rest[k - 1]);
                            assert(i + 1 + (k - 1) == i + k);
                        } else {
                            assert(ts[0] == t);
                            assert(i + k == i as int);
                        }
                    }
                },
                _ => {},
            },
            _ => {},
        }
    }
}

/// A decoded character map has one encoding record and one subtable per
/// subtable that its header counts, in file order: record `k` is read from
/// the bytes `4 + 8k` on of the table, and subtable `k` is the subtable at
/// the table's position plus the offset of record `k`.
pub proof fn law_cmap_shape(s: Seq<u8>, p: int)
    ensures
        decode_cmap(s, p) matches Decoded::Value(c, _) ==> {
            &&& c.encoding_subtables.len() == c.number_of_subtables
            &&& c.subtables.len() == c.number_of_subtables
            &&& c.number_of_subtables == be_u16(s, p + 2)
            &&& c.encoding_subtables == encoding_records(s, p, c.number_of_subtables as nat)
            &&& forall|k: int|
                #![trigger c.subtables[k]]
                0 <= k < c.subtables.len() ==> subtable_at(s, p + c.encoding_subtables[k].offset, c.subtables[k])
        },
{
    if fits(s, p, 4) {
        let count = be_u16(s, p + 2);
        if fits(s, p + 4, 8 * count) {
            let records = encoding_records(s, p, count as nat);
            lemma_subtables_follow_records(s, p, records, 0);
            match decode_cmap_subtables(s, p, records, 0) {
                Decoded::Value(ts, _) => {
                    assert forall|k: int| #![trigger ts[k]] 0 <= k < ts.len() implies subtable_at(s, p + records[k].offset, ts[k]) by {
                        assert(0 + k == k);
                    }
                },
                _ => {},
            }
        }
    }
}

/// Decodes the glyphs of the `glyf` table at `base` that `loca` locates, in
/// data that breaks none of the rules the decoder stops at; the only failure
/// left is the field that the data ends inside.
pub fn read_glyf(data: &[u8], base: u32, loca: &Loca) -> (res: Result<Glyf, ReadFailure>)
    requires
        fault_in(decode_glyphs(data@, base as int, loca@, 0)) is None,
    ensures
        match res {
            Ok(g) => decode_glyphs(data@, base as int, loca@, 0) matches Decoded::Value(v, _) && v
                == g@,
            Err(e) => decode_glyphs(data@, base as int, loca@, 0) matches Decoded::Truncated(f) && e
                == ReadFailure::Truncated(f),
        },
{
    decode_glyf_table(data, base, loca)
}

/// The rule of the format, if any, that decoding the `glyf` table at `base`
/// stops at.
pub fn glyf_fault(data: &[u8], base: u32, loca: &Loca) -> (res: Option<FontFault>)
    ensures
        res == fault_in(decode_glyphs(data@, base as int, loca@, 0)),
{
    match decode_glyf_table(data, base, loca) {
        Err(ReadFailure::Fault(f)) => Some(f),
        _ => None,
    }
}

/// Decodes the `cmap` table at `p`, in data that breaks none of the rules the
/// decoder stops at; the only failure left is the field that the data ends
/// inside.
pub fn read_cmap(data: &[u8], p: u32) -> (res: Result<Cmap, ReadFailure>)
    requires
        fault_in(decode_cmap(data@, p as int)) is None,
    ensures
        match res {
            Ok(c) => decode_cmap(data@, p as int) matches Decoded::Value(v, _) && v == c@,
            Err(e) => decode_cmap(data@, p as int) matches Decoded::Truncated(f) && e
                == ReadFailure::Truncated(f),
        },
{
    decode_cmap_table(data, p)
}

/// The rule of the format, if any, that decoding the `cmap` table at `p`
/// stops at.
pub fn cmap_fault(data: &[u8], p: u32) -> (res: Option<FontFault>)
    ensures
        res == fault_in(decode_cmap(data@, p as int)),
{
    match decode_cmap_table(data, p) {
        Err(ReadFailure::Fault(f)) => Some(f),
        _ => None,
    }
}

} // verus!
