//! Decoding the tables of a TrueType file held in memory.
//!
//! Each part of the file has a spec function that says what decoding it
//! gives: the value and the position after it, `Truncated` with the field
//! that the data ends inside, or `Malformed` with the rule of the format that
//! the data breaks.
//! The executable decoders are proved to give exactly that.
use vstd::prelude::*;
use crate::font::glyf::{
    empty_simple_definition, empty_simple_view, GlyfData, GlyfDataView, GlyfDefinition,
    GlyfDefinitionView, GlyfFlag, SimpleGlyfDefinition, SimpleGlyfView,
};
use crate::font::reader::{
    be_i16, be_u16, fits, has_bytes, lemma_be_i16_bytes, read_i16, read_u16, read_u8,
};

verus! {

/// A rule of the format that the decoder does not go past.
#[derive(Clone, Copy, Debug, PartialEq, Eq, Structural)]
pub enum FontFault {
    /// A table offset plus an offset inside it does not fit in 32 bits.
    OffsetOverflow,
    /// A format 0 character map whose length field is not 262.
    Format0Length,
    /// A format 4 character map, whose glyph index array is not decoded.
    Format4Unsupported,
    /// A glyph whose last contour ends at point 65535, so that its point count overflows.
    PointCountOverflow,
    /// A glyph flag byte with one of its two reserved high bits set.
    ReservedFlagBits,
    /// A flag repeat count of 255, whose count plus one overflows a byte.
    RepeatCountOverflow,
    /// Flag repetitions that go past the number of points of the glyph.
    TooManyFlags,
    /// A point coordinate that leaves the range of `i16`.
    CoordinateOverflow,
}

/// A field of the font file: the one whose read ran past the end of the data
/// when decoding stops there.
#[derive(Clone, Copy, Debug, PartialEq, Eq, Structural)]
pub enum FontField {
    ScalerType,
    NumberOfTables,
    SearchRange,
    EntrySelector,
    RangeShift,
    Tag,
    CheckSum,
    Offset,
    Length,
    /// The version of the `cmap` or of the `head` table.
    Version,
    NumberOfSubtables,
    PlatformId,
    PlatformSpecificId,
    Format,
    LengthInBytes,
    Language,
    GlyphIndexArray,
    SegCountX2,
    SegmentSearchRange,
    SegmentEntrySelector,
    SegmentRangeShift,
    EndCodes,
    ReservedPad,
    StartCodes,
    IdDeltas,
    IdRangeOffset,
    MaxpVersion,
    NumberOfGlyphs,
    FontRevision,
    ChecksumAdjustment,
    MagicNumber,
    Flags,
    UnitsPerEm,
    Created,
    Modified,
    HeadXMin,
    HeadYMin,
    HeadXMax,
    HeadYMax,
    MacStyle,
    LowestRecPpem,
    FontDirectionHint,
    IndexToLocFormat,
    GlyphDataFormat,
    /// An offset of the `loca` table.
    LocaOffset,
    NumberOfContours,
    XMin,
    YMin,
    XMax,
    YMax,
    EndPts,
    InstructionLength,
    Instructions,
    Flag,
    RepeatedFlag,
    XCoordinateU8,
    XCoordinateI16,
    YCoordinateU8,
    YCoordinateI16,
}

/// Why a decoder stopped.
#[derive(Clone, Copy, Debug, PartialEq, Eq, Structural)]
pub enum ReadFailure {
    /// The data ended inside this field.
    Truncated(FontField),
    /// The data breaks a rule of the format.
    Fault(FontFault),
}

/// How decoding a part of the file ends.
pub enum Decoded<T> {
    /// The value, and the position of the first byte after it (0 for a table
    /// whose parts are found by offsets rather than read in sequence).
    Value(T, int),
    /// The data ends inside this field.
    Truncated(FontField),
    Malformed(FontFault),
}

/// Among fields of the sizes in `layout`, laid out one after another from
/// `p` on, the first whose bytes run past the end of `s`; the last field when
/// none does.
#[verifier::opaque]
pub open spec fn first_short(s: Seq<u8>, p: int, layout: Seq<(FontField, usize)>) -> FontField
    decreases layout.len(),
{
    if layout.len() <= 1 || !fits(s, p, layout[0].1 as int) {
        layout[0].0
    } else {
        first_short(s, p + layout[0].1, layout.drop_first())
    }
}

/// Among records of `size` bytes laid out from `base` on, each made of the
/// fields in `layout`, the field of the first record that does not fit in
/// `s` where the bytes run out.
pub open spec fn first_short_record(
    s: Seq<u8>,
    base: int,
    size: int,
    layout: Seq<(FontField, usize)>,
) -> FontField {
    first_short(s, base + (s.len() - base) / size * size, layout)
}

/// The executable form of `first_short`.
pub(crate) fn short_field(data: &[u8], p: usize, layout: &Vec<(FontField, usize)>) -> (res: FontField)
    requires
        layout@.len() >= 1,
    ensures
        res == first_short(data@, p as int, layout@),
{
    let n = layout.len();
    let mut pos = p;
    let mut i: usize = 0;
    assert(layout@.skip(0) =~= layout@);
    while i + 1 < n
        invariant
            n == layout@.len(),
            i < n,
            first_short(data@, p as int, layout@) == first_short(
                data@,
                pos as int,
                layout@.skip(i as int),
            ),
        decreases n - i,
    {
        proof {
            reveal(first_short);
        }
        let (field, size) = layout[i];
        assert(layout@.skip(i as int)[0] == layout@[i as int]);
        if !has_bytes(data, pos, size) {
            return field;
        }
        assert(layout@.skip(i as int).drop_first() =~= layout@.skip(i + 1));
        pos = pos + size;
        i = i + 1;
    }
    proof {
        reveal(first_short);
    }
    assert(layout@.skip(i as int)[0] == layout@[i as int]);
    layout[i].0
}

/// The executable form of `first_short_record`.
pub(crate) fn short_record_field(
    data: &[u8],
    base: usize,
    size: usize,
    layout: &Vec<(FontField, usize)>,
) -> (res: FontField)
    requires
        base <= data@.len(),
        size > 0,
        layout@.len() >= 1,
    ensures
        res == first_short_record(data@, base as int, size as int, layout@),
{
    let rest = data.len() - base;
    let k = rest / size;
    assert(k * size <= rest) by (nonlinear_arith)
        requires
            k == rest / size,
            size > 0,
            rest >= 0,
    ;
    short_field(data, base + k * size, layout)
}

/// The fields of a glyph header.
pub open spec fn glyph_header_layout() -> Seq<(FontField, usize)> {
    seq![
        (FontField::NumberOfContours, 2usize),
        (FontField::XMin, 2usize),
        (FontField::YMin, 2usize),
        (FontField::XMax, 2usize),
        (FontField::YMax, 2usize),
    ]
}

/// `d` with `pre` put in front of the sequence it decodes.
pub open spec fn prepend<T>(pre: Seq<T>, d: Decoded<Seq<T>>) -> Decoded<Seq<T>> {
    match d {
        Decoded::Value(rest, e) => Decoded::Value(pre + rest, e),
        Decoded::Truncated(field) => Decoded::Truncated(field),
        Decoded::Malformed(f) => Decoded::Malformed(f),
    }
}

/// The failure that a decoding outcome other than a value reports.
pub open spec fn failure_of<T>(d: Decoded<T>) -> ReadFailure {
    match d {
        Decoded::Malformed(f) => ReadFailure::Fault(f),
        Decoded::Truncated(field) => ReadFailure::Truncated(field),
        Decoded::Value(..) => arbitrary(),
    }
}

/// The flags that one flag byte stands for.
pub open spec fn flag_from_byte(f: u8) -> GlyfFlag {
    GlyfFlag {
        on_curve: f & 0b0000_0001 == 0b0000_0001,
        x_short_vector: f & 0b0000_0010 == 0b0000_0010,
        y_short_vector: f & 0b0000_0100 == 0b0000_0100,
        this_x_is_same: f & 0b0001_0000 == 0b0001_0000,
        this_y_is_same: f & 0b0010_0000 == 0b0010_0000,
        original_flag: f,
    }
}

/// Whether a flag byte is followed by a repeat count.
pub open spec fn repeats(f: u8) -> bool {
    f & 0b0000_1000 == 0b0000_1000
}

/// The flags of the points `have..need` of a glyph, read from `pos`.
///
/// A flag byte stands for one point, or, with its repeat bit, for one point
/// more than the count in the byte after it.
pub open spec fn decode_flags(s: Seq<u8>, pos: int, have: nat, need: nat) -> Decoded<Seq<GlyfFlag>>
    decreases need - have,
{
    if have >= need {
        Decoded::Value(Seq::empty(), pos)
    } else if !fits(s, pos, 1) {
        Decoded::Truncated(FontField::Flag)
    } else {
        let f = s[pos];
        if f & 0b1100_0000 != 0 {
            Decoded::Malformed(FontFault::ReservedFlagBits)
        } else if repeats(f) && !fits(s, pos + 1, 1) {
            Decoded::Truncated(FontField::RepeatedFlag)
        } else if repeats(f) && s[pos + 1] == 255 {
            Decoded::Malformed(FontFault::RepeatCountOverflow)
        } else {
            let times: nat = if repeats(f) { (s[pos + 1] + 1) as nat } else { 1 };
            let next = if repeats(f) { pos + 2 } else { pos + 1 };
            if have + times > need {
                Decoded::Malformed(FontFault::TooManyFlags)
            } else {
                prepend(
                    Seq::new(times, |i: int| flag_from_byte(f)),
                    decode_flags(s, next, have + times, need),
                )
            }
        }
    }
}

/// One coordinate, given the previous one: the new value and the position
/// after it.
///
/// A short coordinate is one unsigned byte, subtracted from the previous
/// coordinate, or added to it when the "same" bit is set; a long one is an
/// `i16` added to the previous coordinate; a long one with the "same" bit
/// repeats the previous coordinate and takes no bytes.
pub open spec fn coordinate_step(
    s: Seq<u8>,
    pos: int,
    short: bool,
    same: bool,
    last: i16,
    x_axis: bool,
) -> Decoded<i16> {
    if short {
        if !fits(s, pos, 1) {
            Decoded::Truncated(
                if x_axis {
                    FontField::XCoordinateU8
                } else {
                    FontField::YCoordinateU8
                },
            )
        } else {
            let v = if same { s[pos] + last } else { last - s[pos] };
            if v < i16::MIN || v > i16::MAX {
                Decoded::Malformed(FontFault::CoordinateOverflow)
            } else {
                Decoded::Value(v as i16, pos + 1)
            }
        }
    } else if same {
        Decoded::Value(last, pos)
    } else if !fits(s, pos, 2) {
        Decoded::Truncated(
            if x_axis {
                FontField::XCoordinateI16
            } else {
                FontField::YCoordinateI16
            },
        )
    } else {
        let v = be_i16(s, pos) + last;
        if v < i16::MIN || v > i16::MAX {
            Decoded::Malformed(FontFault::CoordinateOverflow)
        } else {
            Decoded::Value(v as i16, pos + 2)
        }
    }
}

/// The x (or y) coordinates of the points `i..` of a glyph, read from `pos`,
/// given the coordinate of point `i - 1` (0 before the first point).
pub open spec fn decode_coordinates(
    s: Seq<u8>,
    pos: int,
    flags: Seq<GlyfFlag>,
    i: nat,
    last: i16,
    x_axis: bool,
) -> Decoded<Seq<i16>>
    decreases flags.len() - i,
{
    if i >= flags.len() {
        Decoded::Value(Seq::empty(), pos)
    } else {
        let f = flags[i as int];
        let short = if x_axis { f.x_short_vector } else { f.y_short_vector };
        let same = if x_axis { f.this_x_is_same } else { f.this_y_is_same };
        match coordinate_step(s, pos, short, same, last, x_axis) {
            Decoded::Value(v, next) => prepend(
                seq![v],
                decode_coordinates(s, next, flags, i + 1, v, x_axis),
            ),
            Decoded::Truncated(field) => Decoded::Truncated(field),
            Decoded::Malformed(f) => Decoded::Malformed(f),
        }
    }
}

/// Putting nothing in front of a decoding leaves it as it is.
pub proof fn lemma_prepend_empty<T>(d: Decoded<Seq<T>>)
    ensures
        prepend(Seq::empty(), d) == d,
{
    match d {
        Decoded::Value(rest, e) => {
            assert(Seq::<T>::empty() + rest =~= rest);
        },
        _ => {},
    }
}

/// Putting `a` and then `b` in front of a decoding is putting `a + b` in front.
pub proof fn lemma_prepend_prepend<T>(a: Seq<T>, b: Seq<T>, d: Decoded<Seq<T>>)
    ensures
        prepend(a, prepend(b, d)) == prepend(a + b, d),
{
    match d {
        Decoded::Value(rest, e) => {
            assert(a + (b + rest) =~= (a + b) + rest);
        },
        _ => {},
    }
}

/// The exec form of `flag_from_byte`.
fn flag_of_byte(f: u8) -> (res: GlyfFlag)
    ensures
        res == flag_from_byte(f),
{
    GlyfFlag {
        on_curve: f & 0b0000_0001 == 0b0000_0001,
        x_short_vector: f & 0b0000_0010 == 0b0000_0010,
        y_short_vector: f & 0b0000_0100 == 0b0000_0100,
        this_x_is_same: f & 0b0001_0000 == 0b0001_0000,
        this_y_is_same: f & 0b0010_0000 == 0b0010_0000,
        original_flag: f,
    }
}

/// Decodes the flags of the `need` points of a glyph, starting at `start`.
pub(crate) fn decode_flag_run(data: &[u8], start: usize, need: u16) -> (res: Result<
    (Vec<GlyfFlag>, usize),
    ReadFailure,
>)
    requires
        start <= data@.len(),
    ensures
        match res {
            Ok((flags, end)) => end <= data@.len() && decode_flags(data@, start as int, 0, need as nat)
                == Decoded::Value(flags@, end as int),
            Err(e) => !(decode_flags(data@, start as int, 0, need as nat) is Value) && e
                == failure_of(decode_flags(data@, start as int, 0, need as nat)),
        },
{
    let ghost s = data@;
    let mut flags: Vec<GlyfFlag> = Vec::new();
    let mut pos = start;
    let need_len = need as usize;
    let len = data.len();
    assert(flags@ + Seq::<GlyfFlag>::empty() =~= flags@);
    loop
        invariant
            s == data@,
            len == s.len(),
            pos <= s.len(),
            flags@.len() <= need_len,
            need_len == need,
            decode_flags(s, start as int, 0, need as nat) == prepend(
                flags@,
                decode_flags(s, pos as int, flags@.len(), need as nat),
            ),
        decreases need_len - flags@.len(),
    {
        if flags.len() == need_len {
            assert(flags@ + Seq::<GlyfFlag>::empty() =~= flags@);
            return Ok((flags, pos));
        }
        let f = match read_u8(data, pos) {
            Some(f) => f,
            None => {
                return Err(ReadFailure::Truncated(FontField::Flag));
            },
        };
        if f & 0b1100_0000 != 0 {
            return Err(ReadFailure::Fault(FontFault::ReservedFlagBits));
        }
        let repeat = f & 0b0000_1000 == 0b0000_1000;
        let mut times: usize = 1;
        let mut next = pos + 1;
        if repeat {
            match read_u8(data, pos + 1) {
                Some(k) => {
                    if k == 255 {
                        return Err(ReadFailure::Fault(FontFault::RepeatCountOverflow));
                    }
                    times = k as usize + 1;
                    next = pos + 2;
                },
                None => {
                    return Err(ReadFailure::Truncated(FontField::RepeatedFlag));
                },
            }
        }
        if times > need_len - flags.len() {
            return Err(ReadFailure::Fault(FontFault::TooManyFlags));
        }
        let flag = flag_of_byte(f);
        let ghost before = flags@;
        let mut k: usize = 0;
        while k < times
            invariant
                k <= times,
                flags@ == before + Seq::new(k as nat, |i: int| flag_from_byte(f)),
                before.len() + times <= need_len,
                flag == flag_from_byte(f),
            decreases times - k,
        {
            flags.push(flag);
            k = k + 1;
            assert(flags@ =~= before + Seq::new(k as nat, |i: int| flag_from_byte(f)));
        }
        proof {
            lemma_prepend_prepend(
                before,
                Seq::new(times as nat, |i: int| flag_from_byte(f)),
                decode_flags(s, next as int, (before.len() + times) as nat, need as nat),
            );
        }
        pos = next;
    }
}

/// Decodes one coordinate, given the previous one.
fn decode_coordinate_step(
    data: &[u8],
    pos: usize,
    short: bool,
    same: bool,
    last: i16,
    x_axis: bool,
) -> (res: Result<(i16, usize), ReadFailure>)
    requires
        pos <= data@.len(),
    ensures
        match res {
            Ok((v, next)) => coordinate_step(data@, pos as int, short, same, last, x_axis)
                == Decoded::Value(v, next as int),
            Err(e) => !(coordinate_step(data@, pos as int, short, same, last, x_axis) is Value) && e
                == failure_of(coordinate_step(data@, pos as int, short, same, last, x_axis)),
        },
{
    if short {
        match read_u8(data, pos) {
            Some(b) => {
                let v: i32 = if same {
                    b as i32 + last as i32
                } else {
                    last as i32 - b as i32
                };
                if v < i16::MIN as i32 || v > i16::MAX as i32 {
                    Err(ReadFailure::Fault(FontFault::CoordinateOverflow))
                } else {
                    Ok((v as i16, pos + 1))
                }
            },
            None => Err(
                ReadFailure::Truncated(
                    if x_axis {
                        FontField::XCoordinateU8
                    } else {
                        FontField::YCoordinateU8
                    },
                ),
            ),
        }
    } else if same {
        Ok((last, pos))
    } else {
        match read_i16(data, pos) {
            Some(d) => {
                let v: i32 = d as i32 + last as i32;
                if v < i16::MIN as i32 || v > i16::MAX as i32 {
                    Err(ReadFailure::Fault(FontFault::CoordinateOverflow))
                } else {
                    Ok((v as i16, pos + 2))
                }
            },
            None => Err(
                ReadFailure::Truncated(
                    if x_axis {
                        FontField::XCoordinateI16
                    } else {
                        FontField::YCoordinateI16
                    },
                ),
            ),
        }
    }
}

/// Decodes the x (or y) coordinates of the points whose flags are `flags`,
/// starting at `start`.
pub(crate) fn decode_coordinate_run(data: &[u8], start: usize, flags: &Vec<GlyfFlag>, x_axis: bool) -> (res:
    Result<(Vec<i16>, usize), ReadFailure>)
    requires
        start <= data@.len(),
    ensures
        match res {
            Ok((cs, end)) => end <= data@.len() && decode_coordinates(
                data@,
                start as int,
                flags@,
                0,
                0,
                x_axis,
            ) == Decoded::Value(cs@, end as int),
            Err(e) => !(decode_coordinates(data@, start as int, flags@, 0, 0, x_axis) is Value)
                && e == failure_of(decode_coordinates(data@, start as int, flags@, 0, 0, x_axis)),
        },
{
    let ghost s = data@;
    let mut coords: Vec<i16> = Vec::new();
    let mut pos = start;
    let mut last: i16 = 0;
    let mut i: usize = 0;
    assert(coords@ + Seq::<i16>::empty() =~= coords@);
    while i < flags.len()
        invariant
            s == data@,
            pos <= s.len(),
            i <= flags@.len(),
            coords@.len() == i,
            decode_coordinates(s, start as int, flags@, 0, 0, x_axis) == prepend(
                coords@,
                decode_coordinates(s, pos as int, flags@, i as nat, last, x_axis),
            ),
        decreases flags@.len() - i,
    {
        let f = flags[i];
        let short = if x_axis { f.x_short_vector } else { f.y_short_vector };
        let same = if x_axis { f.this_x_is_same } else { f.this_y_is_same };
        match decode_coordinate_step(data, pos, short, same, last, x_axis) {
            Ok((v, next)) => {
                let ghost before = coords@;
                proof {
                    lemma_prepend_prepend(
                        before,
                        seq![v],
                        decode_coordinates(s, next as int, flags@, (i + 1) as nat, v, x_axis),
                    );
                }
                coords.push(v);
                assert(coords@ =~= before + seq![v]);
                last = v;
                pos = next;
                i = i + 1;
            },
            Err(e) => {
                return Err(e);
            },
        }
    }
    assert(coords@ + Seq::<i16>::empty() =~= coords@);
    Ok((coords, pos))
}

/// The rule of the format that a decoding outcome reports, if any.
pub open spec fn fault_in<T>(d: Decoded<T>) -> Option<FontFault> {
    match d {
        Decoded::Malformed(f) => Some(f),
        _ => None,
    }
}

/// The same failure, for a part of another type.
pub open spec fn pass_failure<T, U>(d: Decoded<T>) -> Decoded<U> {
    match d {
        Decoded::Malformed(f) => Decoded::Malformed(f),
        Decoded::Truncated(field) => Decoded::Truncated(field),
        Decoded::Value(..) => arbitrary(),
    }
}

/// The glyph whose header starts at `p`.
///
/// The header holds the number of contours and the bounding box. A simple
/// glyph with contours goes on with the end point of each contour, the
/// instruction length and bytes, the flags of its points, then all x and all
/// y coordinates.
pub open spec fn decode_glyph(s: Seq<u8>, p: int) -> Decoded<GlyfDataView> {
    if !fits(s, p, 10) {
        Decoded::Truncated(first_short(s, p, glyph_header_layout()))
    } else {
        let noc = be_i16(s, p);
        let header = |definition: GlyfDefinitionView|
            GlyfDataView {
                number_of_contours: noc,
                x_min: be_i16(s, p + 2),
                y_min: be_i16(s, p + 4),
                x_max: be_i16(s, p + 6),
                y_max: be_i16(s, p + 8),
                definition,
            };
        if noc < 0 {
            Decoded::Value(header(GlyfDefinitionView::Compound), p + 10)
        } else if noc == 0 {
            Decoded::Value(header(GlyfDefinitionView::Simple(empty_simple_view())), p + 10)
        } else {
            let n = noc as nat;
            let ep = p + 10;
            let q = ep + 2 * n;
            if !fits(s, ep, 2 * n as int) {
                Decoded::Truncated(FontField::EndPts)
            } else if !fits(s, q, 2) {
                Decoded::Truncated(FontField::InstructionLength)
            } else {
                let end_pts = Seq::new(n, |k: int| be_u16(s, ep + 2 * k));
                let il = be_u16(s, q);
                let fp = q + 2 + il;
                if !fits(s, q + 2, il as int) {
                    Decoded::Truncated(FontField::Instructions)
                } else if end_pts[n - 1] == 65535 {
                    Decoded::Malformed(FontFault::PointCountOverflow)
                } else {
                    match decode_flags(s, fp, 0, (end_pts[n - 1] + 1) as nat) {
                        Decoded::Value(flags, xp) => match decode_coordinates(
                            s,
                            xp,
                            flags,
                            0,
                            0,
                            true,
                        ) {
                            Decoded::Value(xs, yp) => match decode_coordinates(
                                s,
                                yp,
                                flags,
                                0,
                                0,
                                false,
                            ) {
                                Decoded::Value(ys, e) => Decoded::Value(
                                    header(
                                        GlyfDefinitionView::Simple(
                                            SimpleGlyfView {
                                                end_pts_of_contours: end_pts,
                                                instruction_length: il,
                                                instructions: s.subrange(q + 2, fp),
                                                flags,
                                                x_coordinates: xs,
                                                y_coordinates: ys,
                                            },
                                        ),
                                    ),
                                    e,
                                ),
                                other => pass_failure(other),
                            },
                            other => pass_failure(other),
                        },
                        other => pass_failure(other),
                    }
                }
            }
        }
    }
}

/// Decodes the glyph whose header starts at `p`.
pub(crate) fn decode_glyph_at(data: &[u8], p: usize) -> (res: Result<(GlyfData, usize), ReadFailure>)
    ensures
        match res {
            Ok((g, end)) => decode_glyph(data@, p as int) == Decoded::Value(g@, end as int),
            Err(e) => !(decode_glyph(data@, p as int) is Value) && e == failure_of(
                decode_glyph(data@, p as int),
            ),
        },
{
    let ghost s = data@;
    let len = data.len();
    if !has_bytes(data, p, 10) {
        let layout = vec![
            (FontField::NumberOfContours, 2usize),
            (FontField::XMin, 2usize),
            (FontField::YMin, 2usize),
            (FontField::XMax, 2usize),
            (FontField::YMax, 2usize),
        ];
        assert(layout@ =~= glyph_header_layout());
        return Err(ReadFailure::Truncated(short_field(data, p, &layout)));
    }
    let number_of_contours = read_i16(data, p).unwrap();
    let x_min = read_i16(data, p + 2).unwrap();
    let y_min = read_i16(data, p + 4).unwrap();
    let x_max = read_i16(data, p + 6).unwrap();
    let y_max = read_i16(data, p + 8).unwrap();
    if number_of_contours < 0 {
        let g = GlyfData {
            number_of_contours,
            x_min,
            y_min,
            x_max,
            y_max,
            definition: GlyfDefinition::Compound,
        };
        return Ok((g, p + 10));
    }
    if number_of_contours == 0 {
        let g = GlyfData {
            number_of_contours,
            x_min,
            y_min,
            x_max,
            y_max,
            definition: GlyfDefinition::Simple(empty_simple_definition()),
        };
        return Ok((g, p + 10));
    }
    let n = number_of_contours as usize;
    let ep = p + 10;
    if !has_bytes(data, ep, 2 * n) {
        return Err(ReadFailure::Truncated(FontField::EndPts));
    }
    let q = ep + 2 * n;
    let mut end_pts_of_contours: Vec<u16> = Vec::with_capacity(n);
    let mut k: usize = 0;
    while k < n
        invariant
            s == data@,
            k <= n,
            fits(s, ep as int, 2 * n as int),
            q == ep + 2 * n,
            end_pts_of_contours@ =~= Seq::new(k as nat, |j: int| be_u16(s, ep + 2 * j)),
        decreases n - k,
    {
        let v = read_u16(data, ep + 2 * k).unwrap();
        end_pts_of_contours.push(v);
        k = k + 1;
    }
    let instruction_length = match read_u16(data, q) {
        Some(v) => v,
        None => {
            return Err(ReadFailure::Truncated(FontField::InstructionLength));
        },
    };
    let ip = q + 2;
    let il = instruction_length as usize;
    if !has_bytes(data, ip, il) {
        return Err(ReadFailure::Truncated(FontField::Instructions));
    }
    let mut instructions: Vec<u8> = Vec::with_capacity(il);
    let mut k: usize = 0;
    while k < il
        invariant
            s == data@,
            k <= il,
            len == s.len(),
            fits(s, ip as int, il as int),
            instructions@ =~= s.subrange(ip as int, ip + k),
        decreases il - k,
    {
        instructions.push(data[ip + k]);
        k = k + 1;
    }
    let last = end_pts_of_contours[n - 1];
    if last == 65535 {
        return Err(ReadFailure::Fault(FontFault::PointCountOverflow));
    }
    let number_of_points = last + 1;
    let fp = ip + il;
    let (flags, xp) = match decode_flag_run(data, fp, number_of_points) {
        Ok(r) => r,
        Err(e) => {
            return Err(e);
        },
    };
    let (x_coordinates, yp) = match decode_coordinate_run(data, xp, &flags, true) {
        Ok(r) => r,
        Err(e) => {
            return Err(e);
        },
    };
    let (y_coordinates, end) = match decode_coordinate_run(data, yp, &flags, false) {
        Ok(r) => r,
        Err(e) => {
            return Err(e);
        },
    };
    let simple = SimpleGlyfDefinition {
        end_pts_of_contours,
        instruction_length,
        instructions,
        flags,
        x_coordinates,
        y_coordinates,
    };
    let g = GlyfData {
        number_of_contours,
        x_min,
        y_min,
        x_max,
        y_max,
        definition: GlyfDefinition::Simple(simple),
    };
    Ok((g, end))
}

/// Decoded flags count the points `have..need`.
proof fn lemma_flags_length(s: Seq<u8>, pos: int, have: nat, need: nat)
    requires
        have <= need,
    ensures
        decode_flags(s, pos, have, need) matches Decoded::Value(f, _) ==> f.len() == need - have,
    decreases need - have,
{
    if have < need && fits(s, pos, 1) {
        let f = s[pos];
        if f & 0b1100_0000 == 0 && !(repeats(f) && !fits(s, pos + 1, 1)) && !(repeats(f) && s[pos
            + 1] == 255) {
            let times: nat = if repeats(f) { (s[pos + 1] + 1) as nat } else { 1 };
            let next = if repeats(f) { pos + 2 } else { pos + 1 };
            if have + times <= need {
                lemma_flags_length(s, next, have + times, need);
            }
        }
    }
}

/// Decoded coordinates count the points `i..`.
proof fn lemma_coordinates_length(
    s: Seq<u8>,
    pos: int,
    flags: Seq<GlyfFlag>,
    i: nat,
    last: i16,
    x_axis: bool,
)
    requires
        i <= flags.len(),
    ensures
        decode_coordinates(s, pos, flags, i, last, x_axis) matches Decoded::Value(c, _) ==> c.len()
            == flags.len() - i,
    decreases flags.len() - i,
{
    if i < flags.len() {
        let f = flags[i as int];
        let short = if x_axis { f.x_short_vector } else { f.y_short_vector };
        let same = if x_axis { f.this_x_is_same } else { f.this_y_is_same };
        match coordinate_step(s, pos, short, same, last, x_axis) {
            Decoded::Value(v, next) => {
                lemma_coordinates_length(s, next, flags, i + 1, v, x_axis);
            },
            _ => {},
        }
    }
}

/// A decoded glyph is compound exactly when its number of contours is
/// negative; a simple one has one end point per contour, as many instruction
/// bytes as its instruction length says, and one flag, one x and one y
/// coordinate per point, the number of points being one more than the last
/// end point.
pub proof fn law_glyph_shape(s: Seq<u8>, p: int)
    ensures
        decode_glyph(s, p) matches Decoded::Value(g, _) ==> {
            &&& (g.number_of_contours < 0 <==> g.definition is Compound)
            &&& (g.definition matches GlyfDefinitionView::Simple(d) ==> {
                &&& d.end_pts_of_contours.len() == g.number_of_contours
                &&& d.instructions.len() == d.instruction_length
                &&& d.x_coordinates.len() == d.flags.len()
                &&& d.y_coordinates.len() == d.flags.len()
                &&& (g.number_of_contours > 0 ==> d.flags.len()
                    == d.end_pts_of_contours.last() + 1)
                &&& (g.number_of_contours == 0 ==> d.flags.len() == 0)
            })
        },
{
    if fits(s, p, 10) && be_i16(s, p) > 0 {
        let n = be_i16(s, p) as nat;
        let ep = p + 10;
        let q = ep + 2 * n;
        if fits(s, ep, 2 * n as int) && fits(s, q, 2) {
            let end_pts = Seq::new(n, |k: int| be_u16(s, ep + 2 * k));
            let il = be_u16(s, q);
            let fp = q + 2 + il;
            if fits(s, q + 2, il as int) && end_pts[n - 1] != 65535 {
                lemma_flags_length(s, fp, 0, (end_pts[n - 1] + 1) as nat);
                match decode_flags(s, fp, 0, (end_pts[n - 1] + 1) as nat) {
                    Decoded::Value(flags, xp) => {
                        lemma_coordinates_length(s, xp, flags, 0, 0, true);
                        match decode_coordinates(s, xp, flags, 0, 0, true) {
                            Decoded::Value(xs, yp) => {
                                lemma_coordinates_length(s, yp, flags, 0, 0, false);
                            },
                            _ => {},
                        }
                    },
                    _ => {},
                }
            }
        }
    }
}


/// Whether `f` is the flag that its own byte stands for, with the reserved
/// bits of that byte clear.
pub open spec fn flag_of_its_byte(f: GlyfFlag) -> bool {
    f == flag_from_byte(f.original_flag) && f.original_flag & 0b1100_0000 == 0
}

/// Whether coordinate `v` follows `prev` as the flag `f` says on one axis: a
/// short coordinate differs by one byte, added with the "same" bit and taken
/// away without it; a long one with the "same" bit repeats `prev`.
pub open spec fn coordinate_follows(f: GlyfFlag, x_axis: bool, prev: i16, v: i16) -> bool {
    let short = if x_axis { f.x_short_vector } else { f.y_short_vector };
    let same = if x_axis { f.this_x_is_same } else { f.this_y_is_same };
    if short && same {
        0 <= v - prev <= 255
    } else if short {
        0 <= prev - v <= 255
    } else if same {
        v == prev
    } else {
        true
    }
}

/// The coordinate before point `k` of `c`: `first` before point 0.
pub open spec fn coordinate_before(c: Seq<i16>, k: int, first: i16) -> i16 {
    if k == 0 {
        first
    } else {
        c[k - 1]
    }
}

/// Every decoded flag is the flag of its byte.
proof fn lemma_flags_of_their_bytes(s: Seq<u8>, pos: int, have: nat, need: nat)
    ensures
        decode_flags(s, pos, have, need) matches Decoded::Value(fl, _) ==> forall|k: int|
            0 <= k < fl.len() ==> #[trigger] flag_of_its_byte(fl[k]),
    decreases need - have,
{
    if have < need && fits(s, pos, 1) {
        let f = s[pos];
        if f & 0b1100_0000 == 0 && !(repeats(f) && !fits(s, pos + 1, 1)) && !(repeats(f) && s[pos
            + 1] == 255) {
            let times: nat = if repeats(f) { (s[pos + 1] + 1) as nat } else { 1 };
            let next = if repeats(f) { pos + 2 } else { pos + 1 };
            if have + times <= need {
                lemma_flags_of_their_bytes(s, next, have + times, need);
                assert(flag_from_byte(f).original_flag == f);
            }
        }
    }
}

/// Every decoded coordinate follows the one before it as its flag says.
proof fn lemma_coordinates_follow(
    s: Seq<u8>,
    pos: int,
    flags: Seq<GlyfFlag>,
    i: nat,
    last: i16,
    x_axis: bool,
)
    ensures
        decode_coordinates(s, pos, flags, i, last, x_axis) matches Decoded::Value(c, _) ==> forall|
            k: int,
        |
            #![trigger c[k]]
            0 <= k < c.len() ==> coordinate_follows(
                flags[i + k],
                x_axis,
                coordinate_before(c, k, last),
                c[k],
            ),
    decreases flags.len() - i,
{
    if i < flags.len() {
        let f = flags[i as int];
        let short = if x_axis { f.x_short_vector } else { f.y_short_vector };
        let same = if x_axis { f.this_x_is_same } else { f.this_y_is_same };
        match coordinate_step(s, pos, short, same, last, x_axis) {
            Decoded::Value(v, next) => {
                lemma_coordinates_follow(s, next, flags, i + 1, v, x_axis);
                match decode_coordinates(s, next, flags, i + 1, v, x_axis) {
                    Decoded::Value(rest, _) => {
                        let c = seq![v] + rest;
                        assert forall|k: int| #![trigger c[k]] 0 <= k < c.len() implies coordinate_follows(
                            flags[i + k],
                            x_axis,
                            coordinate_before(c, k, last),
                            c[k],
                        ) by {
                            if k > 0 {
                                assert(c[k] == rest[k - 1]);
                                assert(coordinate_follows(
                                    flags[i + 1 + (k - 1)],
                                    x_axis,
                                    coordinate_before(rest, k - 1, v),
                                    rest[k - 1],
                                ));
                            }
                        }
                    },
                    _ => {},
                }
            },
            _ => {},
        }
    }
}

/// Every flag of a decoded simple glyph is the flag that its byte stands for
/// (on-curve, short x, short y, same x and same y from the bits 0, 1, 2, 4
/// and 5), and no flag byte has a reserved bit set.
pub proof fn law_flags_of_their_bytes(s: Seq<u8>, p: int)
    ensures
        decode_glyph(s, p) matches Decoded::Value(g, _) ==> (g.definition matches GlyfDefinitionView::Simple(
            d,
        ) ==> forall|k: int| 0 <= k < d.flags.len() ==> #[trigger] flag_of_its_byte(d.flags[k])),
{
    if fits(s, p, 10) && be_i16(s, p) > 0 {
        let n = be_i16(s, p) as nat;
        let ep = p + 10;
        let q = ep + 2 * n;
        if fits(s, ep, 2 * n as int) && fits(s, q, 2) {
            let end_pts = Seq::new(n, |k: int| be_u16(s, ep + 2 * k));
            let il = be_u16(s, q);
            let fp = q + 2 + il;
            if fits(s, q + 2, il as int) && end_pts[n - 1] != 65535 {
                lemma_flags_of_their_bytes(s, fp, 0, (end_pts[n - 1] + 1) as nat);
            }
        }
    }
}

/// In a decoded simple glyph each x coordinate follows the one before it
/// (0 before the first point) as the point's flag says, and so does each y
/// coordinate: a short one moves by at most 255, up with the "same" bit and
/// down without it; a long one with the "same" bit repeats the one before.
pub proof fn law_coordinates_follow_flags(s: Seq<u8>, p: int)
    ensures
        decode_glyph(s, p) matches Decoded::Value(g, _) ==> (g.definition matches GlyfDefinitionView::Simple(
            d,
        ) ==> {
            &&& forall|k: int|
                0 <= k < d.x_coordinates.len() ==> #[trigger] coordinate_follows(
                    d.flags[k],
                    true,
                    coordinate_before(d.x_coordinates, k, 0),
                    d.x_coordinates[k],
                )
            &&& forall|k: int|
                0 <= k < d.y_coordinates.len() ==> #[trigger] coordinate_follows(
                    d.flags[k],
                    false,
                    coordinate_before(d.y_coordinates, k, 0),
                    d.y_coordinates[k],
                )
        }),
{
    if fits(s, p, 10) && be_i16(s, p) > 0 {
        let n = be_i16(s, p) as nat;
        let ep = p + 10;
        let q = ep + 2 * n;
        if fits(s, ep, 2 * n as int) && fits(s, q, 2) {
            let end_pts = Seq::new(n, |k: int| be_u16(s, ep + 2 * k));
            let il = be_u16(s, q);
            let fp = q + 2 + il;
            if fits(s, q + 2, il as int) && end_pts[n - 1] != 65535 {
                match decode_flags(s, fp, 0, (end_pts[n - 1] + 1) as nat) {
                    Decoded::Value(flags, xp) => {
                        lemma_coordinates_follow(s, xp, flags, 0, 0, true);
                        match decode_coordinates(s, xp, flags, 0, 0, true) {
                            Decoded::Value(xs, yp) => {
                                lemma_coordinates_follow(s, yp, flags, 0, 0, false);
                            },
                            _ => {},
                        }
                    },
                    _ => {},
                }
            }
        }
    }
}


/// A flag byte starts a run of flags: with its repeat bit it is followed by
/// a count `r` and stands for `r + 1` equal flags, without it for one flag;
/// the flags after the run are decoded from the byte after it.
pub proof fn law_flag_runs(s: Seq<u8>, pos: int, have: nat, need: nat)
    requires
        have < need,
    ensures
        decode_flags(s, pos, have, need) matches Decoded::Value(fl, e) ==> {
            let f = s[pos];
            &&& fits(s, pos, 1)
            &&& f & 0b1100_0000 == 0
            &&& if repeats(f) {
                let r = s[pos + 1];
                &&& fits(s, pos + 1, 1)
                &&& r < 255
                &&& fl.len() >= r + 1
                &&& forall|k: int| 0 <= k <= r ==> #[trigger] fl[k] == flag_from_byte(f)
                &&& decode_flags(s, pos + 2, (have + r + 1) as nat, need) == Decoded::Value(
                    fl.skip(r + 1),
                    e,
                )
            } else {
                &&& fl.len() >= 1
                &&& fl[0] == flag_from_byte(f)
                &&& decode_flags(s, pos + 1, have + 1, need) == Decoded::Value(fl.skip(1), e)
            }
        },
{
    if fits(s, pos, 1) {
        let f = s[pos];
        if f & 0b1100_0000 == 0 && !(repeats(f) && !fits(s, pos + 1, 1)) && !(repeats(f) && s[pos
            + 1] == 255) {
            let times: nat = if repeats(f) { (s[pos + 1] + 1) as nat } else { 1 };
            let next = if repeats(f) { pos + 2 } else { pos + 1 };
            if have + times <= need {
                let run = Seq::new(times, |k: int| flag_from_byte(f));
                match decode_flags(s, next, have + times, need) {
                    Decoded::Value(rest, e) => {
                        assert((run + rest).skip(times as int) =~= rest);
                        assert forall|k: int| 0 <= k < times implies #[trigger] (run + rest)[k]
                            == flag_from_byte(f) by {}
                    },
                    _ => {},
                }
            }
        }
    }
}

/// Whether a point's coordinate on one axis is a short one.
pub open spec fn short_of(f: GlyfFlag, x_axis: bool) -> bool {
    if x_axis {
        f.x_short_vector
    } else {
        f.y_short_vector
    }
}

/// Whether a point's coordinate on one axis has the "same" bit.
pub open spec fn same_of(f: GlyfFlag, x_axis: bool) -> bool {
    if x_axis {
        f.this_x_is_same
    } else {
        f.this_y_is_same
    }
}

/// Whether the coordinates `c` of points with flags `flags` on one axis are
/// read at the positions `ps`, one after another: coordinate `k` is the step
/// from the one before it (0 before the first) read at `ps[k]`, and the next
/// one is read where that step ends.
#[verifier::opaque]
pub open spec fn coordinates_read_at(
    s: Seq<u8>,
    ps: Seq<int>,
    flags: Seq<GlyfFlag>,
    c: Seq<i16>,
    x_axis: bool,
) -> bool {
    &&& ps.len() == c.len() + 1
    &&& forall|k: int|
        #![trigger c[k]]
        0 <= k < c.len() ==> coordinate_step(
            s,
            ps[k],
            short_of(flags[k], x_axis),
            same_of(flags[k], x_axis),
            coordinate_before(c, k, 0),
            x_axis,
        ) == Decoded::Value(c[k], ps[k + 1])
}

/// The positions that decoded coordinates are read at.
proof fn lemma_coordinate_positions(
    s: Seq<u8>,
    pos: int,
    flags: Seq<GlyfFlag>,
    i: nat,
    last: i16,
    x_axis: bool,
) -> (ps: Seq<int>)
    ensures
        decode_coordinates(s, pos, flags, i, last, x_axis) matches Decoded::Value(c, e) ==> {
            &&& ps.len() == c.len() + 1
            &&& ps[0] == pos
            &&& ps[c.len() as int] == e
            &&& forall|k: int|
                #![trigger c[k]]
                0 <= k < c.len() ==> coordinate_step(
                    s,
                    ps[k],
                    short_of(flags[i + k], x_axis),
                    same_of(flags[i + k], x_axis),
                    coordinate_before(c, k, last),
                    x_axis,
                ) == Decoded::Value(c[k], ps[k + 1])
        },
    decreases flags.len() - i,
{
    if i >= flags.len() {
        seq![pos]
    } else {
        let f = flags[i as int];
        let short = if x_axis { f.x_short_vector } else { f.y_short_vector };
        let same = if x_axis { f.this_x_is_same } else { f.this_y_is_same };
        match coordinate_step(s, pos, short, same, last, x_axis) {
            Decoded::Value(v, next) => {
                let rest_ps = lemma_coordinate_positions(s, next, flags, i + 1, v, x_axis);
                let ps = seq![pos] + rest_ps;
                match decode_coordinates(s, next, flags, i + 1, v, x_axis) {
                    Decoded::Value(rest, e) => {
                        let c = seq![v] + rest;
                        assert forall|k: int| #![trigger c[k]] 0 <= k < c.len() implies coordinate_step(
                            s,
                            ps[k],
                            short_of(flags[i + k], x_axis),
                            same_of(flags[i + k], x_axis),
                            coordinate_before(c, k, last),
                            x_axis,
                        ) == Decoded::Value(c[k], ps[k + 1]) by {
                            if k > 0 {
                                assert(c[k] == rest[k - 1]);
                                assert(ps[k] == rest_ps[k - 1]);
                                assert(ps[k + 1] == rest_ps[k]);
                                assert(i + 1 + (k - 1) == i + k);
                                assert(coordinate_before(c, k, last) == coordinate_before(
                                    rest,
                                    k - 1,
                                    v,
                                ));
                            } else {
                                assert(ps[1] == rest_ps[0]);
                            }
                        }
                        assert(ps[c.len() as int] == rest_ps[rest.len() as int]);
                    },
                    _ => {},
                }
                ps
            },
            _ => seq![pos],
        }
    }
}

/// Decoded x and y coordinate runs are read at positions that follow one
/// another, from where the flags end to where the y coordinates end.
proof fn lemma_runs_read_at(
    s: Seq<u8>,
    fp: int,
    n: nat,
    flags: Seq<GlyfFlag>,
    xp: int,
    xs: Seq<i16>,
    yp: int,
    ys: Seq<i16>,
    e: int,
)
    requires
        decode_flags(s, fp, 0, n) == Decoded::Value(flags, xp),
        decode_coordinates(s, xp, flags, 0, 0, true) == Decoded::Value(xs, yp),
        decode_coordinates(s, yp, flags, 0, 0, false) == Decoded::Value(ys, e),
    ensures
        exists|xs_at: Seq<int>, ys_at: Seq<int>|
            {
                &&& decode_flags(s, fp, 0, n) == Decoded::Value(flags, xs_at[0])
                &&& #[trigger] coordinates_read_at(s, xs_at, flags, xs, true)
                &&& #[trigger] coordinates_read_at(s, ys_at, flags, ys, false)
                &&& ys_at[0] == xs_at[xs.len() as int]
                &&& ys_at[ys.len() as int] == e
            },
{
    let xs_at = lemma_coordinate_positions(s, xp, flags, 0, 0, true);
    let ys_at = lemma_coordinate_positions(s, yp, flags, 0, 0, false);
    assert forall|k: int| #![trigger xs[k]] 0 <= k < xs.len() implies coordinate_step(
        s,
        xs_at[k],
        short_of(flags[k], true),
        same_of(flags[k], true),
        coordinate_before(xs, k, 0),
        true,
    ) == Decoded::Value(xs[k], xs_at[k + 1]) by {
        assert(0 + k == k);
    }
    assert forall|k: int| #![trigger ys[k]] 0 <= k < ys.len() implies coordinate_step(
        s,
        ys_at[k],
        short_of(flags[k], false),
        same_of(flags[k], false),
        coordinate_before(ys, k, 0),
        false,
    ) == Decoded::Value(ys[k], ys_at[k + 1]) by {
        assert(0 + k == k);
    }
    reveal(coordinates_read_at);
    assert(coordinates_read_at(s, xs_at, flags, xs, true));
    assert(coordinates_read_at(s, ys_at, flags, ys, false));
}

/// In a decoded simple glyph with contours, the coordinates are read from
/// the bytes after the flags, all x coordinates first and then all y
/// coordinates, each read as its flag says (see `coordinate_step`): a short
/// one is the next byte added to the coordinate before it with the "same"
/// bit or taken from it without; a long one is the next big-endian `i16`
/// added to the coordinate before it, or, with the "same" bit, that
/// coordinate again with no byte read. The coordinate before the first
/// point is 0.
pub proof fn law_coordinates_from_bytes(s: Seq<u8>, p: int)
    ensures
        decode_glyph(s, p) matches Decoded::Value(g, e) ==> (g.number_of_contours > 0
            ==> (g.definition matches GlyfDefinitionView::Simple(d) ==> exists|
            xs_at: Seq<int>,
            ys_at: Seq<int>,
        |
            {
                &&& decode_flags(
                    s,
                    p + 10 + 2 * g.number_of_contours + 2 + d.instruction_length,
                    0,
                    d.flags.len(),
                ) == Decoded::Value(d.flags, xs_at[0])
                &&& #[trigger] coordinates_read_at(s, xs_at, d.flags, d.x_coordinates, true)
                &&& #[trigger] coordinates_read_at(s, ys_at, d.flags, d.y_coordinates, false)
                &&& ys_at[0] == xs_at[d.x_coordinates.len() as int]
                &&& ys_at[d.y_coordinates.len() as int] == e
            })),
{
    if fits(s, p, 10) && be_i16(s, p) > 0 {
        let n = be_i16(s, p) as nat;
        let ep = p + 10;
        let q = ep + 2 * n;
        if fits(s, ep, 2 * n as int) && fits(s, q, 2) {
            let end_pts = Seq::new(n, |k: int| be_u16(s, ep + 2 * k));
            let il = be_u16(s, q);
            let fp = q + 2 + il;
            if fits(s, q + 2, il as int) && end_pts[n - 1] != 65535 {
                let need = (end_pts[n - 1] + 1) as nat;
                lemma_flags_length(s, fp, 0, need);
                match decode_flags(s, fp, 0, need) {
                    Decoded::Value(flags, xp) => match decode_coordinates(s, xp, flags, 0, 0, true) {
                        Decoded::Value(xs, yp) => match decode_coordinates(
                            s,
                            yp,
                            flags,
                            0,
                            0,
                            false,
                        ) {
                            Decoded::Value(ys, e) => {
                                lemma_runs_read_at(s, fp, need, flags, xp, xs, yp, ys, e);
                                assert(flags.len() == need);
                                let g = decode_glyph(s, p)->Value_0;
                                let d = g.definition->Simple_0;
                                assert(decode_glyph(s, p)->Value_1 == e);
                                assert(g.number_of_contours == n);
                                assert(d.flags == flags);
                                assert(d.x_coordinates == xs);
                                assert(d.y_coordinates == ys);
                                assert(d.instruction_length == il);
                                assert(p + 10 + 2 * g.number_of_contours + 2 + d.instruction_length
                                    == fp);
                            },
                            _ => {},
                        },
                        _ => {},
                    },
                    _ => {},
                }
            }
        }
    }
}


/// The two's-complement value of the 16-bit word made of bytes `hi` and `lo`.
pub open spec fn signed_word(hi: u8, lo: u8) -> int {
    if hi * 256 + lo < 32768 {
        hi * 256 + lo
    } else {
        hi * 256 + lo - 65536
    }
}

/// Every decoded glyph, compound or simple, has the number of contours and
/// the bounding box of its header: the big-endian `i16` values at bytes
/// `p`, `p + 2`, `p + 4`, `p + 6` and `p + 8`; and it is compound exactly
/// when the number of contours is negative.
pub proof fn law_glyph_header_from_bytes(s: Seq<u8>, p: int)
    ensures
        decode_glyph(s, p) matches Decoded::Value(g, _) ==> {
            &&& g.number_of_contours == signed_word(s[p], s[p + 1])
            &&& g.x_min == signed_word(s[p + 2], s[p + 3])
            &&& g.y_min == signed_word(s[p + 4], s[p + 5])
            &&& g.x_max == signed_word(s[p + 6], s[p + 7])
            &&& g.y_max == signed_word(s[p + 8], s[p + 9])
            &&& (g.definition is Compound <==> signed_word(s[p], s[p + 1]) < 0)
        },
{
    lemma_be_i16_bytes(s, p);
    lemma_be_i16_bytes(s, p + 2);
    lemma_be_i16_bytes(s, p + 4);
    lemma_be_i16_bytes(s, p + 6);
    lemma_be_i16_bytes(s, p + 8);
}

} // verus!
