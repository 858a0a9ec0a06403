//! The tables of a TrueType font, and decoding a whole font file.
pub mod cmap;
pub mod decode;
pub mod glyf;
pub mod head;
pub mod loca;
pub mod mac_os_roman;
pub mod maxp;
pub mod reader;
pub mod tables;

use vstd::prelude::*;
use crate::font::cmap::{Cmap, CmapView};
use crate::font::decode::{
    first_short, first_short_record, short_field, short_record_field, Decoded, FontFault,
    FontField, ReadFailure,
};
use crate::font::glyf::{Glyf, GlyfDataView};
use crate::font::reader::{
    be_u16, be_u32, fits, has_bytes, lemma_be_u16_bytes, lemma_be_u32_bytes, read_tag, read_u16,
    read_u32,
};
use crate::font::tables::{
    decode_cmap, decode_cmap_table, decode_glyf_table, decode_glyphs, decode_head, decode_loca,
    decode_maxp, read_head, read_loca, read_maxp,
};

verus! {

/// A decoded font: its header, its table directory, its character map and
/// its glyphs.
#[derive(Debug)]
pub struct TrueTypeFont {
    pub offset_subtable: OffsetSubtable,
    pub table_directory: TableDirectory,
    pub cmap: Cmap,
    pub glyf: Glyf,
}

/// The header of the file.
///
/// `scaler_type` is 0x00010000 for TrueType fonts; `number_of_tables` counts
/// the entries of the table directory; the other three fields only serve a
/// binary search of the directory.
#[derive(Clone, Copy, Debug, PartialEq, Eq, Structural)]
pub struct OffsetSubtable {
    pub scaler_type: u32,
    pub number_of_tables: u16,
    pub search_range: u16,
    pub entry_selector: u16,
    pub range_shift: u16,
}

/// The table directory, in file order.
#[derive(Debug)]
pub struct TableDirectory {
    pub entries: Vec<TableDirectoryEntry>,
}

/// Where one table lies in the file: its four-byte tag, its checksum (not
/// checked), its offset from the start of the file and its length.
#[derive(Clone, Copy, Debug)]
pub struct TableDirectoryEntry {
    pub tag: [u8; 4],
    pub check_sum: u32,
    pub offset: u32,
    pub length: u32,
}

/// The value of a table directory entry.
pub struct TableRecord {
    pub tag: Seq<u8>,
    pub check_sum: u32,
    pub offset: u32,
    pub length: u32,
}

/// The value of a decoded font.
pub struct TrueTypeFontView {
    pub offset_subtable: OffsetSubtable,
    pub table_directory: Seq<TableRecord>,
    pub cmap: CmapView,
    pub glyf: Seq<GlyfDataView>,
}

impl View for TableDirectoryEntry {
    type V = TableRecord;

    open spec fn view(&self) -> TableRecord {
        TableRecord {
            tag: self.tag@,
            check_sum: self.check_sum,
            offset: self.offset,
            length: self.length,
        }
    }
}

impl View for TableDirectory {
    type V = Seq<TableRecord>;

    open spec fn view(&self) -> Seq<TableRecord> {
        self.entries@.map_values(|e: TableDirectoryEntry| e@)
    }
}

impl View for TrueTypeFont {
    type V = TrueTypeFontView;

    open spec fn view(&self) -> TrueTypeFontView {
        TrueTypeFontView {
            offset_subtable: self.offset_subtable,
            table_directory: self.table_directory@,
            cmap: self.cmap@,
            glyf: self.glyf@,
        }
    }
}

/// The index of the first record from `i` on whose tag is `tag`.
pub open spec fn find_table_from(records: Seq<TableRecord>, tag: Seq<u8>, i: nat) -> Option<int>
    decreases records.len() - i,
{
    if i >= records.len() {
        None
    } else if records[i as int].tag == tag {
        Some(i as int)
    } else {
        find_table_from(records, tag, i + 1)
    }
}

/// The index of the first record whose tag is `tag`.
pub open spec fn find_table(records: Seq<TableRecord>, tag: Seq<u8>) -> Option<int> {
    find_table_from(records, tag, 0)
}

/// What `String::from_utf8_lossy` makes of `bytes`.
pub uninterp spec fn utf8_lossy(bytes: Seq<u8>) -> Seq<char>;

/// Whether every byte is an ASCII code.
pub open spec fn all_ascii(bytes: Seq<u8>) -> bool {
    forall|i: int| 0 <= i < bytes.len() ==> bytes[i] < 128
}

/// The characters of ASCII bytes, one per byte.
pub open spec fn ascii_text(bytes: Seq<u8>) -> Seq<char> {
    bytes.map_values(|b: u8| b as char)
}

/// The text of the error that a missing table gives.
pub open spec fn missing_table_message(tag: Seq<u8>) -> Seq<char> {
    "Cannot find "@ + utf8_lossy(tag)
}

/// Calls `String::from_utf8_lossy`, which decodes UTF-8 and puts U+FFFD in
/// place of each invalid sequence. The contract names the result
/// `utf8_lossy` and states, as the documentation does, that valid UTF-8 (here
/// ASCII) comes back unchanged, one char per byte.
#[verifier::external_body]
fn lossy_string(bytes: &[u8]) -> (res: String)
    ensures
        res@ == utf8_lossy(bytes@),
        all_ascii(bytes@) ==> res@ == ascii_text(bytes@),
{
    String::from_utf8_lossy(bytes).into_owned()
}

impl TableDirectory {
    /// An empty directory with room for `capacity` entries.
    pub fn new(capacity: usize) -> (res: TableDirectory)
        ensures
            res@ == Seq::<TableRecord>::empty(),
    {
        let res = TableDirectory { entries: Vec::with_capacity(capacity) };
        assert(res@ =~= Seq::<TableRecord>::empty());
        res
    }

    /// Appends `entry` after the entries already there.
    pub fn add_entry(&mut self, entry: TableDirectoryEntry)
        ensures
            final(self)@ == old(self)@.push(entry@),
    {
        let ghost before = self@;
        self.entries.push(entry);
        assert(self@ =~= before.push(entry@));
    }

    /// The first entry whose tag is `tag`, or the message "Cannot find "
    /// followed by the tag.
    pub fn get(&self, tag: &[u8; 4]) -> (res: Result<&TableDirectoryEntry, String>)
        ensures
            match res {
                Ok(e) => find_table(self@, tag@) is Some && self@[find_table(
                    self@,
                    tag@,
                ).unwrap()] == e@,
                Err(m) => find_table(self@, tag@) is None && m@ == missing_table_message(tag@) && (
                all_ascii(tag@) ==> m@ == "Cannot find "@ + ascii_text(tag@)),
            },
    {
        let n = self.entries.len();
        let mut i: usize = 0;
        while i < n
            invariant
                n == self@.len(),
                i <= n,
                find_table(self@, tag@) == find_table_from(self@, tag@, i as nat),
            decreases n - i,
        {
            let e = &self.entries[i];
            if e.tag[0] == tag[0] && e.tag[1] == tag[1] && e.tag[2] == tag[2] && e.tag[3] == tag[3] {
                assert(self@[i as int].tag =~= tag@);
                return Ok(e);
            }
            assert(self@[i as int].tag != tag@) by {
                if self@[i as int].tag == tag@ {
                    assert(self@[i as int].tag[0] == tag@[0]);
                    assert(self@[i as int].tag[1] == tag@[1]);
                    assert(self@[i as int].tag[2] == tag@[2]);
                    assert(self@[i as int].tag[3] == tag@[3]);
                }
            }
            i = i + 1;
        }
        let mut message = String::from_str("Cannot find ");
        let name = lossy_string(tag.as_slice());
        message.append(name.as_str());
        Err(message)
    }
}

/// The tag of the `cmap` table.
pub open spec fn cmap_tag() -> Seq<u8> {
    seq![0x63u8, 0x6du8, 0x61u8, 0x70u8]
}

/// The tag of the `maxp` table.
pub open spec fn maxp_tag() -> Seq<u8> {
    seq![0x6du8, 0x61u8, 0x78u8, 0x70u8]
}

/// The tag of the `head` table.
pub open spec fn head_tag() -> Seq<u8> {
    seq![0x68u8, 0x65u8, 0x61u8, 0x64u8]
}

/// The tag of the `loca` table.
pub open spec fn loca_tag() -> Seq<u8> {
    seq![0x6cu8, 0x6fu8, 0x63u8, 0x61u8]
}

/// The tag of the `glyf` table.
pub open spec fn glyf_tag() -> Seq<u8> {
    seq![0x67u8, 0x6cu8, 0x79u8, 0x66u8]
}

/// How decoding a whole font file ends.
pub enum FontDecoding {
    Font(TrueTypeFontView),
    /// The file ends inside this field.
    Truncated(FontField),
    /// The directory has no table with this tag.
    MissingTable(Seq<u8>),
    /// The file breaks a rule of the format that the decoder does not go past.
    Malformed(FontFault),
}

/// A table's decoding failure as the failure of the whole file.
pub open spec fn font_failure<T>(d: Decoded<T>) -> FontDecoding {
    match d {
        Decoded::Malformed(f) => FontDecoding::Malformed(f),
        Decoded::Truncated(field) => FontDecoding::Truncated(field),
        Decoded::Value(..) => arbitrary(),
    }
}

/// The header at the start of the file.
pub open spec fn offset_subtable_of(s: Seq<u8>) -> OffsetSubtable {
    OffsetSubtable {
        scaler_type: be_u32(s, 0),
        number_of_tables: be_u16(s, 4),
        search_range: be_u16(s, 6),
        entry_selector: be_u16(s, 8),
        range_shift: be_u16(s, 10),
    }
}

/// The fields of the header at the start of the file.
pub open spec fn offset_subtable_layout() -> Seq<(FontField, usize)> {
    seq![
        (FontField::ScalerType, 4usize),
        (FontField::NumberOfTables, 2usize),
        (FontField::SearchRange, 2usize),
        (FontField::EntrySelector, 2usize),
        (FontField::RangeShift, 2usize),
    ]
}

/// The fields of a table directory entry.
pub open spec fn directory_entry_layout() -> Seq<(FontField, usize)> {
    seq![
        (FontField::Tag, 4usize),
        (FontField::CheckSum, 4usize),
        (FontField::Offset, 4usize),
        (FontField::Length, 4usize),
    ]
}

/// The `n` table directory entries, 16 bytes each, after the header.
pub open spec fn table_records(s: Seq<u8>, n: nat) -> Seq<TableRecord> {
    Seq::new(
        n,
        |i: int|
            TableRecord {
                tag: s.subrange(12 + 16 * i, 16 + 16 * i),
                check_sum: be_u32(s, 16 + 16 * i),
                offset: be_u32(s, 20 + 16 * i),
                length: be_u32(s, 24 + 16 * i),
            },
    )
}

/// The glyphs, once the character map, `maxp` and `head` are decoded: the
/// `loca` table, then the `glyf` table.
pub open spec fn decode_outlines(
    s: Seq<u8>,
    records: Seq<TableRecord>,
    cmap: CmapView,
    maxp_glyphs: u16,
    long_offsets: bool,
) -> FontDecoding {
    match find_table(records, loca_tag()) {
        None => FontDecoding::MissingTable(loca_tag()),
        Some(li) => match decode_loca(
            s,
            records[li].offset as int,
            maxp_glyphs as nat,
            long_offsets,
        ) {
            Decoded::Value(offsets, _) => match find_table(records, glyf_tag()) {
                None => FontDecoding::MissingTable(glyf_tag()),
                Some(gi) => match decode_glyphs(s, records[gi].offset as int, offsets, 0) {
                    Decoded::Value(glyphs, _) => FontDecoding::Font(
                        TrueTypeFontView {
                            offset_subtable: offset_subtable_of(s),
                            table_directory: records,
                            cmap,
                            glyf: glyphs,
                        },
                    ),
                    other => font_failure(other),
                },
            },
            other => font_failure(other),
        },
    }
}

/// The tables after the character map: `maxp`, `head`, then the outlines.
pub open spec fn decode_after_cmap(
    s: Seq<u8>,
    records: Seq<TableRecord>,
    cmap: CmapView,
) -> FontDecoding {
    match find_table(records, maxp_tag()) {
        None => FontDecoding::MissingTable(maxp_tag()),
        Some(mi) => match decode_maxp(s, records[mi].offset as int) {
            Decoded::Value(maxp, _) => match find_table(records, head_tag()) {
                None => FontDecoding::MissingTable(head_tag()),
                Some(hi) => match decode_head(s, records[hi].offset as int) {
                    Decoded::Value(head, _) => decode_outlines(
                        s,
                        records,
                        cmap,
                        maxp.number_of_glyphs,
                        head.index_to_loc_format != 0,
                    ),
                    other => font_failure(other),
                },
            },
            other => font_failure(other),
        },
    }
}

/// What decoding the font file `s` gives.
///
/// The header and the table directory come first; then the `cmap`, `maxp`,
/// `head`, `loca` and `glyf` tables are found by tag, in that order, and
/// decoded. The first failure ends the decoding.
pub open spec fn decode_font(s: Seq<u8>) -> FontDecoding {
    if !fits(s, 0, 12) {
        FontDecoding::Truncated(first_short(s, 0, offset_subtable_layout()))
    } else if !fits(s, 12, 16 * be_u16(s, 4)) {
        FontDecoding::Truncated(first_short_record(s, 12, 16, directory_entry_layout()))
    } else {
        let records = table_records(s, be_u16(s, 4) as nat);
        match find_table(records, cmap_tag()) {
            None => FontDecoding::MissingTable(cmap_tag()),
            Some(ci) => match decode_cmap(s, records[ci].offset as int) {
                Decoded::Value(cmap, _) => decode_after_cmap(s, records, cmap),
                other => font_failure(other),
            },
        }
    }
}

/// Why a font file could not be decoded.
#[derive(Debug)]
pub enum FontError {
    /// The file ends inside this field.
    UnexpectedEof(FontField),
    /// A table that the decoder needs is not in the directory; the text is
    /// "Cannot find " followed by its tag.
    MissingTable(String),
}

/// Why decoding stopped, the rules of the format that it does not go past
/// included.
#[derive(Debug)]
pub enum FontFailure {
    Error(FontError),
    Fault(FontFault),
}

/// Whether `res` is the outcome `d` of a decoding.
pub open spec fn outcome_is(d: FontDecoding, res: Result<TrueTypeFont, FontFailure>) -> bool {
    match res {
        Ok(f) => d == FontDecoding::Font(f@),
        Err(FontFailure::Error(FontError::UnexpectedEof(field))) => d == FontDecoding::Truncated(
            field,
        ),
        Err(FontFailure::Error(FontError::MissingTable(m))) => d matches FontDecoding::MissingTable(
            tag,
        ) && m@ == missing_table_message(tag) && m@ == "Cannot find "@ + ascii_text(tag),
        Err(FontFailure::Fault(f)) => d == FontDecoding::Malformed(f),
    }
}

/// Whether `res` is what decoding `s` gives.
pub open spec fn font_outcome(s: Seq<u8>, res: Result<TrueTypeFont, FontFailure>) -> bool {
    outcome_is(decode_font(s), res)
}

/// A table decoder's failure as the failure of the whole file.
fn fail(e: ReadFailure) -> (res: FontFailure)
    ensures
        match e {
            ReadFailure::Truncated(field) => res == FontFailure::Error(
                FontError::UnexpectedEof(field),
            ),
            ReadFailure::Fault(f) => res == FontFailure::Fault(f),
        },
{
    match e {
        ReadFailure::Truncated(field) => FontFailure::Error(FontError::UnexpectedEof(field)),
        ReadFailure::Fault(f) => FontFailure::Fault(f),
    }
}

/// The offset of the first table with tag `tag`, or the error that its
/// absence gives.
fn table_offset(table_directory: &TableDirectory, tag: &[u8; 4]) -> (res: Result<u32, FontFailure>)
    requires
        all_ascii(tag@),
    ensures
        match res {
            Ok(o) => find_table(table_directory@, tag@) is Some && o == table_directory@[find_table(
                table_directory@,
                tag@,
            ).unwrap()].offset,
            Err(FontFailure::Error(FontError::MissingTable(m))) => find_table(
                table_directory@,
                tag@,
            ) is None && m@ == missing_table_message(tag@) && m@ == "Cannot find "@ + ascii_text(
                tag@,
            ),
            Err(_) => false,
        },
{
    match table_directory.get(tag) {
        Ok(e) => Ok(e.offset),
        Err(m) => Err(FontFailure::Error(FontError::MissingTable(m))),
    }
}

/// Reads the header and the table directory of the font file `data`; the
/// field that the file ends inside when they do not fit.
fn read_directory(data: &[u8]) -> (res: Result<(OffsetSubtable, TableDirectory), FontField>)
    ensures
        match res {
            Ok((o, d)) => {
                &&& fits(data@, 0, 12)
                &&& fits(data@, 12, 16 * be_u16(data@, 4))
                &&& o == offset_subtable_of(data@)
                &&& d@ == table_records(data@, be_u16(data@, 4) as nat)
            },
            Err(field) => decode_font(data@) == FontDecoding::Truncated(field),
        },
{
    let ghost s = data@;
    let len = data.len();
    if !has_bytes(data, 0, 12) {
        let layout = vec![
            (FontField::ScalerType, 4usize),
            (FontField::NumberOfTables, 2usize),
            (FontField::SearchRange, 2usize),
            (FontField::EntrySelector, 2usize),
            (FontField::RangeShift, 2usize),
        ];
        assert(layout@ =~= offset_subtable_layout());
        return Err(short_field(data, 0, &layout));
    }
    let offset_subtable = OffsetSubtable {
        scaler_type: read_u32(data, 0).unwrap(),
        number_of_tables: read_u16(data, 4).unwrap(),
        search_range: read_u16(data, 6).unwrap(),
        entry_selector: read_u16(data, 8).unwrap(),
        range_shift: read_u16(data, 10).unwrap(),
    };
    let n = offset_subtable.number_of_tables as usize;
    if !has_bytes(data, 12, 16 * n) {
        let layout = vec![
            (FontField::Tag, 4usize),
            (FontField::CheckSum, 4usize),
            (FontField::Offset, 4usize),
            (FontField::Length, 4usize),
        ];
        assert(layout@ =~= directory_entry_layout());
        return Err(short_record_field(data, 12, 16, &layout));
    }
    let ghost records = table_records(s, n as nat);
    let mut table_directory = TableDirectory::new(n);
    let mut i: usize = 0;
    while i < n
        invariant
            s == data@,
            len == s.len(),
            i <= n,
            fits(s, 12, 16 * n),
            records == table_records(s, n as nat),
            table_directory@ =~= records.take(i as int),
        decreases n - i,
    {
        let base = 12 + 16 * i;
        let entry = TableDirectoryEntry {
            tag: read_tag(data, base).unwrap(),
            check_sum: read_u32(data, base + 4).unwrap(),
            offset: read_u32(data, base + 8).unwrap(),
            length: read_u32(data, base + 12).unwrap(),
        };
        table_directory.add_entry(entry);
        i = i + 1;
    }
    assert(table_directory@ =~= records);
    Ok((offset_subtable, table_directory))
}

/// Decodes a whole font file, reporting the rules of the format that the
/// decoding does not go past as `FontFailure::Fault`.
pub(crate) fn decode_font_file(data: &[u8]) -> (res: Result<TrueTypeFont, FontFailure>)
    ensures
        font_outcome(data@, res),
{
    let ghost s = data@;
    let (offset_subtable, table_directory) = match read_directory(data) {
        Ok(r) => r,
        Err(field) => {
            return Err(FontFailure::Error(FontError::UnexpectedEof(field)));
        },
    };
    let ghost records = table_directory@;
    let cmap_name: [u8; 4] = [0x63, 0x6d, 0x61, 0x70];
    assert(cmap_name@ =~= cmap_tag());
    assert(all_ascii(cmap_name@));
    let cmap_offset = match table_offset(&table_directory, &cmap_name) {
        Ok(o) => o,
        Err(e) => {
            return Err(e);
        },
    };
    let cmap = match decode_cmap_table(data, cmap_offset) {
        Ok(c) => c,
        Err(e) => {
            return Err(fail(e));
        },
    };
    proof {
        assert(decode_font(s) == decode_after_cmap(s, records, cmap@));
    }
    decode_after_cmap_file(data, offset_subtable, table_directory, cmap)
}

/// Decodes the tables that follow the character map: `maxp`, `head`,
/// `loca` and `glyf`.
fn decode_after_cmap_file(
    data: &[u8],
    offset_subtable: OffsetSubtable,
    table_directory: TableDirectory,
    cmap: Cmap,
) -> (res: Result<TrueTypeFont, FontFailure>)
    requires
        offset_subtable == offset_subtable_of(data@),
    ensures
        outcome_is(decode_after_cmap(data@, table_directory@, cmap@), res),
{
    let ghost s = data@;
    let ghost records = table_directory@;
    let maxp_name: [u8; 4] = [0x6d, 0x61, 0x78, 0x70];
    assert(maxp_name@ =~= maxp_tag());
    assert(all_ascii(maxp_name@));
    let maxp_offset = match table_offset(&table_directory, &maxp_name) {
        Ok(o) => o,
        Err(e) => {
            return Err(e);
        },
    };
    let maxp = match read_maxp(data, maxp_offset as usize) {
        Ok(m) => m,
        Err(e) => {
            return Err(fail(e));
        },
    };
    let head_name: [u8; 4] = [0x68, 0x65, 0x61, 0x64];
    assert(head_name@ =~= head_tag());
    assert(all_ascii(head_name@));
    let head_offset = match table_offset(&table_directory, &head_name) {
        Ok(o) => o,
        Err(e) => {
            return Err(e);
        },
    };
    let head = match read_head(data, head_offset as usize) {
        Ok(h) => h,
        Err(e) => {
            return Err(fail(e));
        },
    };
    let loca_name: [u8; 4] = [0x6c, 0x6f, 0x63, 0x61];
    assert(loca_name@ =~= loca_tag());
    assert(all_ascii(loca_name@));
    let loca_offset = match table_offset(&table_directory, &loca_name) {
        Ok(o) => o,
        Err(e) => {
            return Err(e);
        },
    };
    let loca = match read_loca(data, loca_offset as usize, &head, &maxp) {
        Ok(l) => l,
        Err(e) => {
            return Err(fail(e));
        },
    };
    let glyf_name: [u8; 4] = [0x67, 0x6c, 0x79, 0x66];
    assert(glyf_name@ =~= glyf_tag());
    assert(all_ascii(glyf_name@));
    let glyf_offset = match table_offset(&table_directory, &glyf_name) {
        Ok(o) => o,
        Err(e) => {
            return Err(e);
        },
    };
    let glyf = match decode_glyf_table(data, glyf_offset, &loca) {
        Ok(g) => g,
        Err(e) => {
            return Err(fail(e));
        },
    };
    Ok(TrueTypeFont { offset_subtable, table_directory, cmap, glyf })
}

/// The rule of the format that decoding `s` stops at, if it stops at one.
pub open spec fn fault_of_font(s: Seq<u8>) -> Option<FontFault> {
    match decode_font(s) {
        FontDecoding::Malformed(f) => Some(f),
        _ => None,
    }
}

/// Whether `res` is what decoding `s` gives, for a file that breaks none of
/// the rules the decoder stops at.
pub open spec fn font_result(s: Seq<u8>, res: Result<TrueTypeFont, FontError>) -> bool {
    match res {
        Ok(f) => decode_font(s) == FontDecoding::Font(f@),
        Err(FontError::UnexpectedEof(field)) => decode_font(s) == FontDecoding::Truncated(field),
        Err(FontError::MissingTable(m)) => decode_font(s) matches FontDecoding::MissingTable(tag)
            && m@ == missing_table_message(tag) && m@ == "Cannot find "@ + ascii_text(tag),
    }
}

/// The rule of the format, if any, that decoding `data` stops at.
pub fn font_fault(data: &[u8]) -> (res: Option<FontFault>)
    ensures
        res == fault_of_font(data@),
{
    match decode_font_file(data) {
        Err(FontFailure::Fault(f)) => Some(f),
        _ => None,
    }
}

/// Decodes the font file `data`: its header and table directory, and the
/// `cmap`, `maxp`, `head`, `loca` and `glyf` tables; the glyphs are those
/// that the `loca` offsets delimit.
pub fn file_to_true_type_font(data: &[u8]) -> (res: Result<TrueTypeFont, FontError>)
    requires
        fault_of_font(data@) is None,
    ensures
        font_result(data@, res),
{
    match decode_font_file(data) {
        Ok(f) => Ok(f),
        Err(FontFailure::Error(e)) => Err(e),
        Err(FontFailure::Fault(f)) => {
            // `requires` rules this arm out: decoding the file meets no fault.
            proof {
                assert(fault_of_font(data@) == Some(f));
            }
            Err(FontError::UnexpectedEof(FontField::ScalerType))
        },
    }
}

/// Adding a record to the end does not change where an earlier record is
/// found, and makes its own tag found.
proof fn lemma_find_after_push(records: Seq<TableRecord>, entry: TableRecord, tag: Seq<u8>, i: nat)
    requires
        i <= records.len(),
    ensures
        find_table_from(records.push(entry), tag, i) == match find_table_from(records, tag, i) {
            Some(k) => Some(k),
            None => if entry.tag == tag {
                Some(records.len() as int)
            } else {
                None
            },
        },
    decreases records.len() - i,
{
    if i < records.len() {
        assert(records.push(entry)[i as int] == records[i as int]);
        lemma_find_after_push(records, entry, tag, i + 1);
    } else {
        assert(records.push(entry)[i as int] == entry);
        assert(find_table_from(records.push(entry), tag, i + 1) is None);
    }
}

/// After `add_entry`, `get` with the new entry's tag finds an entry: the
/// first earlier one with that tag, else the new one; other tags are found
/// where they were.
pub proof fn law_get_after_add_entry(records: Seq<TableRecord>, entry: TableRecord, tag: Seq<u8>)
    ensures
        find_table(records.push(entry), tag) == match find_table(records, tag) {
            Some(k) => Some(k),
            None => if entry.tag == tag {
                Some(records.len() as int)
            } else {
                None
            },
        },
        find_table(records.push(entry), entry.tag) is Some,
{
    lemma_find_after_push(records, entry, tag, 0);
    lemma_find_after_push(records, entry, entry.tag, 0);
}


/// Whether `records` holds a table with tag `tag` where `find_table` finds it.
pub open spec fn has_table(records: Seq<TableRecord>, tag: Seq<u8>) -> bool {
    find_table(records, tag) matches Some(k) && 0 <= k < records.len() && records[k].tag == tag
}

/// A record found from `i` on lies at or after `i` and has the tag looked for.
proof fn lemma_found_table(records: Seq<TableRecord>, tag: Seq<u8>, i: nat)
    ensures
        find_table_from(records, tag, i) matches Some(k) ==> i <= k < records.len()
            && records[k].tag == tag,
    decreases records.len() - i,
{
    if i < records.len() && records[i as int].tag != tag {
        lemma_found_table(records, tag, i + 1);
    }
}

/// A decoded font keeps the header of the file and its whole table
/// directory, one record per table that the header counts, read from the
/// bytes `12 + 16k` on, in file order; and the directory has a `cmap`, a
/// `maxp`, a `head`, a `loca` and a `glyf` table.
pub proof fn law_font_has_its_tables(s: Seq<u8>)
    ensures
        decode_font(s) matches FontDecoding::Font(f) ==> {
            &&& f.offset_subtable == offset_subtable_of(s)
            &&& f.table_directory == table_records(s, f.offset_subtable.number_of_tables as nat)
            &&& f.table_directory.len() == f.offset_subtable.number_of_tables
            &&& has_table(f.table_directory, cmap_tag())
            &&& has_table(f.table_directory, maxp_tag())
            &&& has_table(f.table_directory, head_tag())
            &&& has_table(f.table_directory, loca_tag())
            &&& has_table(f.table_directory, glyf_tag())
        },
{
    if fits(s, 0, 12) && fits(s, 12, 16 * be_u16(s, 4)) {
        let records = table_records(s, be_u16(s, 4) as nat);
        lemma_found_table(records, cmap_tag(), 0);
        lemma_found_table(records, maxp_tag(), 0);
        lemma_found_table(records, head_tag(), 0);
        lemma_found_table(records, loca_tag(), 0);
        lemma_found_table(records, glyf_tag(), 0);
    }
}


/// A decoded font's header is the big-endian values at the start of the
/// file: the scaler type in bytes 0..4, then the number of tables, the
/// search range, the entry selector and the range shift, two bytes each.
/// Directory record `k` is the 16 bytes from `12 + 16k` on: its tag is the
/// first four, and its check sum, offset and length are the big-endian
/// 32-bit values in the next three groups of four bytes, in that order.
pub proof fn law_directory_from_bytes(s: Seq<u8>)
    ensures
        decode_font(s) matches FontDecoding::Font(f) ==> {
            &&& f.offset_subtable.scaler_type == s[0] * 16777216 + s[1] * 65536 + s[2] * 256 + s[3]
            &&& f.offset_subtable.number_of_tables == s[4] * 256 + s[5]
            &&& f.offset_subtable.search_range == s[6] * 256 + s[7]
            &&& f.offset_subtable.entry_selector == s[8] * 256 + s[9]
            &&& f.offset_subtable.range_shift == s[10] * 256 + s[11]
            &&& f.table_directory.len() == s[4] * 256 + s[5]
            &&& forall|k: int|
                0 <= k < f.table_directory.len() ==> {
                    let r = #[trigger] f.table_directory[k];
                    let b = 12 + 16 * k;
                    &&& r.tag == s.subrange(b, b + 4)
                    &&& r.check_sum == s[b + 4] * 16777216 + s[b + 5] * 65536 + s[b + 6] * 256
                        + s[b + 7]
                    &&& r.offset == s[b + 8] * 16777216 + s[b + 9] * 65536 + s[b + 10] * 256
                        + s[b + 11]
                    &&& r.length == s[b + 12] * 16777216 + s[b + 13] * 65536 + s[b + 14] * 256
                        + s[b + 15]
                }
        },
{
    law_font_has_its_tables(s);
    lemma_be_u32_bytes(s, 0);
    lemma_be_u16_bytes(s, 4);
    lemma_be_u16_bytes(s, 6);
    lemma_be_u16_bytes(s, 8);
    lemma_be_u16_bytes(s, 10);
    match decode_font(s) {
        FontDecoding::Font(f) => {
            assert forall|k: int| 0 <= k < f.table_directory.len() implies {
                let r = #[trigger] f.table_directory[k];
                let b = 12 + 16 * k;
                &&& r.tag == s.subrange(b, b + 4)
                &&& r.check_sum == s[b + 4] * 16777216 + s[b + 5] * 65536 + s[b + 6] * 256 + s[b
                    + 7]
                &&& r.offset == s[b + 8] * 16777216 + s[b + 9] * 65536 + s[b + 10] * 256 + s[b
                    + 11]
                &&& r.length == s[b + 12] * 16777216 + s[b + 13] * 65536 + s[b + 14] * 256 + s[b
                    + 15]
            } by {
                lemma_be_u32_bytes(s, 16 + 16 * k);
                lemma_be_u32_bytes(s, 20 + 16 * k);
                lemma_be_u32_bytes(s, 24 + 16 * k);
            }
        },
        _ => {},
    }
}

} // verus!
