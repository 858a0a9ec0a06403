//! The `cmap` table: from characters to glyph indices.
use vstd::prelude::*;
use crate::font::mac_os_roman::{from_byte_to_cmap_index, mac_os_roman_index};

verus! {

/// The character map table.
#[derive(Debug)]
pub struct Cmap {
    pub version: u16,
    pub number_of_subtables: u16,
    pub encoding_subtables: Vec<CmapEncodingSubtable>,
    pub subtables: Vec<CmapSubtable>,
}

/// Which platform and encoding a subtable is for, and where it starts,
/// counted from the start of the `cmap` table.
///
/// Platform 0 is Unicode, 1 Macintosh and 3 Microsoft.
#[derive(Clone, Copy, Debug, PartialEq, Eq, Structural)]
pub struct CmapEncodingSubtable {
    pub platform_id: u16,
    pub platform_specific_id: u16,
    pub offset: u32,
}

/// A character map subtable.
#[derive(Debug)]
pub enum CmapSubtable {
    Format0(Format0),
    Format4(Format4),
    Unhandled { format: u16 },
}

/// A byte encoding table: one glyph index per character code 0..=255.
#[derive(Debug)]
pub struct Format0 {
    pub format: u16,
    pub length_in_bytes: u16,
    pub language: u16,
    pub glyph_index_array: [u8; 256],
}

/// A segment mapping table: segment `i` covers the codes
/// `start_codes[i]..=end_codes[i]`, with the end codes in ascending order.
#[derive(Debug)]
pub struct Format4 {
    pub format: u16,
    pub length_in_bytes: u16,
    pub language: u16,
    pub seg_count: u16,
    pub end_codes: Vec<u16>,
    pub start_codes: Vec<u16>,
    pub id_deltas: Vec<u16>,
    pub id_range_offsets: Vec<u16>,
    pub glyph_index_array: Vec<u16>,
}

/// The value of a byte encoding table.
pub struct Format0View {
    pub format: u16,
    pub length_in_bytes: u16,
    pub language: u16,
    pub glyph_index_array: Seq<u8>,
}

/// The value of a segment mapping table.
pub struct Format4View {
    pub format: u16,
    pub length_in_bytes: u16,
    pub language: u16,
    pub seg_count: u16,
    pub end_codes: Seq<u16>,
    pub start_codes: Seq<u16>,
    pub id_deltas: Seq<u16>,
    pub id_range_offsets: Seq<u16>,
    pub glyph_index_array: Seq<u16>,
}

/// The value of a subtable.
pub enum CmapSubtableView {
    Format0(Format0View),
    Format4(Format4View),
    Unhandled { format: u16 },
}

/// The value of a character map table.
pub struct CmapView {
    pub version: u16,
    pub number_of_subtables: u16,
    pub encoding_subtables: Seq<CmapEncodingSubtable>,
    pub subtables: Seq<CmapSubtableView>,
}

impl View for Format0 {
    type V = Format0View;

    open spec fn view(&self) -> Format0View {
        Format0View {
            format: self.format,
            length_in_bytes: self.length_in_bytes,
            language: self.language,
            glyph_index_array: self.glyph_index_array@,
        }
    }
}

impl View for Format4 {
    type V = Format4View;

    open spec fn view(&self) -> Format4View {
        Format4View {
            format: self.format,
            length_in_bytes: self.length_in_bytes,
            language: self.language,
            seg_count: self.seg_count,
            end_codes: self.end_codes@,
            start_codes: self.start_codes@,
            id_deltas: self.id_deltas@,
            id_range_offsets: self.id_range_offsets@,
            glyph_index_array: self.glyph_index_array@,
        }
    }
}

impl View for CmapSubtable {
    type V = CmapSubtableView;

    open spec fn view(&self) -> CmapSubtableView {
        match self {
            CmapSubtable::Format0(f) => CmapSubtableView::Format0(f@),
            CmapSubtable::Format4(f) => CmapSubtableView::Format4(f@),
            CmapSubtable::Unhandled { format } => CmapSubtableView::Unhandled { format: *format },
        }
    }
}

impl View for Cmap {
    type V = CmapView;

    open spec fn view(&self) -> CmapView {
        CmapView {
            version: self.version,
            number_of_subtables: self.number_of_subtables,
            encoding_subtables: self.encoding_subtables@,
            subtables: self.subtables@.map_values(|t: CmapSubtable| t@),
        }
    }
}

/// The outcome of looking a character up.
pub enum Lookup {
    /// The glyph index.
    Found(int),
    /// The table does not map the character.
    NotFound,
    /// The table's arrays do not allow the lookup: an index past the end of
    /// one of them, or 16-bit arithmetic that overflows.
    Fault,
}

/// The first segment from `i` on whose end code is at least `code`.
pub open spec fn first_segment_from(ends: Seq<u16>, code: int, i: nat) -> Option<int>
    decreases ends.len() - i,
{
    if i >= ends.len() {
        None
    } else if ends[i as int] >= code {
        Some(i as int)
    } else {
        first_segment_from(ends, code, i + 1)
    }
}

/// The glyph index that a segment mapping table gives `c`.
///
/// The character's code, cut to 16 bits, selects the first segment whose end
/// code is at least that code; the segment must start at or before it. With
/// a zero id range offset the glyph index is the id delta plus the code,
/// modulo 65536; otherwise it is read from the glyph index array, at the id
/// range offset in words, plus the code's distance from the segment start,
/// counted from the segment's own id range offset (that is, minus the number
/// of segments from there to the end of the array).
pub open spec fn format4_lookup(f: Format4View, c: char) -> Lookup {
    let code = c as int;
    let short = code % 65536;
    match first_segment_from(f.end_codes, short, 0) {
        None => Lookup::NotFound,
        Some(i) => if i >= f.start_codes.len() {
            Lookup::Fault
        } else if f.start_codes[i] > short {
            Lookup::NotFound
        } else if i >= f.id_range_offsets.len() {
            Lookup::Fault
        } else if f.id_range_offsets[i] == 0 {
            if i >= f.id_deltas.len() {
                Lookup::Fault
            } else {
                Lookup::Found((f.id_deltas[i] + code) % 65536)
            }
        } else {
            let offset = f.id_range_offsets[i] / 2 + (short - f.start_codes[i]);
            if offset > u16::MAX || i > f.seg_count || offset < f.seg_count - i {
                Lookup::Fault
            } else if offset - (f.seg_count - i) >= f.glyph_index_array.len() {
                Lookup::Fault
            } else {
                Lookup::Found(f.glyph_index_array[offset - (f.seg_count - i)] as int)
            }
        },
    }
}

/// The glyph index that a subtable gives `c`: a byte encoding table gives
/// the entry of its glyph index array at the character's Macintosh Roman
/// code, a segment mapping table reads its segments, and other formats map
/// nothing.
pub open spec fn subtable_lookup(t: CmapSubtableView, c: char) -> Lookup {
    match t {
        CmapSubtableView::Format0(f) => Lookup::Found(
            f.glyph_index_array[mac_os_roman_index(c)] as int,
        ),
        CmapSubtableView::Format4(f) => format4_lookup(f, c),
        CmapSubtableView::Unhandled { .. } => Lookup::NotFound,
    }
}

/// The glyph index of `c` in the first of the subtables `i..` that maps it.
pub open spec fn cmap_lookup_from(subtables: Seq<CmapSubtableView>, c: char, i: nat) -> Lookup
    decreases subtables.len() - i,
{
    if i >= subtables.len() {
        Lookup::NotFound
    } else {
        match subtable_lookup(subtables[i as int], c) {
            Lookup::NotFound => cmap_lookup_from(subtables, c, i + 1),
            other => other,
        }
    }
}

/// The glyph index of `c` in the first subtable that maps it.
pub open spec fn cmap_lookup(subtables: Seq<CmapSubtableView>, c: char) -> Lookup {
    cmap_lookup_from(subtables, c, 0)
}

/// Whether `res` is the answer to a lookup that does not fault.
pub open spec fn lookup_answer(l: Lookup, res: Option<usize>) -> bool {
    match l {
        Lookup::Found(v) => res == Some(v as usize),
        _ => res is None,
    }
}

/// The outcome of looking a character up in a subtable, as the executable
/// lookup computes it.
enum LookupStep {
    Found(usize),
    NotFound,
    Fault,
}

/// Whether `step` is the executable form of `l`.
spec fn step_is(step: LookupStep, l: Lookup) -> bool {
    match (step, l) {
        (LookupStep::Found(v), Lookup::Found(w)) => v == w,
        (LookupStep::NotFound, Lookup::NotFound) => true,
        (LookupStep::Fault, Lookup::Fault) => true,
        _ => false,
    }
}

impl CmapSubtable {
    /// Looks `c` up in this subtable, telling faults apart.
    fn lookup(&self, c: char) -> (res: LookupStep)
        ensures
            step_is(res, subtable_lookup(self@, c)),
    {
        match self {
            CmapSubtable::Format0(format0) => {
                let cmap_index = from_byte_to_cmap_index(c);
                LookupStep::Found(format0.glyph_index_array[cmap_index] as usize)
            },
            CmapSubtable::Format4(format4) => {
                let code = c as u32 as usize;
                let short = code as u16;
                assert(short == code % 65536) by (bit_vector)
                    requires
                        short == code as u16,
                ;
                assert(code == c as int);
                let n = format4.end_codes.len();
                let mut i: usize = 0;
                while i < n
                    invariant
                        n == format4.end_codes@.len(),
                        i <= n,
                        first_segment_from(format4.end_codes@, short as int, 0)
                            == first_segment_from(format4.end_codes@, short as int, i as nat),
                    ensures
                        i <= n,
                        first_segment_from(format4.end_codes@, short as int, 0)
                            == first_segment_from(format4.end_codes@, short as int, i as nat),
                        i < n ==> format4.end_codes@[i as int] >= short,
                    decreases n - i,
                {
                    if format4.end_codes[i] >= short {
                        break;
                    }
                    i = i + 1;
                }
                if i == n {
                    return LookupStep::NotFound;
                }
                if i >= format4.start_codes.len() {
                    return LookupStep::Fault;
                }
                let start = format4.start_codes[i];
                if start > short {
                    return LookupStep::NotFound;
                }
                if i >= format4.id_range_offsets.len() {
                    return LookupStep::Fault;
                }
                let range_offset = format4.id_range_offsets[i];
                if range_offset == 0 {
                    if i >= format4.id_deltas.len() {
                        return LookupStep::Fault;
                    }
                    return LookupStep::Found((format4.id_deltas[i] as usize + code) % 65536);
                }
                let offset = (range_offset / 2) as usize + (short - start) as usize;
                let segments = format4.seg_count as usize;
                if offset > 65535 || i > segments || offset < segments - i {
                    return LookupStep::Fault;
                }
                let glyph_index_array_index = offset - (segments - i);
                if glyph_index_array_index >= format4.glyph_index_array.len() {
                    return LookupStep::Fault;
                }
                LookupStep::Found(format4.glyph_index_array[glyph_index_array_index] as usize)
            },
            CmapSubtable::Unhandled { .. } => LookupStep::NotFound,
        }
    }

    /// The glyph index that this subtable gives `c`.
    pub fn get_glyph_index(&self, c: char) -> (res: Option<usize>)
        requires
            !(subtable_lookup(self@, c) is Fault),
        ensures
            lookup_answer(subtable_lookup(self@, c), res),
    {
        match self.lookup(c) {
            LookupStep::Found(v) => Some(v),
            _ => None,
        }
    }

    /// Whether looking `c` up in this subtable runs past the end of its
    /// arrays or overflows, which `get_glyph_index` does not allow.
    pub fn lookup_faults(&self, c: char) -> (res: bool)
        ensures
            res == (subtable_lookup(self@, c) is Fault),
    {
        match self.lookup(c) {
            LookupStep::Fault => true,
            _ => false,
        }
    }
}

impl Cmap {
    /// Looks `c` up in the subtables in order, telling faults apart.
    fn lookup(&self, c: char) -> (res: LookupStep)
        ensures
            step_is(res, cmap_lookup(self@.subtables, c)),
    {
        let n = self.subtables.len();
        let mut i: usize = 0;
        while i < n
            invariant
                n == self@.subtables.len(),
                i <= n,
                cmap_lookup(self@.subtables, c) == cmap_lookup_from(self@.subtables, c, i as nat),
            decreases n - i,
        {
            assert(self@.subtables[i as int] == self.subtables@[i as int]@);
            match self.subtables[i].lookup(c) {
                LookupStep::NotFound => {},
                other => {
                    return other;
                },
            }
            i = i + 1;
        }
        LookupStep::NotFound
    }

    /// The glyph index of `c` in the first subtable that maps it.
    pub fn get_glyph_index(&self, c: char) -> (res: Option<usize>)
        requires
            !(cmap_lookup(self@.subtables, c) is Fault),
        ensures
            lookup_answer(cmap_lookup(self@.subtables, c), res),
    {
        match self.lookup(c) {
            LookupStep::Found(v) => Some(v),
            _ => None,
        }
    }

    /// Whether looking `c` up runs past the end of a subtable's arrays or
    /// overflows, which `get_glyph_index` does not allow.
    pub fn lookup_faults(&self, c: char) -> (res: bool)
        ensures
            res == (cmap_lookup(self@.subtables, c) is Fault),
    {
        match self.lookup(c) {
            LookupStep::Fault => true,
            _ => false,
        }
    }
}

/// The first segment whose end code is at least `code` is segment `i` when
/// segment `i` ends at or after it and every earlier one ends before it.
proof fn lemma_first_segment(ends: Seq<u16>, code: int, i: int, j: nat)
    requires
        0 <= j <= i < ends.len(),
        ends[i] >= code,
        forall|k: int| 0 <= k < i ==> #[trigger] ends[k] < code,
    ensures
        first_segment_from(ends, code, j) == Some(i),
    decreases i - j,
{
    if j < i {
        lemma_first_segment(ends, code, i, j + 1);
    }
}

/// In a segment mapping table whose id range offsets are one per segment, a
/// code in segment `i` (the first segment ending at or after it, starting
/// at or before it) with a nonzero id range offset `r` maps to the word that
/// the format addresses: `r / 2 + (code - start)` words past the segment's
/// own id range offset, that is word `i + r / 2 + (code - start)` of the id
/// range offsets followed by the glyph index array. The lookup faults where
/// that word lies outside the glyph index array or the word distance does
/// not fit in 16 bits.
pub proof fn law_range_offset_addresses_words(f: Format4View, c: char, i: int)
    requires
        f.id_range_offsets.len() == f.seg_count,
        0 <= i < f.end_codes.len(),
        i < f.start_codes.len(),
        i < f.id_range_offsets.len(),
        f.end_codes[i] >= (c as int) % 65536,
        forall|k: int| 0 <= k < i ==> #[trigger] f.end_codes[k] < (c as int) % 65536,
        f.start_codes[i] <= (c as int) % 65536,
        f.id_range_offsets[i] != 0,
    ensures
        ({
            let code = (c as int) % 65536;
            let distance = f.id_range_offsets[i] / 2 + (code - f.start_codes[i]);
            let word = i + distance;
            let words = f.id_range_offsets + f.glyph_index_array;
            format4_lookup(f, c) == if distance <= 65535 && f.seg_count <= word < words.len() {
                Lookup::Found(words[word] as int)
            } else {
                Lookup::Fault
            }
        }),
{
    lemma_first_segment(f.end_codes, (c as int) % 65536, i, 0);
}

/// In a segment mapping table, a code in segment `i` (the first segment
/// ending at or after it, starting at or before it) with a zero id range
/// offset maps to the segment's id delta plus the character's code, modulo
/// 65536.
pub proof fn law_zero_range_offset_adds_delta(f: Format4View, c: char, i: int)
    requires
        0 <= i < f.end_codes.len(),
        i < f.start_codes.len(),
        i < f.id_range_offsets.len(),
        i < f.id_deltas.len(),
        f.end_codes[i] >= (c as int) % 65536,
        forall|k: int| 0 <= k < i ==> #[trigger] f.end_codes[k] < (c as int) % 65536,
        f.start_codes[i] <= (c as int) % 65536,
        f.id_range_offsets[i] == 0,
    ensures
        format4_lookup(f, c) == Lookup::Found((f.id_deltas[i] + c as int) % 65536),
{
    lemma_first_segment(f.end_codes, (c as int) % 65536, i, 0);
}

/// A byte encoding subtable maps every character: to the glyph index in its
/// array at the character's Macintosh Roman code, or at 0 for a character
/// outside ASCII.
pub proof fn law_byte_table_maps_every_char(f: Format0View, c: char)
    ensures
        subtable_lookup(CmapSubtableView::Format0(f), c) == Lookup::Found(
            f.glyph_index_array[mac_os_roman_index(c)] as int,
        ),
        0 <= mac_os_roman_index(c) < 128,
        (c as int) >= 128 ==> subtable_lookup(CmapSubtableView::Format0(f), c) == Lookup::Found(
            f.glyph_index_array[0] as int,
        ),
{
}

/// The lookup answers from the first subtable that maps the character:
/// subtables before it that map nothing do not change the answer, and the
/// ones after it are not consulted.
pub proof fn law_first_mapping_subtable_answers(
    subtables: Seq<CmapSubtableView>,
    c: char,
    k: nat,
)
    requires
        k < subtables.len(),
        forall|j: int| 0 <= j < k ==> subtable_lookup(#[trigger] subtables[j], c) is NotFound,
        !(subtable_lookup(subtables[k as int], c) is NotFound),
    ensures
        cmap_lookup(subtables, c) == subtable_lookup(subtables[k as int], c),
{
    lemma_lookup_skips(subtables, c, 0, k);
}

/// Subtables `i..k` that map nothing are passed over.
proof fn lemma_lookup_skips(subtables: Seq<CmapSubtableView>, c: char, i: nat, k: nat)
    requires
        i <= k < subtables.len(),
        forall|j: int| 0 <= j < k ==> subtable_lookup(#[trigger] subtables[j], c) is NotFound,
    ensures
        cmap_lookup_from(subtables, c, i) == cmap_lookup_from(subtables, c, k),
    decreases k - i,
{
    if i < k {
        lemma_lookup_skips(subtables, c, i + 1, k);
    }
}

/// Which glyph the program shows for a character.
#[derive(Clone, Copy, Debug, PartialEq, Eq, Structural)]
pub enum DisplayGlyph {
    /// The glyph index that the first byte encoding subtable gives.
    Index(usize),
    /// A segment mapping subtable comes before any byte encoding subtable;
    /// showing from it is not supported.
    SegmentTableFirst,
    /// No subtable is a byte encoding or segment mapping table.
    NoByteTable,
}

/// The glyph to show for `c`, from the subtables `i..`: the first byte
/// encoding or segment mapping subtable decides.
pub open spec fn display_glyph_from(subtables: Seq<CmapSubtableView>, c: char, i: nat) -> DisplayGlyph
    decreases subtables.len() - i,
{
    if i >= subtables.len() {
        DisplayGlyph::NoByteTable
    } else {
        match subtables[i as int] {
            CmapSubtableView::Format0(f) => DisplayGlyph::Index(
                f.glyph_index_array[mac_os_roman_index(c)] as usize,
            ),
            CmapSubtableView::Format4(_) => DisplayGlyph::SegmentTableFirst,
            CmapSubtableView::Unhandled { .. } => display_glyph_from(subtables, c, i + 1),
        }
    }
}

impl Cmap {
    /// The glyph to show for `c`: from the first subtable that is a byte
    /// encoding table, read as Macintosh Roman, unless a segment mapping
    /// table comes first.
    pub fn display_glyph(&self, c: char) -> (res: DisplayGlyph)
        ensures
            res == display_glyph_from(self@.subtables, c, 0),
    {
        let n = self.subtables.len();
        let mut i: usize = 0;
        while i < n
            invariant
                n == self@.subtables.len(),
                i <= n,
                display_glyph_from(self@.subtables, c, 0) == display_glyph_from(
                    self@.subtables,
                    c,
                    i as nat,
                ),
            decreases n - i,
        {
            assert(self@.subtables[i as int] == self.subtables@[i as int]@);
            match &self.subtables[i] {
                CmapSubtable::Format0(format0) => {
                    let cmap_index = from_byte_to_cmap_index(c);
                    return DisplayGlyph::Index(format0.glyph_index_array[cmap_index] as usize);
                },
                CmapSubtable::Format4(_) => {
                    return DisplayGlyph::SegmentTableFirst;
                },
                CmapSubtable::Unhandled { .. } => {},
            }
            i = i + 1;
        }
        DisplayGlyph::NoByteTable
    }
}

} // verus!
