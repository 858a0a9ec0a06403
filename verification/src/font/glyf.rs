//! The `glyf` table: glyph outlines.
use vstd::prelude::*;

verus! {

/// All glyphs of the font, in glyph-index order.
#[derive(Debug)]
pub struct Glyf {
    pub glyphs: Vec<GlyfData>,
}

/// One glyph: its bounding box and its outline.
///
/// A number of contours that is zero or more makes a simple glyph; a negative
/// one makes a compound glyph.
#[derive(Debug)]
pub struct GlyfData {
    pub number_of_contours: i16,
    pub x_min: i16,
    pub y_min: i16,
    pub x_max: i16,
    pub y_max: i16,
    pub definition: GlyfDefinition,
}

/// The outline of a glyph.
#[derive(Debug)]
pub enum GlyfDefinition {
    Simple(SimpleGlyfDefinition),
    Compound,
}

/// The outline of a simple glyph.
///
/// `end_pts_of_contours[k]` is the index of the last point of contour `k`;
/// `flags`, `x_coordinates` and `y_coordinates` hold one entry per point.
#[derive(Debug)]
pub struct SimpleGlyfDefinition {
    pub end_pts_of_contours: Vec<u16>,
    pub instruction_length: u16,
    pub instructions: Vec<u8>,
    pub flags: Vec<GlyfFlag>,
    pub x_coordinates: Vec<i16>,
    pub y_coordinates: Vec<i16>,
}

/// The flags of one outline point, decoded from its flag byte.
#[derive(Clone, Copy, Debug, PartialEq, Eq, Structural)]
pub struct GlyfFlag {
    pub on_curve: bool,
    pub x_short_vector: bool,
    pub y_short_vector: bool,
    pub this_x_is_same: bool,
    pub this_y_is_same: bool,
    pub original_flag: u8,
}

/// The value of a simple outline.
pub struct SimpleGlyfView {
    pub end_pts_of_contours: Seq<u16>,
    pub instruction_length: u16,
    pub instructions: Seq<u8>,
    pub flags: Seq<GlyfFlag>,
    pub x_coordinates: Seq<i16>,
    pub y_coordinates: Seq<i16>,
}

/// The value of an outline.
pub enum GlyfDefinitionView {
    Simple(SimpleGlyfView),
    Compound,
}

/// The value of a glyph.
pub struct GlyfDataView {
    pub number_of_contours: i16,
    pub x_min: i16,
    pub y_min: i16,
    pub x_max: i16,
    pub y_max: i16,
    pub definition: GlyfDefinitionView,
}

impl View for SimpleGlyfDefinition {
    type V = SimpleGlyfView;

    open spec fn view(&self) -> SimpleGlyfView {
        SimpleGlyfView {
            end_pts_of_contours: self.end_pts_of_contours@,
            instruction_length: self.instruction_length,
            instructions: self.instructions@,
            flags: self.flags@,
            x_coordinates: self.x_coordinates@,
            y_coordinates: self.y_coordinates@,
        }
    }
}

impl View for GlyfDefinition {
    type V = GlyfDefinitionView;

    open spec fn view(&self) -> GlyfDefinitionView {
        match self {
            GlyfDefinition::Simple(s) => GlyfDefinitionView::Simple(s@),
            GlyfDefinition::Compound => GlyfDefinitionView::Compound,
        }
    }
}

impl View for GlyfData {
    type V = GlyfDataView;

    open spec fn view(&self) -> GlyfDataView {
        GlyfDataView {
            number_of_contours: self.number_of_contours,
            x_min: self.x_min,
            y_min: self.y_min,
            x_max: self.x_max,
            y_max: self.y_max,
            definition: self.definition@,
        }
    }
}

impl View for Glyf {
    type V = Seq<GlyfDataView>;

    open spec fn view(&self) -> Seq<GlyfDataView> {
        self.glyphs@.map_values(|g: GlyfData| g@)
    }
}

/// The outline of a glyph without contours.
pub open spec fn empty_simple_view() -> SimpleGlyfView {
    SimpleGlyfView {
        end_pts_of_contours: Seq::empty(),
        instruction_length: 0,
        instructions: Seq::empty(),
        flags: Seq::empty(),
        x_coordinates: Seq::empty(),
        y_coordinates: Seq::empty(),
    }
}

/// A simple outline without contours, points or instructions.
pub fn empty_simple_definition() -> (res: SimpleGlyfDefinition)
    ensures
        res@ == empty_simple_view(),
{
    SimpleGlyfDefinition {
        end_pts_of_contours: Vec::new(),
        instruction_length: 0,
        instructions: Vec::new(),
        flags: Vec::new(),
        x_coordinates: Vec::new(),
        y_coordinates: Vec::new(),
    }
}

} // verus!
