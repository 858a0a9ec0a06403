//! From glyph coordinates to pixel positions, and the choices the edge
//! drawing makes.
use vstd::prelude::*;
use crate::font::glyf::GlyfData;
use crate::rasterizer::geometry::{distance, in_i16, spec_distance};
use crate::rasterizer::pixel_map::PixelInfo;

verus! {

/// `value - min` as a pixel offset plus `extra`: `None` where the difference
/// leaves `i16` or the sum leaves `usize`. A negative difference is taken as
/// `usize` does, modulo `usize::MAX + 1`.
pub open spec fn pixel_offset(value: i16, min: i16, extra: usize) -> Option<usize> {
    let d = value - min;
    if !in_i16(d) {
        None
    } else {
        let u = ((d as i16) as usize) as int;
        if u + extra > usize::MAX {
            None
        } else {
            Some((u + extra) as usize)
        }
    }
}

/// The exec form of `pixel_offset`.
pub fn offset_in_pixels(value: i16, min: i16, extra: usize) -> (res: Option<usize>)
    ensures
        res == pixel_offset(value, min, extra),
{
    let d = value as i32 - min as i32;
    if d < -32768 || d > 32767 {
        return None;
    }
    let u = (d as i16) as usize;
    u.checked_add(extra)
}

/// The pixel of the point `(x, y)` of `glyph` on a canvas with `padding`
/// pixels of margin around the bounding box (half on each side).
pub open spec fn glyph_pixel_of(x_min: i16, y_min: i16, padding: usize, x: i16, y: i16) -> Option<
    (usize, usize),
> {
    match (pixel_offset(x, x_min, padding / 2), pixel_offset(y, y_min, padding / 2)) {
        (Some(px), Some(py)) => Some((px, py)),
        _ => None,
    }
}

/// The pixel of the point `(x, y)` of `glyph`; `None` where the arithmetic
/// overflows.
pub fn glyph_pixel(glyph: &GlyfData, padding: usize, x: i16, y: i16) -> (res: Option<(usize, usize)>)
    ensures
        res == glyph_pixel_of(glyph.x_min, glyph.y_min, padding, x, y),
{
    let px = match offset_in_pixels(x, glyph.x_min, padding / 2) {
        Some(v) => v,
        None => {
            return None;
        },
    };
    match offset_in_pixels(y, glyph.y_min, padding / 2) {
        Some(py) => Some((px, py)),
        None => None,
    }
}

/// The width and height of the canvas of `glyph`: its bounding box plus
/// `padding` pixels in each direction; `None` where the arithmetic overflows.
pub open spec fn canvas_of(
    x_min: i16,
    y_min: i16,
    x_max: i16,
    y_max: i16,
    padding: usize,
) -> Option<(usize, usize)> {
    match (pixel_offset(y_max, y_min, padding), pixel_offset(x_max, x_min, padding)) {
        (Some(height), Some(width)) => Some((width, height)),
        _ => None,
    }
}

/// The width and height of the canvas of `glyph`.
pub fn canvas_size(glyph: &GlyfData, padding: usize) -> (res: Option<(usize, usize)>)
    ensures
        res == canvas_of(glyph.x_min, glyph.y_min, glyph.x_max, glyph.y_max, padding),
{
    let height = match offset_in_pixels(glyph.y_max, glyph.y_min, padding) {
        Some(v) => v,
        None => {
            return None;
        },
    };
    match offset_in_pixels(glyph.x_max, glyph.x_min, padding) {
        Some(width) => Some((width, height)),
        None => None,
    }
}

/// The mark an edge leaves in the pixels it crosses: `Zero` for an edge that
/// goes down (its start above its end), `One` otherwise.
pub open spec fn edge_mark(start_y: i16, end_y: i16) -> PixelInfo {
    if start_y > end_y {
        PixelInfo::Zero
    } else {
        PixelInfo::One
    }
}

/// The exec form of `edge_mark`.
pub fn edge_direction(start_y: i16, end_y: i16) -> (res: PixelInfo)
    ensures
        res == edge_mark(start_y, end_y),
{
    if start_y > end_y {
        PixelInfo::Zero
    } else {
        PixelInfo::One
    }
}

/// The number of steps a curve is drawn in: ten per unit of the length of
/// its control polygon, the two distances rounded down. The count must fit
/// in `u16`.
pub open spec fn curve_steps_of(p0: (i16, i16), p1: (i16, i16), p2: (i16, i16)) -> int {
    (spec_distance(p0, p1) + spec_distance(p1, p2)) * 10
}

/// The exec form of `curve_steps_of`.
pub fn curve_steps(p0: (i16, i16), p1: (i16, i16), p2: (i16, i16)) -> (res: u16)
    requires
        spec_distance(p0, p1) + spec_distance(p1, p2) <= 6553,
    ensures
        res == curve_steps_of(p0, p1, p2),
{
    let a = distance(p0, p1);
    let b = distance(p1, p2);
    (a + b) * 10
}

} // verus!
