//! The pixels a glyph image is painted with: the scanline fill of the
//! outline drawn into a `PixelMap`, and the glyph's points.
use vstd::prelude::*;
use crate::font::glyf::{GlyfData, SimpleGlyfDefinition};
use crate::rasterizer::pixel_map::{PixelInfo, PixelMap};
use crate::rasterizer::plot::{offset_in_pixels, pixel_offset};

verus! {

/// One pixel of the image to paint, with its colour; the image's y axis
/// points down, so a map row `y` is image row `height - y`.
#[derive(Clone, Copy, Debug, PartialEq, Eq, Structural)]
pub struct Paint {
    pub x: usize,
    pub y: usize,
    pub colour: u32,
}

/// The colour of a pixel that the outline passes through.
pub open spec fn contour_colour() -> u32 {
    0x44FF0000
}

/// The colour of a pixel inside the glyph.
pub open spec fn inside_colour() -> u32 {
    0xFF440000
}

/// Whether `v` is a value of `i32`.
pub open spec fn in_i32(v: int) -> bool {
    i32::MIN <= v <= i32::MAX
}

/// The crossing count of a scan along row `y` from column `x0` to the
/// right edge `width`, given the count so far, the direction of the last
/// edge crossed (1 for down, -1 for up, 0 for none) and whether a vertex was
/// passed since the last empty pixel; `None` when the count leaves `i32`.
///
/// A run of edge pixels counts once: a downward edge adds one and an upward
/// edge takes one away, unless the same direction was just counted or a
/// vertex was passed. An invisible vertex takes back the last edge counted;
/// a visible vertex counts by its kind.
pub open spec fn scan_row(
    cells: Seq<PixelInfo>,
    w: nat,
    y: int,
    x0: int,
    width: int,
    count: int,
    last: int,
    touched: bool,
) -> Option<int>
    decreases width - x0,
{
    if x0 >= width {
        Some(count)
    } else {
        match cells[x0 + y * w] {
            PixelInfo::Empty => scan_row(cells, w, y, x0 + 1, width, count, 0, false),
            PixelInfo::Zero => if last != 1 && !touched {
                if !in_i32(count + 1) {
                    None
                } else {
                    scan_row(cells, w, y, x0 + 1, width, count + 1, 1, touched)
                }
            } else {
                scan_row(cells, w, y, x0 + 1, width, count, last, touched)
            },
            PixelInfo::One => if last != -1 && !touched {
                if !in_i32(count - 1) {
                    None
                } else {
                    scan_row(cells, w, y, x0 + 1, width, count - 1, -1, touched)
                }
            } else {
                scan_row(cells, w, y, x0 + 1, width, count, last, touched)
            },
            PixelInfo::InvisibleVertex => if !in_i32(count - last) {
                None
            } else {
                scan_row(cells, w, y, x0 + 1, width, count - last, 0, true)
            },
            PixelInfo::VisibleVertexZero => if !in_i32(count + 1) {
                None
            } else {
                scan_row(cells, w, y, x0 + 1, width, count + 1, last, true)
            },
            PixelInfo::VisibleVertexOne => if !in_i32(count - 1) {
                None
            } else {
                scan_row(cells, w, y, x0 + 1, width, count - 1, last, true)
            },
        }
    }
}

/// The paint of pixel `(x, y)`: the contour colour on the outline, the
/// inside colour for an empty pixel whose scan to the right edge ends with a
/// nonzero crossing count, nothing for other empty pixels; `None` when the
/// count overflows.
pub open spec fn cell_paint(
    cells: Seq<PixelInfo>,
    w: nat,
    width: int,
    height: int,
    x: int,
    y: int,
) -> Option<Seq<Paint>> {
    if cells[x + y * w] != PixelInfo::Empty {
        Some(seq![Paint { x: x as usize, y: (height - y) as usize, colour: contour_colour() }])
    } else {
        match scan_row(cells, w, y, x + 1, width, 0, 0, false) {
            None => None,
            Some(count) => if count != 0 {
                Some(seq![Paint { x: x as usize, y: (height - y) as usize, colour: inside_colour() }])
            } else {
                Some(Seq::empty())
            },
        }
    }
}

/// `a` and then `b`, when both are there.
pub open spec fn join_paints(a: Option<Seq<Paint>>, b: Option<Seq<Paint>>) -> Option<Seq<Paint>> {
    match (a, b) {
        (Some(p), Some(q)) => Some(p + q),
        _ => None,
    }
}

/// The paints of the pixels `(x, 0..y)`.
pub open spec fn column_paints(
    cells: Seq<PixelInfo>,
    w: nat,
    width: int,
    height: int,
    x: int,
    y: nat,
) -> Option<Seq<Paint>>
    decreases y,
{
    if y == 0 {
        Some(Seq::empty())
    } else {
        join_paints(
            column_paints(cells, w, width, height, x, (y - 1) as nat),
            cell_paint(cells, w, width, height, x, y - 1),
        )
    }
}

/// The paints of the columns `0..x`, each from top row 0 down.
pub open spec fn fill_paints(cells: Seq<PixelInfo>, w: nat, width: int, height: int, x: nat) -> Option<
    Seq<Paint>,
>
    decreases x,
{
    if x == 0 {
        Some(Seq::empty())
    } else {
        join_paints(
            fill_paints(cells, w, width, height, (x - 1) as nat),
            column_paints(cells, w, width, height, x - 1, height as nat),
        )
    }
}

/// The paints of the scanline fill of a `width` by `height` map; `None` when
/// the map is too small or a crossing count overflows.
pub open spec fn fill_of(cells: Seq<PixelInfo>, w: nat, width: nat, height: nat) -> Option<Seq<Paint>> {
    if width > 0 && height > 0 && (width - 1) + (height - 1) * w >= cells.len() {
        None
    } else {
        fill_paints(cells, w, width as int, height as int, width)
    }
}

/// Every pixel of a `width` by `height` map lies at or before its last pixel.
proof fn lemma_cell_before_last(x: int, y: int, w: int, width: int, height: int)
    requires
        0 <= x < width,
        0 <= y < height,
        0 <= w,
    ensures
        0 <= y * w,
        x + y * w <= (width - 1) + (height - 1) * w,
{
    assert(y * w <= (height - 1) * w) by (nonlinear_arith)
        requires
            0 <= y <= height - 1,
            0 <= w,
    ;
    assert(0 <= y * w) by (nonlinear_arith)
        requires
            0 <= y,
            0 <= w,
    ;
}

/// A column whose first `a` paints fail fails from there on.
proof fn lemma_column_failure_stays(
    cells: Seq<PixelInfo>,
    w: nat,
    width: int,
    height: int,
    x: int,
    a: nat,
    b: nat,
)
    requires
        a <= b,
        column_paints(cells, w, width, height, x, a) is None,
    ensures
        column_paints(cells, w, width, height, x, b) is None,
    decreases b,
{
    if a < b {
        lemma_column_failure_stays(cells, w, width, height, x, a, (b - 1) as nat);
    }
}

/// A fill whose column `a - 1` fails fails for all columns from there on.
proof fn lemma_fill_failure_stays(
    cells: Seq<PixelInfo>,
    w: nat,
    width: int,
    height: int,
    a: nat,
    b: nat,
)
    requires
        a <= b,
        1 <= a,
        column_paints(cells, w, width, height, a - 1, height as nat) is None,
    ensures
        fill_paints(cells, w, width, height, b) is None,
    decreases b,
{
    if a < b {
        lemma_fill_failure_stays(cells, w, width, height, a, (b - 1) as nat);
    }
}

/// The crossing count of the scan of row `y` right of column `x`.
fn scan_right(pixel_map: &PixelMap, width: usize, height: usize, x: usize, y: usize) -> (res: Option<
    i32,
>)
    requires
        x < width,
        y < height,
        (width - 1) + (height - 1) * pixel_map.spec_width() < pixel_map.cells().len(),
    ensures
        match scan_row(
            pixel_map.cells(),
            pixel_map.spec_width(),
            y as int,
            x + 1,
            width as int,
            0,
            0,
            false,
        ) {
            Some(c) => res matches Some(v) && v as int == c,
            None => res is None,
        },
{
    let ghost cells = pixel_map.cells();
    let ghost w = pixel_map.spec_width();
    let mut x0 = x + 1;
    let mut count: i32 = 0;
    let mut last: i32 = 0;
    let mut touched = false;
    while x0 < width
        invariant
            cells == pixel_map.cells(),
            w == pixel_map.spec_width(),
            x < x0 <= width,
            y < height,
            (width - 1) + (height - 1) * w < cells.len(),
            -1 <= last <= 1,
            scan_row(cells, w, y as int, x + 1, width as int, 0, 0, false) == scan_row(
                cells,
                w,
                y as int,
                x0 as int,
                width as int,
                count as int,
                last as int,
                touched,
            ),
        decreases width - x0,
    {
        proof {
            lemma_cell_before_last(x0 as int, y as int, w as int, width as int, height as int);
        }
        match pixel_map.get_unchecked(x0, y) {
            PixelInfo::Empty => {
                last = 0;
                touched = false;
            },
            PixelInfo::Zero => {
                if last != 1 && !touched {
                    count = match count.checked_add(1) {
                        Some(c) => c,
                        None => {
                            return None;
                        },
                    };
                    last = 1;
                }
            },
            PixelInfo::One => {
                if last != -1 && !touched {
                    count = match count.checked_sub(1) {
                        Some(c) => c,
                        None => {
                            return None;
                        },
                    };
                    last = -1;
                }
            },
            PixelInfo::InvisibleVertex => {
                count = match count.checked_sub(last) {
                    Some(c) => c,
                    None => {
                        return None;
                    },
                };
                last = 0;
                touched = true;
            },
            PixelInfo::VisibleVertexZero => {
                count = match count.checked_add(1) {
                    Some(c) => c,
                    None => {
                        return None;
                    },
                };
                touched = true;
            },
            PixelInfo::VisibleVertexOne => {
                count = match count.checked_sub(1) {
                    Some(c) => c,
                    None => {
                        return None;
                    },
                };
                touched = true;
            },
        }
        x0 = x0 + 1;
    }
    Some(count)
}

/// The paints of the scanline fill of the first `width` columns and `height`
/// rows of `pixel_map`: each outline pixel in the contour colour and each
/// inside pixel in the inside colour, column by column; `None` when the map
/// is too small or a crossing count leaves `i32`.
pub fn fill_glyph(width: usize, height: usize, pixel_map: &PixelMap) -> (res: Option<Vec<Paint>>)
    ensures
        match fill_of(pixel_map.cells(), pixel_map.spec_width(), width as nat, height as nat) {
            Some(p) => res matches Some(v) && v@ == p,
            None => res is None,
        },
{
    let ghost cells = pixel_map.cells();
    let ghost w = pixel_map.spec_width();
    if width > 0 && height > 0 && !pixel_map.contains(width - 1, height - 1) {
        return None;
    }
    let mut paints: Vec<Paint> = Vec::new();
    let mut x: usize = 0;
    while x < width
        invariant
            cells == pixel_map.cells(),
            w == pixel_map.spec_width(),
            x <= width,
            width > 0 && height > 0 ==> (width - 1) + (height - 1) * w < cells.len(),
            fill_paints(cells, w, width as int, height as int, x as nat) == Some(paints@),
        decreases width - x,
    {
        let ghost before_x = paints@;
        let mut y: usize = 0;
        assert(before_x + Seq::<Paint>::empty() =~= before_x);
        while y < height
            invariant
                cells == pixel_map.cells(),
                w == pixel_map.spec_width(),
                x < width,
                y <= height,
                height > 0 ==> (width - 1) + (height - 1) * w < cells.len(),
                fill_paints(cells, w, width as int, height as int, x as nat) == Some(before_x),
                column_paints(cells, w, width as int, height as int, x as int, y as nat) matches Some(
                    col,
                ) && paints@ == before_x + col,
            decreases height - y,
        {
            proof {
                lemma_cell_before_last(x as int, y as int, w as int, width as int, height as int);
            }
            let ghost before_y = paints@;
            let ghost col = column_paints(cells, w, width as int, height as int, x as int, y as nat)->0;
            match pixel_map.get_unchecked(x, y) {
                PixelInfo::Empty => {
                    match scan_right(pixel_map, width, height, x, y) {
                        Some(count) => {
                            if count != 0 {
                                paints.push(Paint { x, y: height - y, colour: 0xFF440000 });
                            }
                        },
                        None => {
                            proof {
                                lemma_column_failure_stays(
                                    cells,
                                    w,
                                    width as int,
                                    height as int,
                                    x as int,
                                    (y + 1) as nat,
                                    height as nat,
                                );
                                lemma_fill_failure_stays(
                                    cells,
                                    w,
                                    width as int,
                                    height as int,
                                    (x + 1) as nat,
                                    width as nat,
                                );
                            }
                            return None;
                        },
                    }
                },
                _ => {
                    paints.push(Paint { x, y: height - y, colour: 0x44FF0000 });
                },
            }
            proof {
                let cell = cell_paint(cells, w, width as int, height as int, x as int, y as int)->0;
                assert(paints@ =~= before_y + cell);
                assert(before_x + (col + cell) =~= paints@);
            }
            y = y + 1;
        }
        proof {
            let col = column_paints(cells, w, width as int, height as int, x as int, height as nat)->0;
            assert(paints@ == before_x + col);
        }
        x = x + 1;
    }
    Some(paints)
}

/// The colour of the marker of an on-curve point.
pub open spec fn on_curve_colour() -> u32 {
    0x000000
}

/// The colour of the marker of an off-curve point.
pub open spec fn off_curve_colour() -> u32 {
    0x00FF00
}

/// The paint of point `(x, y)` of a glyph, shifted by `shift`, on an image
/// `height` rows high; `None` where the arithmetic overflows.
pub open spec fn point_paint(
    x: i16,
    y: i16,
    on_curve: bool,
    shift: (usize, usize),
    x_min: i16,
    y_min: i16,
    padding: usize,
    height: usize,
) -> Option<Paint> {
    match (pixel_offset(x, x_min, padding / 2), pixel_offset(y, y_min, padding / 2)) {
        (Some(px), Some(py)) => if px + shift.0 > usize::MAX || py + shift.1 > usize::MAX || py
            + shift.1 > height {
            None
        } else {
            Some(
                Paint {
                    x: (px + shift.0) as usize,
                    y: (height - (py + shift.1)) as usize,
                    colour: if on_curve {
                        on_curve_colour()
                    } else {
                        off_curve_colour()
                    },
                },
            )
        },
        _ => None,
    }
}

/// The number of points of an outline: the shortest of its three arrays.
pub open spec fn point_count(
    xs: Seq<i16>,
    ys: Seq<i16>,
    flags: Seq<crate::font::glyf::GlyfFlag>,
) -> nat {
    let a = if xs.len() <= ys.len() { xs.len() } else { ys.len() };
    if a <= flags.len() {
        a
    } else {
        flags.len()
    }
}

/// The paints of point `i` for the shifts `0..k`.
pub open spec fn shifted_paints(
    def: crate::font::glyf::SimpleGlyfView,
    shifts: Seq<(usize, usize)>,
    x_min: i16,
    y_min: i16,
    padding: usize,
    height: usize,
    i: int,
    k: nat,
) -> Option<Seq<Paint>>
    decreases k,
{
    if k == 0 {
        Some(Seq::empty())
    } else {
        match point_paint(
            def.x_coordinates[i],
            def.y_coordinates[i],
            def.flags[i].on_curve,
            shifts[k - 1],
            x_min,
            y_min,
            padding,
            height,
        ) {
            Some(p) => join_paints(
                shifted_paints(def, shifts, x_min, y_min, padding, height, i, (k - 1) as nat),
                Some(seq![p]),
            ),
            None => None,
        }
    }
}

/// The paints of the points `0..i`, each with all shifts.
pub open spec fn points_paints(
    def: crate::font::glyf::SimpleGlyfView,
    shifts: Seq<(usize, usize)>,
    x_min: i16,
    y_min: i16,
    padding: usize,
    height: usize,
    i: nat,
) -> Option<Seq<Paint>>
    decreases i,
{
    if i == 0 {
        Some(Seq::empty())
    } else {
        join_paints(
            points_paints(def, shifts, x_min, y_min, padding, height, (i - 1) as nat),
            shifted_paints(def, shifts, x_min, y_min, padding, height, i - 1, shifts.len()),
        )
    }
}

/// Shifts of a point whose first `a` paints fail fail from there on.
proof fn lemma_shifted_failure_stays(
    def: crate::font::glyf::SimpleGlyfView,
    shifts: Seq<(usize, usize)>,
    x_min: i16,
    y_min: i16,
    padding: usize,
    height: usize,
    i: int,
    a: nat,
    b: nat,
)
    requires
        a <= b,
        shifted_paints(def, shifts, x_min, y_min, padding, height, i, a) is None,
    ensures
        shifted_paints(def, shifts, x_min, y_min, padding, height, i, b) is None,
    decreases b,
{
    if a < b {
        lemma_shifted_failure_stays(def, shifts, x_min, y_min, padding, height, i, a, (b - 1) as nat);
    }
}

/// Points whose paints fail at point `a - 1` fail from there on.
proof fn lemma_points_failure_stays(
    def: crate::font::glyf::SimpleGlyfView,
    shifts: Seq<(usize, usize)>,
    x_min: i16,
    y_min: i16,
    padding: usize,
    height: usize,
    a: nat,
    b: nat,
)
    requires
        1 <= a <= b,
        shifted_paints(def, shifts, x_min, y_min, padding, height, a - 1, shifts.len()) is None,
    ensures
        points_paints(def, shifts, x_min, y_min, padding, height, b) is None,
    decreases b,
{
    if a < b {
        lemma_points_failure_stays(def, shifts, x_min, y_min, padding, height, a, (b - 1) as nat);
    }
}

/// The exec form of `point_paint`.
fn paint_point(
    x: i16,
    y: i16,
    on_curve: bool,
    shift: (usize, usize),
    glyph: &GlyfData,
    padding: usize,
    height: usize,
) -> (res: Option<Paint>)
    ensures
        res == point_paint(x, y, on_curve, shift, glyph.x_min, glyph.y_min, padding, height),
{
    let px = match offset_in_pixels(x, glyph.x_min, padding / 2) {
        Some(v) => v,
        None => {
            return None;
        },
    };
    let py = match offset_in_pixels(y, glyph.y_min, padding / 2) {
        Some(v) => v,
        None => {
            return None;
        },
    };
    let ix = match px.checked_add(shift.0) {
        Some(v) => v,
        None => {
            return None;
        },
    };
    let iy = match py.checked_add(shift.1) {
        Some(v) => v,
        None => {
            return None;
        },
    };
    if iy > height {
        return None;
    }
    let colour: u32 = if on_curve { 0x000000 } else { 0x00FF00 };
    Some(Paint { x: ix, y: height - iy, colour })
}

/// The paints that mark the points of a simple outline: each point, shifted
/// by each of `variations_of_big`, black when on the curve and green when
/// off it; `None` where the arithmetic overflows.
pub fn draw_points(
    glyph: &GlyfData,
    padding: usize,
    variations_of_big: &Vec<(usize, usize)>,
    height: usize,
    simple_glyf_definition: &SimpleGlyfDefinition,
) -> (res: Option<Vec<Paint>>)
    ensures
        match points_paints(
            simple_glyf_definition@,
            variations_of_big@,
            glyph.x_min,
            glyph.y_min,
            padding,
            height,
            point_count(
                simple_glyf_definition@.x_coordinates,
                simple_glyf_definition@.y_coordinates,
                simple_glyf_definition@.flags,
            ),
        ) {
            Some(p) => res matches Some(v) && v@ == p,
            None => res is None,
        },
{
    let ghost def = simple_glyf_definition@;
    let ghost shifts = variations_of_big@;
    let xs = &simple_glyf_definition.x_coordinates;
    let ys = &simple_glyf_definition.y_coordinates;
    let flags = &simple_glyf_definition.flags;
    let mut n = xs.len();
    if ys.len() < n {
        n = ys.len();
    }
    if flags.len() < n {
        n = flags.len();
    }
    assert(n == point_count(def.x_coordinates, def.y_coordinates, def.flags));
    let mut paints: Vec<Paint> = Vec::new();
    let mut i: usize = 0;
    while i < n
        invariant
            def == simple_glyf_definition@,
            shifts == variations_of_big@,
            n == point_count(def.x_coordinates, def.y_coordinates, def.flags),
            xs@ == def.x_coordinates,
            ys@ == def.y_coordinates,
            flags@ == def.flags,
            i <= n,
            points_paints(def, shifts, glyph.x_min, glyph.y_min, padding, height, i as nat) == Some(
                paints@,
            ),
        decreases n - i,
    {
        let ghost before_i = paints@;
        let x = xs[i];
        let y = ys[i];
        let on_curve = flags[i].on_curve;
        let mut k: usize = 0;
        assert(before_i + Seq::<Paint>::empty() =~= before_i);
        while k < variations_of_big.len()
            invariant
                def == simple_glyf_definition@,
                shifts == variations_of_big@,
                n == point_count(def.x_coordinates, def.y_coordinates, def.flags),
                i < n,
                x == def.x_coordinates[i as int],
                y == def.y_coordinates[i as int],
                on_curve == def.flags[i as int].on_curve,
                k <= shifts.len(),
                points_paints(def, shifts, glyph.x_min, glyph.y_min, padding, height, i as nat)
                    == Some(before_i),
                shifted_paints(
                    def,
                    shifts,
                    glyph.x_min,
                    glyph.y_min,
                    padding,
                    height,
                    i as int,
                    k as nat,
                ) matches Some(sp) && paints@ == before_i + sp,
            decreases shifts.len() - k,
        {
            let ghost sp = shifted_paints(
                def,
                shifts,
                glyph.x_min,
                glyph.y_min,
                padding,
                height,
                i as int,
                k as nat,
            )->0;
            match paint_point(x, y, on_curve, variations_of_big[k], glyph, padding, height) {
                Some(p) => {
                    paints.push(p);
                    assert(paints@ =~= before_i + (sp + seq![p]));
                },
                None => {
                    proof {
                        lemma_shifted_failure_stays(
                            def,
                            shifts,
                            glyph.x_min,
                            glyph.y_min,
                            padding,
                            height,
                            i as int,
                            (k + 1) as nat,
                            shifts.len(),
                        );
                        lemma_points_failure_stays(
                            def,
                            shifts,
                            glyph.x_min,
                            glyph.y_min,
                            padding,
                            height,
                            (i + 1) as nat,
                            n as nat,
                        );
                    }
                    return None;
                },
            }
            k = k + 1;
        }
        i = i + 1;
    }
    Some(paints)
}


/// The paint in the contour colour of map pixel `(x, y)`.
pub open spec fn outline_paint(x: int, y: int, height: int) -> Paint {
    Paint { x: x as usize, y: (height - y) as usize, colour: contour_colour() }
}

/// Whether paint `p` is the one paint of the map pixel that it lies on.
pub open spec fn paint_of_its_cell(
    cells: Seq<PixelInfo>,
    w: nat,
    width: int,
    height: int,
    p: Paint,
) -> bool {
    &&& 0 <= height - p.y < height
    &&& p.x < width
    &&& cell_paint(cells, w, width, height, p.x as int, height - p.y) == Some(seq![p])
}

/// Whether the pixels of row `y` right of column `x`, up to `width`, are all empty.
pub open spec fn empty_to_the_right(cells: Seq<PixelInfo>, w: nat, x: int, y: int, width: int) -> bool {
    forall|x2: int| x < x2 < width ==> #[trigger] cells[x2 + y * w] == PixelInfo::Empty
}

/// A scan over empty pixels keeps its count.
proof fn lemma_scan_over_empty(
    cells: Seq<PixelInfo>,
    w: nat,
    y: int,
    x0: int,
    width: int,
    count: int,
    last: int,
    touched: bool,
)
    requires
        forall|x2: int| x0 <= x2 < width ==> #[trigger] cells[x2 + y * w] == PixelInfo::Empty,
    ensures
        scan_row(cells, w, y, x0, width, count, last, touched) == Some(count),
    decreases width - x0,
{
    if x0 < width {
        assert(cells[x0 + y * w] == PixelInfo::Empty);
        lemma_scan_over_empty(cells, w, y, x0 + 1, width, count, 0, false);
    }
}

/// Each paint of column `x`, rows `0..n`, is the paint of its own pixel.
proof fn lemma_column_paints_sound(
    cells: Seq<PixelInfo>,
    w: nat,
    width: int,
    height: int,
    x: int,
    n: nat,
)
    requires
        0 <= x < width,
        n <= height <= usize::MAX,
        x <= usize::MAX,
    ensures
        column_paints(cells, w, width, height, x, n) matches Some(ps) ==> forall|k: int|
            #![trigger ps[k]]
            0 <= k < ps.len() ==> ps[k].x == x && height - ps[k].y < n && paint_of_its_cell(
                cells,
                w,
                width,
                height,
                ps[k],
            ),
    decreases n,
{
    if n > 0 {
        lemma_column_paints_sound(cells, w, width, height, x, (n - 1) as nat);
        let y = n - 1;
        match (column_paints(cells, w, width, height, x, (n - 1) as nat), cell_paint(cells, w, width, height, x, y)) {
            (Some(before), Some(c)) => {
                let ps = before + c;
                assert forall|k: int| #![trigger ps[k]] 0 <= k < ps.len() implies ps[k].x == x
                    && height - ps[k].y < n && paint_of_its_cell(cells, w, width, height, ps[k]) by {
                    if k < before.len() {
                        assert(ps[k] == before[k]);
                    } else {
                        assert(c.len() == 1);
                        assert(ps[k] == c[0]);
                        assert(height - c[0].y == y);
                        assert(c =~= seq![c[0]]);
                    }
                }
            },
            _ => {},
        }
    }
}

/// Each paint of the columns `0..m` is the paint of its own pixel.
proof fn lemma_fill_paints_sound(cells: Seq<PixelInfo>, w: nat, width: int, height: int, m: nat)
    requires
        m <= width <= usize::MAX,
        0 <= height <= usize::MAX,
    ensures
        fill_paints(cells, w, width, height, m) matches Some(ps) ==> forall|k: int|
            #![trigger ps[k]]
            0 <= k < ps.len() ==> ps[k].x < m && paint_of_its_cell(cells, w, width, height, ps[k]),
    decreases m,
{
    if m > 0 {
        lemma_fill_paints_sound(cells, w, width, height, (m - 1) as nat);
        lemma_column_paints_sound(cells, w, width, height, m - 1, height as nat);
        match (fill_paints(cells, w, width, height, (m - 1) as nat), column_paints(cells, w, width, height, m - 1, height as nat)) {
            (Some(before), Some(col)) => {
                let ps = before + col;
                assert forall|k: int| #![trigger ps[k]] 0 <= k < ps.len() implies ps[k].x < m
                    && paint_of_its_cell(cells, w, width, height, ps[k]) by {
                    if k < before.len() {
                        assert(ps[k] == before[k]);
                    } else {
                        assert(ps[k] == col[k - before.len()]);
                    }
                }
            },
            _ => {},
        }
    }
}

/// Column `x`, rows `0..n`, paints each outline pixel among them.
proof fn lemma_column_paints_outline(
    cells: Seq<PixelInfo>,
    w: nat,
    width: int,
    height: int,
    x: int,
    n: nat,
    y: int,
)
    requires
        0 <= y < n,
        cells[x + y * w] != PixelInfo::Empty,
    ensures
        column_paints(cells, w, width, height, x, n) matches Some(ps) ==> ps.contains(
            outline_paint(x, y, height),
        ),
    decreases n,
{
    match (column_paints(cells, w, width, height, x, (n - 1) as nat), cell_paint(cells, w, width, height, x, n - 1)) {
        (Some(before), Some(c)) => {
            let ps = before + c;
            if y < n - 1 {
                lemma_column_paints_outline(cells, w, width, height, x, (n - 1) as nat, y);
                let k = choose|k: int| 0 <= k < before.len() && before[k] == outline_paint(x, y, height);
                assert(ps[k] == before[k]);
            } else {
                assert(ps[before.len() as int] == c[0]);
            }
        },
        _ => {},
    }
}

/// The columns `0..m` paint each outline pixel among them.
proof fn lemma_fill_paints_outline(
    cells: Seq<PixelInfo>,
    w: nat,
    width: int,
    height: int,
    m: nat,
    x: int,
    y: int,
)
    requires
        0 <= x < m,
        0 <= y < height,
        cells[x + y * w] != PixelInfo::Empty,
    ensures
        fill_paints(cells, w, width, height, m) matches Some(ps) ==> ps.contains(
            outline_paint(x, y, height),
        ),
    decreases m,
{
    match (fill_paints(cells, w, width, height, (m - 1) as nat), column_paints(cells, w, width, height, m - 1, height as nat)) {
        (Some(before), Some(col)) => {
            let ps = before + col;
            if x < m - 1 {
                lemma_fill_paints_outline(cells, w, width, height, (m - 1) as nat, x, y);
                let k = choose|k: int| 0 <= k < before.len() && before[k] == outline_paint(x, y, height);
                assert(ps[k] == before[k]);
            } else {
                lemma_column_paints_outline(cells, w, width, height, x, height as nat, y);
                let k = choose|k: int| 0 <= k < col.len() && col[k] == outline_paint(x, y, height);
                assert(ps[before.len() + k] == col[k]);
            }
        },
        _ => {},
    }
}

/// The scanline fill paints every pixel of the outline in the contour
/// colour; it paints nothing on an empty pixel whose row is empty from there
/// to the right edge; and it uses no colour but the contour and the inside
/// colours.
pub proof fn law_fill_colours(cells: Seq<PixelInfo>, w: nat, width: nat, height: nat)
    requires
        width <= usize::MAX,
        height <= usize::MAX,
    ensures
        fill_of(cells, w, width, height) matches Some(ps) ==> {
            &&& forall|k: int|
                #![trigger ps[k]]
                0 <= k < ps.len() ==> ps[k].colour == contour_colour() || ps[k].colour
                    == inside_colour()
            &&& forall|x: int, y: int|
                #![trigger cells[x + y * w]]
                0 <= x < width && 0 <= y < height && cells[x + y * w] != PixelInfo::Empty
                    ==> ps.contains(outline_paint(x, y, height as int))
            &&& forall|x: int, y: int|
                #![trigger cells[x + y * w]]
                0 <= x < width && 0 <= y < height && cells[x + y * w] == PixelInfo::Empty
                    && empty_to_the_right(cells, w, x, y, width as int) ==> forall|k: int|
                    #![trigger ps[k]]
                    0 <= k < ps.len() ==> !(ps[k].x == x && ps[k].y == height - y)
        },
{
    if !(width > 0 && height > 0 && (width - 1) + (height - 1) * w >= cells.len()) {
        lemma_fill_paints_sound(cells, w, width as int, height as int, width);
        match fill_paints(cells, w, width as int, height as int, width) {
            Some(ps) => {
                assert forall|k: int| #![trigger ps[k]] 0 <= k < ps.len() implies ps[k].colour
                    == contour_colour() || ps[k].colour == inside_colour() by {
                    let c = cell_paint(cells, w, width as int, height as int, ps[k].x as int, height - ps[k].y);
                    assert(c->0[0] == ps[k]);
                }
                assert forall|x: int, y: int|
                    #![trigger cells[x + y * w]]
                    0 <= x < width && 0 <= y < height && cells[x + y * w] != PixelInfo::Empty
                        implies ps.contains(outline_paint(x, y, height as int)) by {
                    lemma_fill_paints_outline(cells, w, width as int, height as int, width, x, y);
                }
                assert forall|x: int, y: int|
                    #![trigger cells[x + y * w]]
                    0 <= x < width && 0 <= y < height && cells[x + y * w] == PixelInfo::Empty
                        && empty_to_the_right(cells, w, x, y, width as int) implies forall|k: int|
                        #![trigger ps[k]]
                        0 <= k < ps.len() ==> !(ps[k].x == x && ps[k].y == height - y) by {
                    lemma_scan_over_empty(cells, w, y, x + 1, width as int, 0, 0, false);
                    assert(cell_paint(cells, w, width as int, height as int, x, y) == Some(
                        Seq::<Paint>::empty(),
                    ));
                    assert forall|k: int| #![trigger ps[k]] 0 <= k < ps.len() implies !(ps[k].x
                        == x && ps[k].y == height - y) by {
                        if ps[k].x == x && ps[k].y == height - y {
                            assert(height - ps[k].y == y);
                            assert(seq![ps[k]].len() == 1);
                        }
                    }
                }
            },
            None => {},
        }
    }
}


/// The paint of point `point` with shift `shift` among paints made point by
/// point, `shift_count` shifts each.
pub open spec fn mark_of(ps: Seq<Paint>, shift_count: nat, point: int, shift: int) -> Paint {
    ps[point * shift_count + shift]
}

/// The shifts `0..m` of point `i` give one paint each, in order.
proof fn lemma_shifted_paints_in_order(
    def: crate::font::glyf::SimpleGlyfView,
    shifts: Seq<(usize, usize)>,
    x_min: i16,
    y_min: i16,
    padding: usize,
    height: usize,
    i: int,
    m: nat,
)
    ensures
        shifted_paints(def, shifts, x_min, y_min, padding, height, i, m) matches Some(sp) ==> {
            &&& sp.len() == m
            &&& forall|j: int|
                #![trigger sp[j]]
                0 <= j < m ==> point_paint(
                    def.x_coordinates[i],
                    def.y_coordinates[i],
                    def.flags[i].on_curve,
                    shifts[j],
                    x_min,
                    y_min,
                    padding,
                    height,
                ) == Some(sp[j])
        },
    decreases m,
{
    if m > 0 {
        lemma_shifted_paints_in_order(def, shifts, x_min, y_min, padding, height, i, (m - 1) as nat);
    }
}

/// The paints of the points `0..n` of a simple outline come point by point,
/// and for each point shift by shift, in order: the paint of point `k` with
/// shift `j` stands at `k` times the number of shifts plus `j`, and it is
/// the mark of that point so shifted, black when the point is on the curve
/// and green when it is off it.
pub proof fn law_marks_in_order(
    def: crate::font::glyf::SimpleGlyfView,
    shifts: Seq<(usize, usize)>,
    x_min: i16,
    y_min: i16,
    padding: usize,
    height: usize,
    n: nat,
)
    ensures
        points_paints(def, shifts, x_min, y_min, padding, height, n) matches Some(ps) ==> {
            &&& ps.len() == n * shifts.len()
            &&& forall|k: int, j: int|
                0 <= k < n && 0 <= j < shifts.len() ==> point_paint(
                    def.x_coordinates[k],
                    def.y_coordinates[k],
                    def.flags[k].on_curve,
                    shifts[j],
                    x_min,
                    y_min,
                    padding,
                    height,
                ) == Some(#[trigger] mark_of(ps, shifts.len(), k, j))
        },
    decreases n,
{
    let m = shifts.len();
    if n > 0 {
        law_marks_in_order(def, shifts, x_min, y_min, padding, height, (n - 1) as nat);
        lemma_shifted_paints_in_order(def, shifts, x_min, y_min, padding, height, n - 1, m);
        match (points_paints(def, shifts, x_min, y_min, padding, height, (n - 1) as nat), shifted_paints(def, shifts, x_min, y_min, padding, height, n - 1, m)) {
            (Some(before), Some(sp)) => {
                let ps = before + sp;
                assert(ps.len() == n * m) by (nonlinear_arith)
                    requires
                        ps.len() == before.len() + sp.len(),
                        before.len() == (n - 1) * m,
                        sp.len() == m,
                ;
                assert forall|k: int, j: int|
                    0 <= k < n && 0 <= j < m implies point_paint(
                        def.x_coordinates[k],
                        def.y_coordinates[k],
                        def.flags[k].on_curve,
                        shifts[j],
                        x_min,
                        y_min,
                        padding,
                        height,
                    ) == Some(#[trigger] mark_of(ps, m, k, j)) by {
                    if k < n - 1 {
                        assert(k * m + j < (n - 1) * m) by (nonlinear_arith)
                            requires
                                0 <= k < n - 1,
                                0 <= j < m,
                        ;
                        assert(0 <= k * m) by (nonlinear_arith)
                            requires
                                0 <= k,
                                0 <= m,
                        ;
                        assert(ps[k * m + j] == before[k * m + j]);
                        assert(mark_of(before, m, k, j) == before[k * m + j]);
                    } else {
                        assert(k * m + j == (n - 1) * m + j) by (nonlinear_arith)
                            requires
                                k == n - 1,
                        ;
                        assert(ps[k * m + j] == sp[j]);
                    }
                }
            },
            _ => {},
        }
    }
}


/// A pixel with its edge direction turned around: the marks of downward
/// edges become those of upward ones and back; other pixels stay.
pub open spec fn reversed_pixel(info: PixelInfo) -> PixelInfo {
    match info {
        PixelInfo::Zero => PixelInfo::One,
        PixelInfo::One => PixelInfo::Zero,
        PixelInfo::VisibleVertexZero => PixelInfo::VisibleVertexOne,
        PixelInfo::VisibleVertexOne => PixelInfo::VisibleVertexZero,
        other => other,
    }
}

/// Whether `rev` holds the pixels of `cells` with their edge directions
/// turned around.
pub open spec fn reversed_cells(cells: Seq<PixelInfo>, rev: Seq<PixelInfo>) -> bool {
    &&& rev.len() == cells.len()
    &&& forall|i: int| 0 <= i < cells.len() ==> #[trigger] rev[i] == reversed_pixel(cells[i])
}

/// The scan of a row with its edge directions turned around counts the
/// opposite of the scan of the row, while the count cannot overflow.
proof fn lemma_reversed_scan(
    cells: Seq<PixelInfo>,
    rev: Seq<PixelInfo>,
    w: nat,
    y: int,
    x0: int,
    width: int,
    count: int,
    last: int,
    touched: bool,
)
    requires
        reversed_cells(cells, rev),
        -1 <= last <= 1,
        forall|x: int| x0 <= x < width ==> 0 <= #[trigger] (x + y * w) < cells.len(),
        (if count < 0 { -count } else { count }) + (if x0 < width { width - x0 } else { 0 })
            <= i32::MAX,
    ensures
        scan_row(cells, w, y, x0, width, count, last, touched) is Some,
        scan_row(rev, w, y, x0, width, -count, -last, touched) == Some(
            -scan_row(cells, w, y, x0, width, count, last, touched)->Some_0,
        ),
    decreases width - x0,
{
    if x0 < width {
        assert(0 <= x0 + y * w < cells.len());
        let c = cells[x0 + y * w];
        assert(rev[x0 + y * w] == reversed_pixel(c));
        match c {
            PixelInfo::Empty => {
                lemma_reversed_scan(cells, rev, w, y, x0 + 1, width, count, 0, false);
            },
            PixelInfo::Zero => {
                if last != 1 && !touched {
                    lemma_reversed_scan(cells, rev, w, y, x0 + 1, width, count + 1, 1, touched);
                } else {
                    lemma_reversed_scan(cells, rev, w, y, x0 + 1, width, count, last, touched);
                }
            },
            PixelInfo::One => {
                if last != -1 && !touched {
                    lemma_reversed_scan(cells, rev, w, y, x0 + 1, width, count - 1, -1, touched);
                } else {
                    lemma_reversed_scan(cells, rev, w, y, x0 + 1, width, count, last, touched);
                }
            },
            PixelInfo::InvisibleVertex => {
                lemma_reversed_scan(cells, rev, w, y, x0 + 1, width, count - last, 0, true);
            },
            PixelInfo::VisibleVertexZero => {
                lemma_reversed_scan(cells, rev, w, y, x0 + 1, width, count + 1, last, true);
            },
            PixelInfo::VisibleVertexOne => {
                lemma_reversed_scan(cells, rev, w, y, x0 + 1, width, count - 1, last, true);
            },
        }
    }
}

/// A pixel of a map paints the same with its edge directions turned around.
proof fn lemma_reversed_cell(
    cells: Seq<PixelInfo>,
    rev: Seq<PixelInfo>,
    w: nat,
    width: int,
    height: int,
    x: int,
    y: int,
)
    requires
        reversed_cells(cells, rev),
        0 <= x < width <= i32::MAX,
        0 <= y < height,
        (width - 1) + (height - 1) * w < cells.len(),
    ensures
        cell_paint(rev, w, width, height, x, y) == cell_paint(cells, w, width, height, x, y),
{
    assert forall|x2: int| x + 1 <= x2 < width implies 0 <= #[trigger] (x2 + y * w)
        < cells.len() by {
        lemma_cell_before_last(x2, y, w as int, width, height);
    }
    lemma_cell_before_last(x, y, w as int, width, height);
    assert(rev[x + y * w] == reversed_pixel(cells[x + y * w]));
    lemma_reversed_scan(cells, rev, w, y, x + 1, width, 0, 0, false);
}

/// Columns paint the same with the edge directions turned around.
proof fn lemma_reversed_column(
    cells: Seq<PixelInfo>,
    rev: Seq<PixelInfo>,
    w: nat,
    width: int,
    height: int,
    x: int,
    n: nat,
)
    requires
        reversed_cells(cells, rev),
        0 <= x < width <= i32::MAX,
        n <= height,
        (width - 1) + (height - 1) * w < cells.len(),
    ensures
        column_paints(rev, w, width, height, x, n) == column_paints(cells, w, width, height, x, n),
    decreases n,
{
    if n > 0 {
        lemma_reversed_column(cells, rev, w, width, height, x, (n - 1) as nat);
        lemma_reversed_cell(cells, rev, w, width, height, x, n - 1);
    }
}

/// The fill of the columns `0..m` is the same with the edge directions
/// turned around.
proof fn lemma_reversed_fill(
    cells: Seq<PixelInfo>,
    rev: Seq<PixelInfo>,
    w: nat,
    width: int,
    height: int,
    m: nat,
)
    requires
        reversed_cells(cells, rev),
        m <= width <= i32::MAX,
        0 < height,
        (width - 1) + (height - 1) * w < cells.len(),
    ensures
        fill_paints(rev, w, width, height, m) == fill_paints(cells, w, width, height, m),
    decreases m,
{
    if m > 0 {
        lemma_reversed_fill(cells, rev, w, width, height, (m - 1) as nat);
        lemma_reversed_column(cells, rev, w, width, height, m - 1, height as nat);
    }
}

/// The fill does not depend on which way the contours run: turning the
/// direction of every edge and vertex mark around (downward for upward)
/// gives the same paints, so the inside of a clockwise contour is painted as
/// that of an anticlockwise one. Its crossing count is nonzero either way.
pub proof fn law_fill_ignores_orientation(
    cells: Seq<PixelInfo>,
    rev: Seq<PixelInfo>,
    w: nat,
    width: nat,
    height: nat,
)
    requires
        reversed_cells(cells, rev),
        width <= i32::MAX,
    ensures
        fill_of(rev, w, width, height) == fill_of(cells, w, width, height),
{
    if width > 0 && height > 0 && (width - 1) + (height - 1) * w < cells.len() {
        lemma_reversed_fill(cells, rev, w, width as int, height as int, width);
    } else if width == 0 || height == 0 {
        lemma_fill_empty(cells, rev, w, width as int, height as int, width);
    }
}

/// With no row or no column, the fill is the same for any cells.
proof fn lemma_fill_empty(
    cells: Seq<PixelInfo>,
    rev: Seq<PixelInfo>,
    w: nat,
    width: int,
    height: int,
    m: nat,
)
    requires
        width == 0 || height == 0,
        m <= width,
        height >= 0,
    ensures
        fill_paints(rev, w, width, height, m) == fill_paints(cells, w, width, height, m),
    decreases m,
{
    if m > 0 {
        lemma_fill_empty(cells, rev, w, width, height, (m - 1) as nat);
        assert(column_paints(rev, w, width, height, m - 1, height as nat) == Some(
            Seq::<Paint>::empty(),
        ));
        assert(column_paints(cells, w, width, height, m - 1, height as nat) == Some(
            Seq::<Paint>::empty(),
        ));
    }
}

} // verus!
