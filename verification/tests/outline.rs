use font_rasterizer::font::glyf::{GlyfData, GlyfDefinition, GlyfFlag, SimpleGlyfDefinition};
use font_rasterizer::rasterizer::contour::{
    contour_has_outline, contour_outline, contour_ranges, ContourPoint, Segment,
};
use font_rasterizer::rasterizer::fill::{draw_points, fill_glyph, Paint};
use font_rasterizer::rasterizer::pixel_map::{PixelInfo, PixelMap};
use font_rasterizer::rasterizer::plot::{canvas_size, curve_steps, edge_direction, glyph_pixel};
use font_rasterizer::rasterizer::vertices::mark_vertices;

fn flag(on_curve: bool) -> GlyfFlag {
    GlyfFlag {
        on_curve,
        x_short_vector: false,
        y_short_vector: false,
        this_x_is_same: false,
        this_y_is_same: false,
        original_flag: if on_curve { 1 } else { 0 },
    }
}

fn point(x: i16, y: i16, on_curve: bool) -> ContourPoint {
    ContourPoint { x, y, on_curve }
}

fn glyph(x_min: i16, y_min: i16, x_max: i16, y_max: i16) -> GlyfData {
    GlyfData {
        number_of_contours: 1,
        x_min,
        y_min,
        x_max,
        y_max,
        definition: GlyfDefinition::Compound,
    }
}

#[test]
fn square_of_lines() {
    let xs = [0i16, 10, 10, 0];
    let ys = [0i16, 0, 10, 10];
    let flags = [flag(true), flag(true), flag(true), flag(true)];
    let (segments, vertices) = contour_outline(&xs, &ys, &flags);
    assert_eq!(
        segments,
        vec![
            Segment::Line((0, 0), (10, 0)),
            Segment::Line((10, 0), (10, 10)),
            Segment::Line((10, 10), (0, 10)),
            Segment::Line((0, 10), (0, 0)),
        ]
    );
    assert_eq!(
        vertices,
        vec![
            point(0, 0, true),
            point(10, 0, true),
            point(10, 10, true),
            point(0, 10, true),
            point(0, 0, true),
            point(10, 0, true),
        ]
    );
}

#[test]
fn curves_and_virtual_midpoints() {
    let xs = [0i16, 10, 20, 30];
    let ys = [0i16, 20, 20, 0];
    let flags = [flag(true), flag(false), flag(false), flag(true)];
    let (segments, vertices) = contour_outline(&xs, &ys, &flags);
    assert_eq!(
        segments,
        vec![
            Segment::Curve((0, 0), (10, 20), (15, 20)),
            Segment::Curve((15, 20), (20, 20), (30, 0)),
            Segment::Line((30, 0), (0, 0)),
        ]
    );
    assert_eq!(
        vertices,
        vec![
            point(0, 0, true),
            point(15, 20, true),
            point(30, 0, true),
            point(0, 0, true),
            point(15, 20, true),
        ]
    );
}

#[test]
fn midpoint_rounds_toward_the_second_point() {
    let xs = [0i16, 3, 0];
    let ys = [0i16, -3, 0];
    let flags = [flag(true), flag(false), flag(false)];
    let (segments, _) = contour_outline(&xs, &ys, &flags);
    assert_eq!(segments[0], Segment::Curve((0, 0), (3, -3), (1, -1)));
}

#[test]
fn degenerate_contours() {
    assert!(contour_has_outline(&[4], &[5], &[flag(true)]));
    let (segments, vertices) = contour_outline(&[4], &[5], &[flag(true)]);
    assert_eq!(segments, vec![Segment::Line((4, 5), (4, 5))]);
    assert_eq!(vertices.len(), 3);
    assert!(!contour_has_outline(&[], &[], &[]));
    assert!(!contour_has_outline(&[1, 2], &[], &[flag(true), flag(true)]));
    assert!(!contour_has_outline(&[3], &[3], &[flag(false)]));
    let far = [i16::MIN, i16::MAX, i16::MIN];
    assert!(!contour_has_outline(&far, &[0, 0, 0], &[flag(true), flag(false), flag(false)]));
}

#[test]
fn ranges_of_contours() {
    assert_eq!(contour_ranges(&vec![3, 5, 9]), vec![(0, 3), (4, 5), (6, 9)]);
    assert_eq!(contour_ranges(&vec![]), vec![]);
}

#[test]
fn pixels_and_canvas() {
    let g = glyph(-10, 5, 30, 45);
    assert_eq!(canvas_size(&g, 16), Some((56, 56)));
    assert_eq!(glyph_pixel(&g, 16, -10, 5), Some((8, 8)));
    assert_eq!(glyph_pixel(&g, 16, 30, 45), Some((48, 48)));
    assert_eq!(glyph_pixel(&g, 16, i16::MAX, 5), None);
    let inverted = glyph(0, 0, -1, 0);
    assert_eq!(canvas_size(&inverted, 16), None);
    assert_eq!(edge_direction(10, 5), PixelInfo::Zero);
    assert_eq!(edge_direction(5, 10), PixelInfo::One);
    assert_eq!(edge_direction(5, 5), PixelInfo::One);
    assert_eq!(curve_steps((0, 0), (3, 4), (3, 0)), 90);
    assert_eq!(curve_steps((0, 0), (3276, 0), (6553, 0)), 65530);
}

#[test]
fn vertices_are_marked() {
    let g = glyph(0, 0, 4, 4);
    let mut map = PixelMap::new(6, 6);
    let vertices = vec![
        point(0, 0, true),
        point(4, 2, true),
        point(0, 4, true),
        point(0, 0, true),
        point(4, 2, true),
    ];
    assert!(mark_vertices(&g, 2, &mut map, &vertices));
    assert_eq!(map.get_unchecked(5, 3), PixelInfo::Empty);
    assert_eq!(map.get_unchecked(1, 5), PixelInfo::InvisibleVertex);
    assert_eq!(map.get_unchecked(1, 1), PixelInfo::InvisibleVertex);

    let flat = vec![
        point(0, 0, true),
        point(1, 3, true),
        point(3, 3, true),
        point(4, 0, true),
        point(0, 0, true),
        point(1, 3, true),
    ];
    let mut map = PixelMap::new(6, 6);
    assert!(mark_vertices(&g, 2, &mut map, &flat));
    assert_eq!(map.get_unchecked(2, 4), PixelInfo::VisibleVertexZero);
    assert_eq!(map.get_unchecked(4, 4), PixelInfo::VisibleVertexOne);

    let mut small = PixelMap::new(2, 2);
    assert!(!mark_vertices(&g, 2, &mut small, &vertices));
}

#[test]
fn scanline_fill() {
    let mut map = PixelMap::new(5, 1);
    map.set(PixelInfo::Zero, 1, 0);
    map.set(PixelInfo::One, 3, 0);
    let paints = fill_glyph(5, 1, &map).unwrap();
    assert_eq!(
        paints,
        vec![
            Paint { x: 1, y: 1, colour: 0x44FF0000 },
            Paint { x: 2, y: 1, colour: 0xFF440000 },
            Paint { x: 3, y: 1, colour: 0x44FF0000 },
        ]
    );
    assert!(fill_glyph(6, 1, &map).is_none());
    assert_eq!(fill_glyph(0, 1, &map), Some(vec![]));
}

#[test]
fn point_markers() {
    let g = glyph(0, 0, 4, 4);
    let def = SimpleGlyfDefinition {
        end_pts_of_contours: vec![1],
        instruction_length: 0,
        instructions: vec![],
        flags: vec![flag(true), flag(false)],
        x_coordinates: vec![0, 4],
        y_coordinates: vec![0, 4, 9],
    };
    let paints = draw_points(&g, 2, &vec![(0, 0), (1, 0)], 6, &def).unwrap();
    assert_eq!(
        paints,
        vec![
            Paint { x: 1, y: 5, colour: 0x000000 },
            Paint { x: 2, y: 5, colour: 0x000000 },
            Paint { x: 5, y: 1, colour: 0x00FF00 },
            Paint { x: 6, y: 1, colour: 0x00FF00 },
        ]
    );
    assert!(draw_points(&g, 2, &vec![(0, 6)], 6, &def).is_none());
}

#[test]
fn polygon_turning_vertices_are_invisible() {
    let g = glyph(0, 0, 4, 4);
    let xs = [0i16, 4, 0];
    let ys = [0i16, 2, 4];
    let flags = [flag(true), flag(true), flag(true)];
    assert!(contour_has_outline(&xs, &ys, &flags));
    let (_, vertices) = contour_outline(&xs, &ys, &flags);
    let mut map = PixelMap::new(6, 6);
    map.set(PixelInfo::One, 3, 1);
    assert!(mark_vertices(&g, 2, &mut map, &vertices));
    assert_eq!(map.get_unchecked(1, 1), PixelInfo::InvisibleVertex);
    assert_eq!(map.get_unchecked(1, 5), PixelInfo::InvisibleVertex);
    assert_eq!(map.get_unchecked(5, 3), PixelInfo::Empty);
    assert_eq!(map.get_unchecked(3, 1), PixelInfo::One);
}
