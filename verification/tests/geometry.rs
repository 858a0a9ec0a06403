use font_rasterizer::rasterizer::geometry::{add_points, distance, divide_point, sub_points};

#[test]
fn point_arithmetic() {
    assert_eq!(sub_points((5, -3), (7, 2)), (-2, -5));
    assert_eq!(add_points((5, -3), (7, 2)), (12, -1));
    assert_eq!(add_points(sub_points((100, -40), (-25, 9)), (-25, 9)), (100, -40));
}

#[test]
fn division_rounds_toward_zero() {
    assert_eq!(divide_point((7, -7), 2), (3, -3));
    assert_eq!(divide_point((7, -7), -2), (-3, 3));
    assert_eq!(divide_point((-32768, 32767), 1), (-32768, 32767));
    assert_eq!(divide_point((-32768, 9), -3), (10922, -3));
}

#[test]
fn distances() {
    assert_eq!(distance((0, 0), (3, 4)), 5);
    assert_eq!(distance((3, 4), (0, 0)), 5);
    assert_eq!(distance((1, 1), (1, 1)), 0);
    assert_eq!(distance((0, 0), (2, 2)), 2);
    assert_eq!(distance((-10, 0), (10, 0)), 20);
    // 65535 * sqrt(2) = 92680.0..., cut to 16 bits
    assert_eq!(distance((-32768, -32768), (32767, 32767)), (92680u32 % 65536) as u16);
}
