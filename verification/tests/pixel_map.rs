use font_rasterizer::rasterizer::pixel_map::{PixelInfo, PixelMap};

#[test]
fn new_map_is_empty() {
    let map = PixelMap::new(3, 2);
    for x in 0..3 {
        for y in 0..2 {
            assert_eq!(map.get_unchecked(x, y), PixelInfo::Empty);
        }
    }
    assert!(map.contains(2, 1));
    assert!(!map.contains(0, 2));
    assert!(map.contains(5, 0));
    assert!(!map.contains(usize::MAX, usize::MAX));
}

#[test]
fn opposite_edges_make_an_invisible_vertex() {
    let mut map = PixelMap::new(2, 2);
    map.set(PixelInfo::Zero, 1, 1);
    assert_eq!(map.get_unchecked(1, 1), PixelInfo::Zero);
    map.set(PixelInfo::One, 1, 1);
    assert_eq!(map.get_unchecked(1, 1), PixelInfo::InvisibleVertex);
    map.set(PixelInfo::Zero, 1, 1);
    assert_eq!(map.get_unchecked(1, 1), PixelInfo::InvisibleVertex);
    map.set(PixelInfo::VisibleVertexOne, 1, 1);
    assert_eq!(map.get_unchecked(1, 1), PixelInfo::VisibleVertexOne);
    assert_eq!(map.get_unchecked(0, 1), PixelInfo::Empty);
}

#[test]
fn writing_twice_is_writing_once() {
    for first in [PixelInfo::Empty, PixelInfo::Zero, PixelInfo::One, PixelInfo::InvisibleVertex] {
        for info in [PixelInfo::Zero, PixelInfo::One, PixelInfo::VisibleVertexZero] {
            let mut once = PixelMap::new(1, 1);
            once.set(first, 0, 0);
            once.set(info, 0, 0);
            let mut twice = PixelMap::new(1, 1);
            twice.set(first, 0, 0);
            twice.set(info, 0, 0);
            twice.set(info, 0, 0);
            assert_eq!(once.get_unchecked(0, 0), twice.get_unchecked(0, 0));
        }
    }
}

#[test]
fn same_direction_edges_keep_their_mark() {
    let mut map = PixelMap::new(1, 1);
    map.set(PixelInfo::One, 0, 0);
    map.set(PixelInfo::One, 0, 0);
    assert_eq!(map.get_unchecked(0, 0), PixelInfo::One);
    map.set(PixelInfo::Empty, 0, 0);
    assert_eq!(map.get_unchecked(0, 0), PixelInfo::Empty);
}
