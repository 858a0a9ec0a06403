//! Integer geometry of the glyph rasterizer: contour walks, edge and vertex
//! marks, the scanline fill and point markers.
pub mod contour;
pub mod fill;
pub mod geometry;
pub mod pixel_map;
pub mod plot;
pub mod vertices;
