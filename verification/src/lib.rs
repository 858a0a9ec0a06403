//! A TrueType font reader and glyph rasterizer core.
//!
//! `font` decodes the tables of a TrueType file held in memory and maps
//! characters to glyph indices; `rasterizer` holds the integer geometry that
//! turns glyph outlines into pixels.
pub mod font;
pub mod rasterizer;
