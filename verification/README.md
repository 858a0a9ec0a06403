# font_rasterizer

Reads a TrueType font held in memory and turns a glyph outline into pixels.

- `src/font/` decodes the file: the header and table directory, then the
  `cmap`, `maxp`, `head`, `loca` and `glyf` tables. Each part of the format
  has a spec function that says what decoding it gives (a value, the field
  that the file ends inside, or a rule of the format that decoding stops
  at), and the decoders are proved to give exactly that. Character lookup
  in byte encoding and segment mapping subtables is specified the same way.
- `src/rasterizer/` holds the integer geometry of rasterizing: the walk over a
  contour's points that yields its lines, curves and vertices, the vertex marks
  and edge marks kept in a `PixelMap`, the scanline fill and the point markers,
  all as exact functions of their inputs.
- `app/main.rs` is the command-line program: it reads the font file, draws the
  edges along their floating-point parametrisation, and writes the image.

Run Verus on `src/lib.rs` to check the proofs; the tests under `tests/` run the
library on hand-built font data.
