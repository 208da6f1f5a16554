# tiny_skia

Pixmaps of premultiplied RGBA pixels, their PNG form, and the blitter that draws on them,
written in Rust and verified with Verus.

- `src/raster.rs` holds the model that the contracts speak of: rows of pixels in a sequence
  of bytes, and what filling, cropping, packing and demultiplying make of them.
- `src/pixmap.rs` holds the pixmaps: owned, borrowed and mutably borrowed.
- `src/codec.rs` decodes PNG data into pixmaps and encodes pixmaps into PNG data.
- `src/pipeline.rs` and `src/pipeline/blitter.rs` decide which pipelines a paint asks for,
  fill what can simply be filled, and say which pipeline has to be run for the rest.
- `src/bytes.rs`, `src/color.rs`, `src/geom.rs` and `src/mask.rs` hold what these are made of.
- `app/` holds what is not verified: floating point colors, files, debug output, and the
  loop that runs pipelines.

Functions whose names begin with `law_` are proofs of what holds across the functions of
the library.
