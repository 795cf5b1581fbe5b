# photorust

The engine of an image editor: pixel buffers, the layer stack, undo history,
reading and writing layered PSD files (type layers included), EXIF and XMP
metadata, vector path structure, patterns, and the options the painting and
filter tools offer. It is written in Verus, and every function in `src/` is
proved against its contract.

- `src/` is the library. Contracts speak of views (`Seq`, `Map` and the
  types' own spec functions); the laws that relate several operations stand
  as public `law_*` proof functions beside the code they are about (for
  example `psd::written::law_written_layers_read_back` and
  `psd::type_back::law_written_type_block_reads_back`).
- `tests/` runs the library on concrete values.
- `app/` is ordinary Rust around the library: bringing up a `wgpu` device,
  reading the environment, and the arithmetic done in floating point
  (interpolation, path geometry, rotation by arbitrary angles, perspective,
  gradients, healing, the texture filters, the magnetic wire, the numbers in
  a type layer's text engine data).
