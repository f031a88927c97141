# ssbh_data

Verified building blocks for reading and writing the binary data of Smash Ultimate
model and animation files, written in Verus.

## Layout

- `src/` — the verified library.
  - `adj_data` — vertex adjacency from triangle faces, and the conversion between
    per-object adjacency lists and the shared index buffer of adjacency files.
  - `mesh_data` — vertex attributes, vertex index buffers (`u16` or `u32`), the checks
    made before a mesh object is written, skin weights and bone influence counts;
    `mesh_data::layout` places each mesh object's data in the shared vertex and index
    buffers of versions 1.8, 1.9 and 1.10.
  - `hlpb_data` — helper bone constraints and the constraint list of the file layout.
  - `matl_data` — material parameters grouped by type, and the file's attribute list.
  - `anim_data::bitutils` — bit readers and writers over byte buffers.
  - `anim_data::compression` — compression flags and bit counts of version 2.0+ tracks,
    and the bit layout of compressed pattern indices and booleans.
  - `anim_data::buffers` — packing compressed tracks and reading them back:
    `compressed_bytes` (the byte layout of a compressed track), `compressed_floats` (the
    codes of compressed float, vector, UV transform and transform tracks), `float_codes`
    (the bit layout of float codes) and `uncompressed` (uncompressed tracks).
  - `anim_data::v1` — version 1.2 animations: value formats, block sizes, residual headers
    and coefficients, the search for the layout of the 3408, 3409, 4309 and 4409 curve
    formats, the properties of a track, the data written for each property, and the
    assembly of the tracks and buffers of a version 1.2 animation (`assemble`).
  - `bytes`, `float_bits` — little-endian encodings and `f32` values carried as bit patterns.
- `app/` — file input and output through `ssbh_lib`, and the floating-point decoders and
  codecs that build on the library.
- `tests/` — tests of the library.

Floating-point values never enter the library: they are carried as the `u32` bit patterns
that `f32::to_bits` gives, and compared as `f32 == f32` compares them.
