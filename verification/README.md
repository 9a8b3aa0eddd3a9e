# mlt

Encoder-side building blocks of MapLibre Tiles, written in Verus. Every
function in `src/` carries a contract that Verus proves, except three small
`#[verifier::external_body]` functions that call `bytemuck` or the standard
library (`text.rs`, `column.rs`): their contracts are believed, and their doc
comments say what they claim.

No byte encoding is provided: the library stages layers (columns, length
streams, the stream plan of a geometry column) but does not write MLT bytes;
the stream writers and integer/vertex codecs are not part of it.

- `geom`, `geometry_type`: integer geometries and the MLT geometry types.
- `model`, `values`: the columnar geometry collection (`GeometryValues`),
  its mathematical model, and appending row geometries to it, with
  tessellation from given Earcut triangulations.
- `streams`, `plan`: the length streams and the stream plan of a geometry
  column.
- `dense`, `capacity`, `staging`, `tessellation`: laws of the collection (the
  offsets `from_geoms` builds are dense and encodable, building never faults
  while the geometries' size fits in `u32`, an exact check of when building
  faults, tessellating afterwards equals tessellating while building,
  tessellating is idempotent).
- `meta`: the flat coordinates + meta input format.
- `raw`: a geometry column as read from a tile, and its feature count from
  the stream metadata.
- `column`, `builder`, `staged`, `tile`, `text`: property columns from raw
  buffers and from row features, layer and tile encoders, staged layers.
- `ffi`: the handle surface with consumed-handle semantics.

`app/` holds what Verus does not check: the foreign-facing handle types,
conversions from `geo_types` geometries, Earcut triangulation with `geo`
(floating point), and the geometry type with its serde/strum/num_enum
derives. `tests/` runs the library.
