# fractal_viewer

Verified core of a 3D fractal viewer and mesh exporter, written in Verus.

`src/` is the library; every function in it is verified against its
`requires`/`ensures` contract, and the properties that span several calls
are stated as proof functions (`lemma_*`).

- `calendar`, `timestamp`, `bench_time`: civil dates of Unix day counts (two
  algorithms, both proved to give the unique valid date), save ids and ISO
  8601 timestamps.
- `session`: where saves live, which directory entries are saves, newest
  first ordering, save-format versions, the browser storage index.
- `log_capture`: level filtering and the bounded ring of recent log entries.
- `hot_reload`: the polling decisions of shader/config hot reloading.
- `fractals`, `control_ranges`, `palette_presets`: fractal types, mesh and
  timing methods, slider bounds, palette presets.
- `scenarios`, `bench_run`: the benchmark matrix, its filtering, and the
  frame-by-frame progress of the in-app benchmark.
- `volume_slabs`, `thumbnail`: GPU readback planning and row unpacking,
  thumbnail PNG/base64 text.
- `export_names`, `export_gate`: export file names, resolution choices,
  and the gating of export requests.
- `palette_stops`: editing the palette's color stops.
- `mesh`: PLY/OBJ/GLB encoders, the glTF document of an exported mesh
  (buffer views, accessors, attributes, material), grid addressing, vertex
  adjacency, the topology of Dual Contouring, and the face bookkeeping of
  decimation.

`app/` is ordinary Rust around the library: file and clock I/O, the `log`
facade, and the floating-point parts of mesh extraction, smoothing,
decimation costs, palettes and benchmark statistics. The library makes the
glTF document of a mesh together with its binary buffer (one call, so the
two match) and frames the GLB file; `app/` serialises the document with
`gltf_json`, converting it field for field, because the document's bounds
and material factors become `f32` values there.

Not included: Marching Cubes mesh extraction (mesh extraction offers Dual
Contouring and Surface Nets) and loading and saving the UI settings file. `tests/`
exercises the library on concrete values.
