# cadrum

The verified core of a CAD library built on the OpenCASCADE kernel.

`src/` holds the logic that decides and encodes, proved with Verus:

- `boolean` — boolean expressions over solids as a flat DNF (union,
  intersection, difference) and the laws they satisfy;
- `topology` — turning the kernel's raw index tables into an ordered topology
  snapshot, with every cross-reference checked;
- `trim`, `construct` — validation of B-spline and trimmed-face exchange data
  and of loft / B-spline-solid inputs, with their exact messages;
- `body_order`, `color_trailer`, `chjc`, `bytes` — the STEP body-order marker,
  the BRep color trailer, the CHJC colored container;
- `colormap`, `provenance` — how face colors follow faces through modeling
  operations and meshing, and which side of a boolean a face came from;
- `gltf`, `mesh_buffers` — GLB framing, buffer views, index accessors, edge
  segments and color groups;
- `color`, `text`, `repair`, `error` — color strings, messages and the
  outcomes of repair and solidification.

`app/` holds what computes on floating point (colors as `f32`, B-spline
geometry judgements, the SVG / PNG scene pipeline, STL and glTF vertex data)
and the `std` traits on the library's types.
