# torus_grid_cutter

Cutting torus meshes into patches along U/V grid loops or torus-knot
curves, with every topological step verified in Verus.

## Layout

- `src/` — the verified library.
  - `mesh/half_edge.rs` — the half-edge mesh, its well-formedness (`wf`),
    edge splits, validation and a well-formedness check.
  - `mesh/soup.rs`, `mesh/grid.rs`, `mesh/obj_loader.rs` — building meshes
    from triangle and quad lists, the open torus grid (proved well-formed),
    and the index side of OBJ reading.
  - `mesh/face_split.rs`, `mesh/fan.rs`, `mesh/flip.rs`, `mesh/ring.rs` —
    local editing steps, each proved to keep the mesh well-formed.
  - `mesh/cut.rs`, `mesh/knot.rs` — grid and knot cutting; where a curve
    lies is handed in through closures, the topology is proved (the mesh
    stays well-formed, nothing is lost, a closed mesh stays closed, the
    first face a curve crosses is split, lines along edges change nothing,
    the grid cut runs in at most six rounds and, once a round changes
    nothing, no line crosses or splits a face any more, every face whose
    first knot crossing is a split is cut, and a finished Delaunay cut
    leaves triangles except where a diagonal cannot be added or 4095
    diagonals were added).
  - `mesh/regions.rs` — region labelling by flood fill and by knot classes.
  - `mesh/stats.rs`, `mesh/boundary.rs` — mesh statistics, with the
    boundary loop count proved to be the number of boundary cycles.
  - `mesh/euler.rs` — the Euler characteristic, proved to be kept by edge
    and face splits (and so by the grid cut).
  - `mesh/delaunay.rs` — randomising a triangulation by edge flips.
  - `pipeline.rs` — applying the panel's cut settings to a mesh: which cut
    runs, how patches are labelled, how many patch slots there are.
  - `export/`, `ui/`, `color_scheme.rs`, `geom.rs` — patch grouping for
    export, settings, per-patch shader and material choices and labels, and
    the points carried through.
- `app/` — a command-line front end: floating-point geometry, Delaunay
  triangulation, OBJ parsing and file output around the library.
- `tests/` — tests of the library on concrete meshes.
