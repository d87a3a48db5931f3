# crowdflow

The combinatorial core of the CrowdFlow venue engine, with its behaviour
stated in contracts and proved with Verus.

Geometry in the engine is measured in floating point, but much of it never
looks at a coordinate: which side of a line a point lies on is a three-valued
answer, a triangle mesh is a table of vertex and neighbour indices, and
deciding which triangles are floor is a shortest-path question over that
table.

## Layout

- `src/` — the verified library
  - `predicates` — orientation answers and their algebra
  - `polygon` — ring classifications, convexity from turn directions
  - `triangulation` — triangle records, adjacency rebuild, tombstones,
    compaction, structural invariant checking
  - `cavity` — filling a Bowyer–Watson cavity with a fan around a new vertex
  - `constraint` — constraint lists, the walk along a constraint, carving
  - `region` — walkable/solid classification by wall-crossing depth
  - `navmesh` — portal selection and corridor portals
  - `validate`, `venue`, `scenario`, `ids`, `compliance` — the document
    vocabulary, findings, reports and reference checks
  - `text` — counts and indices written in decimal, for messages
- `tests/` — tests of the library on concrete meshes and documents
- `app/` — the floating-point half (exact predicates via `robust`, geometry,
  distributions, the venue compiler, path-finding, rule evaluation) and the
  JSON documents (`serde`, `schemars`), built on the library

Verify with `verus` on `src/lib.rs`.
