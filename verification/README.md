# vadadee_doc

The document model of a vector animation editor, written in Verus and
verified: Verus checks every function in `src/`, and proves the contracts
its public functions state. The few trusted items that call `indexmap`,
`uuid` or std are marked `#[verifier::external_body]`, and their contracts
are taken as given.

- `document` – the layer stack: layer kinds and media roles, adding,
  moving and removing nodes and layers, and the canvas proxy of a
  node-editor layer.
- `av_clip`, `timeline` – media clips of AV layers, and the sub-track row a
  new clip goes on.
- `node_graph`, `ports`, `graph_eval` – the node-editor graph: the port
  catalog of each node kind, typed links with one link per input, parameter
  tracks, the evaluation order of its real-valued nodes (with cycle
  detection), and the image and sound chains that reach its Output
  Objects (`graph_output`).
- `expr` – the grammar of stack-animation formulas, compiled to a list of
  stack operations.
- `animation`, `node_animation` – keyframe tracks kept sorted by frame,
  stack-function spans, the tracks of a node addressed by label, and how
  stack functions and keyframes keep each other in step (start values,
  start anchors, removal).
- `media`, `export_job`, `export_types` – export settings, worker decisions
  and PCM checks.
- `path_effects` – the effect tables (on-path, tiling, circular, clip mask,
  boolean): lookups, hidden sources, and what moves together.
- `node_store` – the project's drawable nodes by id (an `IndexMap`), as
  far as the layer rules read them.
- `flowchart` – connector anchors, and how connector ends are spread over
  the slots of a shape's side.
- `node`, `style`, `shading`, `music` – the smaller document vocabularies,
  with the index bookkeeping of path anchors.
- `float_bits` – the exact bit-level operations the rules need: widening an
  `f32` to `f64`, `max` with 1.0, clamping to 0..1.

Numeric values that are floating point in the editor are carried as the bit
patterns of their IEEE-754 values; the library stores and compares them,
and computes with them only through the exact operations of `float_bits`. `app/` holds that arithmetic (formula and keyframe
evaluation, stack sampling, real-valued graph evaluation, output effect
values, clip time spans, unit conversion) and the serde forms of the
document types.
