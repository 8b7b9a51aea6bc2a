# gpui_flow

The graph state of a node-and-edge flow editor, verified with Verus.

- `src/types.rs` — nodes, handles, edges, connections and change records.
  Geometry is stored as `f32` bit patterns and never computed with.
- `src/store.rs` — `FlowState`: nodes, edges, the id index, undo/redo.
- `src/history.rs` — the undo/redo model and its laws (redo undoes undo,
  undo restores what was recorded, at most 100 snapshots are kept).
- `src/changes.rs` — batched node and edge changes.
- `src/queries.rs` — select all, incomers/outgoers/connected edges,
  connection rules, snap candidates.
- `src/handles.rs` — which side an edge attaches to and where a handle sits
  on its side.
- `src/seqs.rs` — first/last match in a sequence.
- `app/` — the gpui side: viewport and zoom, handle centers, snapping,
  edge paths, painting and hit testing, all in floating point.
