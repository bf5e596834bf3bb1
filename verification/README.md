# graph_canvas

A canvas for building schema-constrained graphs: node templates declare typed
slots with connection bounds and allowed target templates, node instances are
made from them, and connections join their slots. The graph model and every
rule that decides what an edit does are verified with Verus; the browser side
(drawing, pointer geometry, layouts that compute with coordinates, the
toolbar) is ordinary Rust around it.

## Layout

- `src/` — the verified library.
  - `model`, `graph`: templates, instances, connections and their
    mathematical views; the graph as two maps keyed by id.
  - `creation`, `initial`, `connect`, `deletion`, `prune`, `fields`,
    `commands`, `queries`, `conformity`: the graph operations, each with a
    contract stating its result, the graph it leaves, and which error it
    gives on which input.
  - `config`, `js`, `samples`: canvas settings, template groups and the
    completion of partial descriptions with defaults.
  - `menu`, `appearance`, `pointer`: context menus, slot colouring and the
    decisions taken on pointer presses, moves and releases.
  - `hierarchy`, `views`, `layout`: cycle breaking and level assignment for
    the hierarchical layout, the connection lists of the simulation, and the
    views that keep their own node positions.
  - `laws`: properties relating several operations, proved once for all
    inputs.
  - `ids`, `text`, `decimal`, `seqs`: identifiers, text helpers, numbers
    written in decimal, sequence lemmas.
  - `errors`: the error type and the text each error is shown with.
- `tests/` — tests on concrete values.
- `app/` — the WebAssembly front end: canvas, rendering, pointer geometry,
  force-directed and hierarchical placement, toolbar and JavaScript bindings.

Coordinates and sizes are carried in the library as the bit patterns of
`f64` values (`u64`); the library stores and copies them, and the front end
computes with them.
