# autark

The core of a small digital audio workstation, written in Verus.

`src/` is the verified library:

- `tick`, `kind`, `asset`, `clip`, `track`: time in sample frames, signal
  kinds and which may feed which, assets, clips and tracks.
- `graph`, `order`, `nodes`: the signal-flow graph (nodes with typed
  sockets, links between them), the rules that keep it acyclic, and the
  built-in nodes (master, track reader, sum, low-pass filter).
- `project`: the whole editable state and its edits (tracks, clips, nodes,
  links), each stated as a relation between the project before and after.
- `routed`: `Project`, the same state in the model's earlier shape: new
  tracks route straight to the master, and its schedule lists every buffer
  that feeds each input, with outputs numbered from 0.
- `schedule`, `compile`: the render schedule and the compiler that orders
  the graph and lays out its buffers, with fan-in summed into scratch slots.
- `command`, `history`: edits as commands, and the edit history with undo,
  redo, and the update handed to the audio side after each change.
- `render`, `block`: which clips a block of a track plays and which runs of
  their assets it mixes, and what the audio callback does with one buffer.
- `store`: the slot maps that hold the project's entries, behind wrappers
  whose contracts state what `slotmap` does.

`app/` holds the audio side, which Verus does not check: the device stream
(`cpal`), the wait-free rings between threads (`rtrb`), the allocation guard
of the audio callback (`assert_no_alloc`), and the floating-point mixing.

`tests/` runs the library on concrete values.
