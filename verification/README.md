# muharrir

Shared editor primitives with machine-checked contracts, written in Verus.

## Layout

- `src/`: the verified library.
  - `command`: the `Command` trait, compound commands, and a bounded
    undo/redo stack pair.
  - `dirty`: modified-state tracking against a save point.
  - `selection`: ordered, duplicate-free selections with a primary item;
    panel visibility.
  - `notification`: toasts with expiry, and a capped, numbered log.
  - `recent`: a capped most-recently-used path list.
  - `inspector`: property sheets grouped by category.
  - `hierarchy`: building parent/child trees from flat lists, and
    depth-first flattening.
  - `hw`: quality tiers and hardware profiles from an `ai_hwaccel` registry.
  - `history`: undo/redo over a `libro` audit chain.
  - `prefs`: the choice of a configuration directory.
- `tests/`: tests of the library, run against the compiled crate.
- `app/`: what stays outside verification: floating-point expression
  evaluation (`abaco`), preferences files, environment and file-system
  access, hardware probing, toast progress as `f32`, and the serde and
  `Display` forms of the library's types.

Calls into outside crates go through small trusted wrappers whose
contracts are stated next to them; everything built on them is verified.
