# evo

A verified library behind Evograph, a graph editor for the configuration of
Copper robotics applications, together with the decision logic of the
robot's tasks that does not depend on measurements.

- `src/` is the library, written in Verus: the configuration text scanner and
  its lossless section rewriting (`scan`, `render`, `saving`, `config`,
  `loader`), the graph model and its validation (`model`, `diagnostics`,
  `editing`, `equality`), the component indexer (`naming`, `shapes`,
  `channels`, `collector`, `cataloging`, `indexer`), the editor's operations (`editor`),
  project discovery (`project`), Cargo manifests read and edited with
  `toml_edit` (`manifest`), and the robot's decision logic (`robot`: the
  intake state machine, turret commands, the alliance selector, the gamepad
  test, and the driver-station echo and receiver).
  `outside` holds the contracts of the other outside crates it calls (RON,
  petgraph, SHA-256, the lossless RON parser, `syn`, paths).
- The indexer reads Rust sources as plain values that `app/` extracts with
  `syn`: items, type shapes, `use` trees, method calls and macro tokens.
- `tests/` exercise the library on concrete inputs.
- `app/` is the Evograph program: file and Cargo I/O, `syn` parsing of the
  sources, the eframe/egui-snarl window.
