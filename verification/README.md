# battle_logic

The decision rules and record keeping of a squad-based battle simulation,
written in Verus and proved against their contracts.

- `src/flags.rs` — how capture flags change hands: ownership from the camps
  inside, holds that run out after a fixed time, bans on the squad whose hold
  ran out, the flag such a squad retreats to, scout rotations and how soldiers
  react when their camp takes a flag.
- `src/runner.rs` — one flag tick from a snapshot of the battle: every flag
  ticked in order, what a released squad is told, how each soldier reacts to
  a capture, scout rotations, and whether the new owners are announced.
- `src/journal.rs` — the battle journal: movement, engagement and death lines,
  rounds fired, orders, squad pages, support traffic, the page written when a
  phase closes and the battle summary.
- `src/canvas.rs` — the canvas of a phase: the support flow (requests,
  assignments, resupplies) and the battle map (events per sector, chained per
  squad, engagements linked to their targets).
- `src/textures.rs` — the CPU-side texture cache of the GUI painter: full
  updates, patches written row by row, frees, and RGBA byte conversion.
- `src/gui.rs`, `src/orders.rs` — what clicks on the tactics panels ask for,
  and the per-soldier instructions a squad order expands to.
- `src/naming.rs`, `src/text.rs`, `src/side.rs` — squad names and links,
  colours, decimal notation, text ordering and joining.

`app/` holds the parts that touch the world: files written with `std::fs`,
timestamps from `chrono`, canvases serialised with `serde_json`, egui panels
and textures, and the flag tick's commands carried out through a trait the game implements
(paths are found by the game).
