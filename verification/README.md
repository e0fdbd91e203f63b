# hordegrid

A deterministic co-op survival simulation (Q16.16 fixed point, integer only) with a
hide & seek mode, the glue for a rollback session, and the computations of a browser
boundary. The library in `src/` is verified with Verus; `app/` holds the parts that live
on outside traits, I/O or browser bindings.

## Layout

- `src/fx.rs`, `rng.rs`, `input.rs`, `config.rs`, `map.rs`, `physics.rs` — numbers, PRNG,
  input bits, tuning tables, the map and box-vs-tile movement.
- `src/state.rs`, `inv.rs`, `check.rs`, `bytes.rs` — the flat state, its invariant (with a
  run-time check), its byte image and checksum.
- `src/grid.rs`, `flow.rs`, `players.rs`, `enemies.rs`, `shots.rs`, `waves.rs`,
  `hide_seek.rs`, `step.rs` — the systems of a frame and `World::step`, specified by
  `step_spec`.
- `src/view.rs`, `web.rs` — the render view and the boundary's framing and event feeds.
- `src/net/` — wire input, datagram codec, packet queues, session decisions, the solo runner.
- `app/` — the GGRS `Config`, the socket adapter, the networked runner and the wasm-bindgen
  `Game`.

## Main guarantees

- `World::step` computes exactly `step_spec(state, map, inputs)`, keeps the state invariant
  (while the wave counter has room), and re-simulating from a saved state reproduces the
  same timeline (`lemma_resimulation`).
- The flow field is rebuilt every 8 frames and at once on a frame where an alive player
  enters another tile.
- Weapons: finite magazines, reloads (manual, or automatic when firing on empty) that a
  weapon switch abandons, and splash damage around the impact point; a weapon with infinite
  ammo never reloads (`lemma_infinite_weapon_never_reloads`).
- Untrusted input: player bits are sanitized before use, and datagram decoding never panics;
  its outcome is stated for every input.
