# rl_core

The simulation core of a colony game, written in Verus: every function in
`src/` carries a contract that Verus proves.

- `src/` — the verified library: tile maps and their encoding, liquid
  flow, region terrain from column heights, height map smoothing,
  behavior trees, task queues and the task cache, inventories and
  components, definitions and their conditions, input bindings and event
  channels. Calls into `smallvec`, `slotmap`, `sha2`, `rand`,
  `rand_xorshift` and `uuid` go through small trusted wrappers whose
  contracts state what those crates document.
- `tests/` — tests of the library on concrete values.
- `app/` — a headless driver around the library and the parts that work
  on floating point: A* search costs, response curves, attribute rolls,
  nearest-place lookup, height normalisation, and file walking.
