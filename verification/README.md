# kestrel (verified core)

The logic of a small cube-sphere flight simulator, written in Verus and
proved against its contracts:

- `src/scenery/terrain/` — the terrain:
  - `quadtree.rs`: cube faces and quadtree node keys (parents, children, ancestry);
  - `lod.rs`: the level-of-detail walk over all six faces, driven by a distance
    probe, with split/merge hysteresis;
  - `keymap.rs`: the key sets and key-to-chunk maps the registry keeps, hash
    tables stored under an integer code of each key;
  - `registry.rs`: which chunks are live, building, retiring, and the
    reconcile step that turns a new set of desired leaves into spawn and
    despawn actions;
  - `tiles.rs`: Terrarium heightmap tiles — decoding, pixel sampling,
    bilinear taps, tile prefetch sets, retry cooldown, server replies;
  - `mesh.rs`: the index buffer and skirt layout of a chunk mesh.
- `src/aircraft.rs`, `src/aircraft/` — the switchable aircraft state, cockpit
  controls and screens.
- `src/ui.rs` — menu messages and display-mode switching.

`app/` is a headless terrain tool around the library: the floating-point
geometry of the planet, tile downloads and caching, and chunk mesh assembly.
`tests/` exercises the library on concrete values.
