# grass

Chunked grass and low foliage for Bevy: deterministic CPU scattering,
per-chunk blade meshes with LOD bands, a wind-driven vertex material and a
world-space interaction map.

## Layout

- `src/` — the verified core (Verus). Integer and bookkeeping logic with
  contracts and proved laws:
  - `rng` — the xorshift generator behind deterministic scattering;
  - `scatter` — per-chunk seeds, planar grid size, mesh sampling attempts,
    density texel lookup;
  - `surface` — chunk grids and the chunk-to-triangle index of baked meshes;
  - `mesh` — index buffers of the blade shapes, proved to be valid triangle lists;
  - `interaction` — the RGBA interaction buffer: shift, decay and stamps;
  - `systems` — runtime activation, the per-patch rebuild state machine and
    the asset-change rebuild decision;
  - `diagnostics` — per-patch and global chunk / blade counters;
  - `materials`, `wind` — packing of interaction zones and wind zone order.
- `app/` — the Bevy plugin: components, configuration, ECS systems, and the
  floating-point geometry (blade shapes, wind blending, density sampling,
  footprints) that calls into the verified core.
- `tests/` — tests of the verified core.
