# engine

The integer core of a small procedural 3D engine, written in Verus: every
function in `src/` carries a `requires` / `ensures` contract that Verus proves.

`src/` holds what the engine decides and computes without a GPU or floats:

- `space`, `volume`, `clipmap`: chunk addressing, the volume sample grid and
  its seams, the streaming ball and the clipmap index buffers.
- `entities`, `spaces`, `resources`: the world's handle tables (entities,
  portals, streamed and anchored chunks, spaces, textures and materials),
  with their invariants and the laws that relate their operations.
- `terrain_stream`: the ring of terrain columns kept around the camera and
  the per-frame budgets for building and uploading them.
- `render_plan`, `render`, `instance_cull`, `shadow`: which pass lists and
  cull jobs each mesh joins, how instance batches and GPU caches are kept in
  step with the world, and the counters of the hitch log.
- `texture`, `shade`, `tree`: generated albedos in fixed-point arithmetic and
  the seeded hash behind them. The albedos come from integer value noise in
  thousandths, so their bytes are those of this recipe; they do not reproduce
  the output of a floating-point sine/cosine noise generator, though size,
  opacity, determinism, exact tiling and distinct cave cells are the same
  in kind.
- `ribbons`, `vfx`, `gpu_profile`, `text`, `error`: handle slots with
  generations, effect tables, the profiling interval, and diagnostic text.

`app/` is ordinary Rust around the library: PNG files, environment variables,
worker threads, and the floating-point parts (colours, ribbon styles, tree
profiles, effect validation). `tests/` exercises the library on concrete
values.
