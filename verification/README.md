# AquaForge

An underwater voxel sandbox. The game's rules and data structures form a
library verified with Verus; a Bevy application drives it.

## Layout

- `src/` — the verified library:
  - `blocks`, `coords`: block types and integer grid coordinates;
  - `chunk`: the 16³ block grid and column-driven terrain generation;
  - `mesher`: greedy meshing with per-vertex ambient occlusion, specified
    as the greedy rectangle decomposition of each face slice;
  - `chunk_map`: chunk position → entity map, and the world/chunk split;
  - `world`: streaming decisions (load ring, what to spawn and despawn);
  - `inventory`, `edit`, `headlights`: hotbar, block editing and toggles;
  - `atlas`, `noise`, `db`: atlas layout and texel writes, integer noise
    hashes, and the seed contents of the block database.
- `app/` — the Bevy application: rendering, input, floating-point noise
  and physics, and the SQLite database.
- `tests/` — tests of the library.
