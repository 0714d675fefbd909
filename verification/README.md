# voxelverse

A voxel sandbox world: chunked block terrain around a flat spawn plain,
oak and pine trees, procedurally painted block textures in one atlas,
chunk meshes of the visible block faces, chunk files on disk, a hotbar
inventory and a third/first-person player.

## Layout

- `src/` is the library, verified with Verus. Every public function states
  its result in its contract, and the laws of the world are proof functions
  beside the code they speak of:
  - `world/`: block kinds and their byte codes, chunks and their cell
    indexing, the terrain layering rules, tree shapes, chunk assembly with
    trees that only fill air, the chunk streaming square, and the saved
    chunk record (bincode layout, decimal file names) with its save/load
    round trip.
  - `rendering/`: face culling, the unit-face quads of a chunk, face
    tangents and index buffers, the texture generators and the atlas.
  - `inventory/`, `player/`, `ui/`: slots and the hotbar keys, camera views
    and cursor capture, the movement decisions, the minimap legend.
- `app/` is the Bevy program around the library: windows, input, entity
  spawning, Perlin-noise height maps and every floating-point computation
  (player physics, limb animation, ray casting, texture coordinates, the
  day/night sky), and the file I/O for chunk records.
- `tests/` runs the library on concrete values.

The Bevy dependency names the rendering, UI and asset features the program
uses; a window backend (`bevy_winit` with `x11` or `wayland`) has to be
added to `Cargo.toml` to open a window.
