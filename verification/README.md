# wgpu_voxels

A voxel renderer built on `wgpu` and `winit`, whose CPU-side logic is a library
verified with Verus.

## Layout

- `src/` — the verified library:
  - `voxel_mask` — the occupancy buffer of a 64x64x64 chunk: region mask, coarse
    mask and per-region leaf masks; reading and marking voxels, deriving the coarse
    mask, and the laws that tie them together (a marked voxel reads back as set,
    marking one voxel changes no other, an occupied voxel always marks its coarse
    cell).
  - `scene` — the chunk grid and chunk streaming: chunks load one per step, in
    scene order, up to `MAX_ACTIVE_CHUNKS`.
  - `config` — the command line (`--headless-png`, `--delay-ms`, `--debug-view`).
  - `debug_view` — the debug views, their names, shader codes and number keys.
  - `gpu_sizes` — buffer sizes, row pitches and dispatch sizes, each proved to
    cover what it must.
  - `overlay` — the frame-rate counter and the glyph layout of the overlay text.
  - `frame` — per-frame decisions: the temporal history ping-pong and what to do
    with each answer of the surface.
- `tests/` — tests of the library.
- `app/` — the program: window and event loop, GPU resources and passes, camera
  and float geometry. WGSL sources are read at run time from a `shaders`
  directory beside the executable.
