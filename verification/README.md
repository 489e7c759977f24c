# seedroad

A streaming open-world driving game: procedurally generated mountain terrain
around an endless road, rendered with wgpu and simulated with rapier3d.

- `src/` — the verified library (Verus): the seeded noise permutation and its
  lattice hashing, the window of terrain chunks streamed around the car with
  the slot bookkeeping of the GPU mesh pools, the integer side of erosion and
  road sampling, the index buffers of every procedural mesh, draw-list
  bookkeeping, hashing and xorshift streams, and keyboard input handling.
- `app/` — the program around it: window and event loop (winit), GPU
  rendering (wgpu), physics (rapier3d), and all floating-point geometry.
  Shaders are read at start-up from `shaders/*.wgsl` in the working directory.
- `tests/` — tests of the library.
