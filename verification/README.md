# rein

The discrete core of a small 3D rendering and rigid-body physics toolkit, written in
Verus with its behaviour stated in contracts and proved.

- `src/` — the verified library: window settings and input state (`window`,
  `control`), the OBJ reader and mesh / terrain index generators (`obj`, `text`,
  `mesh`, `terrain`), the scene object store (`scene`), renderer bookkeeping
  (`render`, `culling`), broadphase and narrowphase decisions (`physics`), and the
  URDF naming rules (`urdf`).
- `tests/` — tests of the library on concrete values.
- `app/` — the rest of the toolkit around the library: `f32` geometry, GPU buffers,
  window-system and file glue.
