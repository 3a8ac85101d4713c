# drm_gfx

A small software renderer for Linux DRM framebuffers.

- `src/` is the verified library: colours and their `Bgr888` storage words,
  DMA-ready framebuffers (pixel storage, byte order, clearing), double
  buffering, rasterisation of points, lines and filled triangles, the
  index structure of meshes (validity, edges from faces), the assembly of
  the primitives a mesh produces, and the byte layout written to the
  display's mapped buffers.
- `app/` holds what runs around it: the floating-point camera and mesh
  transforms, lighting and back-face tests, the DRM device, the writer
  thread, and the `embedded-graphics` draw targets.
- `tests/` exercises the library.
