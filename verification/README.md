# raytracer

A path tracer for spheres, quads and triangles, split in two:

- `src/` is a library verified with Verus. It holds the integer logic of the
  renderer: the pixel neighbourhoods of the bilateral filter
  (`postprocessing`), the permutation tables and lattice hashing of Perlin
  noise (`noise`), the split axis, halving and box corners of the
  bounding-volume hierarchy (`bvh`), texel addressing (`texture`), the byte
  layout of written images (`write_img`) and the parameterless materials
  (`materials`). Each function states its result exactly; the `lemma_*`
  proof functions state the properties that hold across calls.
- `app/` is the program around it: vectors, rays, intersection, shading,
  cameras, rendering loops and image files, all of which compute on
  floating-point numbers and are therefore not verified.

`tests/` runs the library on concrete inputs.
