# picture_genetics

A picture is approximated by stamping small textured square blocks onto a
canvas; each block is chosen by an evolutionary search that scores candidates
by how much they lower the sum of squared differences to the target.

- `src/` is the verified library (Verus): pixels and alpha blending
  (`pixel`), canvases with their sum of squared differences and average colour
  (`canvas`), blocks resolved to pixel footprints, their stamping, their
  sampled scoring and the rendering of a whole picture (`block`), the integer
  bookkeeping of the search (`evolution`), the picture file filter (`files`),
  the graphics-card buffer limits (`gpu`), and finite sums for the proofs
  (`sums`).
- `app/` is the program around it: the window, file loading and saving, the
  graphics-card scorer, the threads, and the floating-point block geometry
  (position, scale and the resulting score), which the library receives
  already resolved to integer footprints.
- `tests/` exercises the library on concrete values.
