# rt

A small ray tracer that renders ASCII `P3` PPM images to standard output.

- `src/` is the verified library (Verus): reading the command line
  (`config`, with decimal number reading in `text`), choosing a scene by name
  (`scene`), picking the cube face a point lies on (`object`), choosing the
  nearest hit and testing for shadow on the bit patterns of `f64` distances
  (`hit`), and encoding the image as PPM text (`ppm`).
- `app/` is the program around it: the floating-point geometry, lighting and
  scene data, the standard input and output, and `main`.
