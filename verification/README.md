# libafix

Reading and writing `.aFix` (Adaptive Flexible Image X) files, and the integer
stages of the `.aFix` encoder, with their contracts proved by Verus.

## Layout

- `src/` — the verified library.
  - `file` — the container: header, ATOM_MAP and CRC-checked PAYLOAD chunks;
    `read` is specified by a parser over bytes, `write` by the bytes it
    produces, and reading what was written gives the file back.
  - `chunk`, `header`, `profile`, `error` — the container's types.
  - `crc` — CRC-32 of chunk data, computed by `crc32fast`.
  - `bspline`, `dct`, `encoder` — the `VEC_`, `LAT_` and `RES_` chunk formats
    and the chunk layout of an encode.
  - `canny`, `contour`, `contour_scan`, `saliency` — hysteresis edge tracking,
    contour tracing and resampling.
  - `info`, `cli`, `studio`, `text` — what the command-line tools and the
    desktop application decide and display.
- `app/` — the programs around the library: stream I/O, the floating-point
  encoder stages (blur and gradients, DCT, spline fitting, saliency), the
  JSON object manifest, the `afix-convert` and `afix-info` tools and the
  aFix Studio window.
- `tests/` — tests of the library.
