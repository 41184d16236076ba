# visualgcode

An interactive G-code visualizer for pen plotters and 3D printers (egui +
wgpu), whose core is a library verified with Verus.

## Layout

- `src/` — the verified library
  - `program.rs`: reads G-code text into blocks with the `gcode` crate
    (the only trusted code: thin wrappers round `gcode::parse` and the
    fields of its program). Literal values travel as the bit patterns of
    their binary32 numbers; the library never computes with them. A
    parse error reads "Parse error: " and the parser's diagnostics.
  - `numbers.rs`: follows the gcode lexer token by token to tell the
    sources on which its command-number arithmetic would overflow `u32`
    (the parser does not return there); `command_numbers_fit` decides it.
  - `block.rs`: what a block asks for — which motion (G0 over G1 over
    G2/G3), the last literal value of each axis letter, or the distance
    mode (G90/G91) it selects.
  - `toolpath.rs`: assembles the toolpath move by move. Proved: segments
    are numbered by position and chained end to start; layers are
    consecutive non-empty ranges that partition the segments; every
    segment's layer index names the layer that holds it.
  - `vertices.rs`: the line list (two vertices per segment) for the GPU.
  - `playback.rs`: the playback position — stepping, skipping, advancing
    and the play button — proved to stay on the toolpath.
  - `modes.rs`: machine and view modes.
- `app/` — the program: window, file loading, GPU rendering, camera math,
  and the floating-point geometry (endpoints, arc tessellation, bounds,
  tolerance comparisons) that drives the library.
- `tests/` — tests of the library, including the parser scenarios.
