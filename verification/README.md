# sprite_painter

Recreates a wanted image by laying tinted, rotated and scaled sprites on a
canvas. Each run scores many candidates, each laid on a copy of the canvas at
a random position; the best candidate's sprite, tint, rotation and size are
then laid on the canvas itself at a freshly drawn position.

- `src/` is the verified library (Verus):
  - `pixmap` — row-major RGBA buffers (8-bit and 16-bit) and 16→8-bit reading;
  - `score` — the pixel score (765 for the same colour, 0 for the opposite),
    the whole-image score, the debug picture, and laws about them;
  - `compose` — laying a sprite on the canvas (through `image`) and scoring it;
  - `draw` — the random choices of a candidate (through `rand`);
  - `run` — the best candidate of a run, run and session bookkeeping;
  - `count` — reading a typed count as an `i32`.
- `app/` is the program: prompts, file I/O, and the floating-point sprite
  transforms (tint, rotation, scaling, padding).
- `tests/` exercises the library.
