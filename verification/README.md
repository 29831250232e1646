# showcase

A small distributed Mandelbrot rendering lab: a worker renders RGB8 tiles, a
renderer splits an image into tiles, sends them to a worker, assembles the
answers by tile coordinates and writes a PNG, and a demo server answers
greetings after a per-node delay.

## Layout

- `src/` is the library, verified with Verus. Each public function states
  what it returns in `ensures`, over spec functions; the laws of the library
  are public proof functions (`lemma_*`).
  - `plan`: the row-major tile plan of an image (`plan_tiles`, `fill_plan`).
  - `assemble`: putting tile responses back into an image (`assemble_rgb`,
    `assemble_into`), with the laws on placement, order and completeness.
  - `fractal`: layout, checks and colouring of a tile (`render_tile_with`,
    `fill_tile`, `escape_color`).
  - `image`, `png_output`: RGB8 byte layout and PNG encoding.
  - `args`: the renderer's command line.
  - `api`, `origin`, `hello`, `delay`: the hello API, client origins and
    worker targets, the greeting, and the demo nodes' response delays.
- `app/` is the program around it: `main`, HTTP servers and clients, files,
  environment, and the floating-point sampling of the Mandelbrot set.
- `tests/` runs the library on concrete values.

Calls into `png`, `http` and `rand` go through a few trusted wrappers whose
doc comments say what is assumed of them.
