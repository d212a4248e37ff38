# termdraw

A terminal drawing library. Drawables (lines, rectangles, circles, sprites
and video streams) are rasterised into a cell buffer; each cell keeps what
every object put there and shows the topmost entry. Dirty regions are kept
as intervals over the flattened screen, merged, and turned into batches of
same-coloured character runs for the terminal writer. Screens group
objects, a renderer owns screens, objects, sprites and the buffer, and an
input state machine tracks keys, mouse and focus and routes events to
subscribers.

Layout:

- `src/` — the library, verified with Verus: `update_interval` (dirty
  intervals), `screen_buffer` (cells and batches), `drawables`, `sprites`,
  `shaders`, `screens`, `objects`, `renderer`, `builders`,
  `basic_draw_creator`, `input`, plus `cell`, `geometry`, `clock` and
  `errors`.
- `tests/` — tests of the library.
- `app/` — a terminal program on the library: terminal set-up, the writer
  of draw commands, the render and input threads, asset loading, graphs
  with floating-point scaling, logging.
