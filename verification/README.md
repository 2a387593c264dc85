# ray_tracer

A GPU ray tracer for scenes made of boxes and triangles, with a 2D canvas layer system.

The verified library (`src/`) holds the integer logic, each function proved against its
contract with Verus:

- `canvas`: RGBA canvases and their draw operations (clear, pixels, lines, rectangles,
  midpoint circles and discs, Bresenham lines), with laws on how queued operations compose.
- `bvh`: bounding volume hierarchy construction over primitive indices, statistics and the
  flat GPU layout; bounds and split choices come from two functions supplied by the caller.
- `grid`: the hierarchical uniform grid (saturating occupancy counts, capped per-cell object
  lists, every object counted and listed in id order) and its packing into GPU buffers.
- `gpu`: frame validation, dispatch sizing, the debug-pixel uniform and layer ordering.
- `timer`, `clock`, `controller`, `camera`, `display_context`, `perf`, `texture`, `bench`,
  `cli`, `demo`: timers, frame numbering, held buttons, camera movement input, display sizes,
  benchmark bookkeeping, texture widening to RGBA8, benchmark scene layout and options.

`app/` is the viewer program around it: window and event handling (winit), GPU setup and
rendering (wgpu, egui), scene construction and everything computed in floating point.
The WGSL shaders are read at start-up from a `shaders/` directory next to the working
directory (`raytracer_grid.wgsl`, `display.wgsl`).
