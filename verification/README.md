# Atlas Maker

A desktop tool for building texture atlases and painting pixel-art tiles.
The atlas side is a grid of cells (16 × 16 by default) that each take an
image, scaled to the cell size (64 px by default); **Save Atlas** writes one
PNG with every image at its grid position, plus a JSON file listing each
filled cell (index, row, column, position, size and source file). **Load
Atlas** reads both back into the grid. The texture side is a small pixel
editor: brush, eraser, flood fill and eyedropper, mirror painting, an undo
history of at most 50 steps, a library of saved blocks, and a 3D preview.

## Layout

- `src/` — the library, verified with Verus. Every decision about pixels,
  cells, atlases, the editor's history and the hex color field is here, with
  its contract and the laws that tie the operations together.
  - `color`, `bitmap` — RGBA colors and bitmaps, modelled as maps from
    pixel to color.
  - `paint`, `line`, `fill` — stamping with mirroring, Bresenham lines,
    flood fill.
  - `workspace` — the pixel editor: tools, shortcuts, pointer events, undo
    and redo.
  - `atlas`, `studio` — the cell grid, atlas packing and restoring, and the
    application state with its status messages.
  - `text` — trimming, hex color parsing, decimal numbers.
  - `outside` — the few calls into `egui` and `image` that are trusted
    rather than proved, each with the contract it is trusted for.
- `tests/` — tests of the library on concrete values.
- `app/` — the egui window around the library: dialogs, files, JSON, GPU
  textures, pointer geometry and the floating-point 3D preview.
