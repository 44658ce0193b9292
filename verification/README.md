# plotcore

The integer core of a small plot renderer, verified with Verus.

- `src/blend.rs` — channel arithmetic for compositing (mix, alpha accumulation, glyph opacity).
- `src/canvas.rs` — the RGBA8 canvas (sized and filled through tiny-skia), glyph blitting,
  translucent cell filling and PNG encoding.
- `src/label.rs` — vertical labels: glyph stamping along a baseline and the quarter turn.
- `src/colors.rs`, `src/layout.rs`, `src/kinds.rs`, `src/plan.rs` — colour, margin, image-row,
  name and drawing-order rules.
- `app/` — the Python extension module: reading the plot specification, floating-point
  layout and path drawing with tiny-skia, font rasterization with fontdue.

The extension reads its font from `PLOT_FONT_PATH` (default `assets/DejaVuSans.ttf`).
