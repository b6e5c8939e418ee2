# covecto

Dual-engine image vectorization: **PixelExact** (flood fill, boundary
tracing, rectilinear SVG paths) for icons and pixel art, **Spline**
(vtracer: color quantization, contour tracing, Bézier fitting) for photos,
and **Auto**, which picks one from the image's size and colors. The SVG can
be optimized and converted to PDF or EPS.

The library in `src/` is written in Verus; its functions carry contracts that
Verus proves.

- `engine/` — the pixel-exact engine (`region`: flood fill and boundary
  edges; `sort`; `trace`: walking edges into pieces; `emit`: path data;
  `color_table`: path data per color in a `BTreeMap`; `pixel_exact`: the
  document; `guarantees` and `enclosure`: what holds of
  its output as a whole, down to every pixel being drawn in its color;
  `ascii_svg`: the document is ASCII) and the spline engine (`spline`: vtracer's parameters and call).
- `optimize` — the SVG optimization passes and presets; `optimize_size` —
  on ASCII text they always succeed and add at most a final newline.
- `export` — output formats: SVG as is, PDF (svg2pdf), EPS.
- `config`, `error`, `image` — configuration, errors and image loading, the
  RGBA raster.
- `api`, `cli` — the rules of the HTTP API and of the command line.
- `lib.rs` — engine selection and the `vectorize` entry point.

`app/` holds the program around it: the command line (clap), the HTTP server
(axum), file I/O and JSON shapes.

## Limits

- The spline engine's binary mode is refused for images of 65 535 pixels or
  more: vtracer's clustering numbers clusters with a 16-bit index and panics
  once it runs out, and no exact condition short of running it says when.
  The bound here is conservative.
- Where vtracer's key color for transparent pixels would be chosen at random
  (a color image that holds all six fixed key colors), and for PDF bytes
  (svg2pdf walks hash maps when writing resources), the library states the
  shape of the result but not the result itself.
