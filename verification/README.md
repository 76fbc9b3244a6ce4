# bc-mur

Multipart UR QR code generator: single-frame and animated fountain-coded QR
sequences with an optional logo overlay, written in Verus.

## Layout

- `src/` — the verified library.
  - `color.rs` — RGBA colors, hex parsing and hex text.
  - `correction.rs` — error correction levels and their names.
  - `qr_matrix.rs` — QR module matrices (symbols built by the `qrcode`
    crate) and the density limit.
  - `pixels.rs` — pixel offsets, reading and writing pixels, rectangles.
  - `render.rs` — module-aligned rendering, logo compositing (clearing and
    alpha blending), nearest-neighbor scaling, PNG/JPEG encoding through
    `image`.
  - `logo.rs` — clear shapes, logo layout, prepared overlays, image
    decoding through `image`, alpha demultiplication.
  - `quantize.rs` — palettes for GIF frames (exact, or learned by
    `color_quant`).
  - `animate.rs` — fountain-coded frames (`bc_ur`) and animated GIFs (`gif`).
  - `options.rs` — decisions of the command line: output format, colors,
    density check, dumped frame names.
  - `text.rs` — ASCII case mapping and decimal digits.
- `app/` — the `mur` command line, and what needs floating point, files or
  processes: logos with a fractional size and bilinear scaling, SVG
  rendering, frame timing, writing PNG frames, ProRes output through `ffmpeg`.
- `tests/` — tests of the library.

The image that `render_qr` produces is specified pixel by pixel: each pixel
is the color of the module under it (or the quiet zone), with the logo
overlay cleared and blended in, scaled to the requested size by nearest
neighbor.
