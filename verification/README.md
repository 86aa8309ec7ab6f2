# pptx_render

Reads PowerPoint (`.pptx`) packages and renders their slides as PNG images.

- `src/` is the library, verified with Verus:
  - `archive` opens the zip container (through the `zip` crate),
    `xml` tokenizes parts (through `quick-xml`), `number` and `strings`
    decode attribute values;
  - `pptx` reads the slide size, the slide list in number order, each
    slide's relationships, shapes, fills, outlines, text and pictures, and
    the embedded media (`Presentation::open`);
  - `render` decides how each shape is painted (fill, stroke, text, image).
- `app/` is the command-line program: it reads the file, paints each slide
  with tiny-skia (text through fontdb and ttf-parser, images through
  `image`) and writes `slide_{n}.png` files.
- `tests/` exercises the library on small packages built in memory.
