# flip

An offline converter between document formats (PDF, Word, Excel, PowerPoint,
HTML, Markdown, CSV, text, EPUB, OpenDocument, SVG, JSON, YAML, LaTeX and
raster images), verified with Verus.

Every input is read into one document model, and every output is written
from it, so each format needs one reader and one writer.

## Layout

- `src/ir.rs` — the document model (blocks, inlines, metadata, formats) and
  its mathematical views.
- `src/parse/` — readers: text formats are parsed by verified code; zip
  containers, CSV, JSON, YAML, Markdown events, PDF text and image headers
  come from their crates through trusted wrappers whose results the verified
  code takes apart.
- `src/render/` — writers: each output is specified as a function of the
  document's view and built by verified code; packaging (zip, workbook, EPUB,
  Word, image encoding) goes through trusted wrappers.
- `src/cli.rs`, `src/paths.rs` — choice of output path and format.
- `src/laws.rs` — properties that relate several functions.
- `app/` — the command-line program: argument handling, file I/O, terminal
  output, and PDF page layout (floating point).
- `tests/` — tests of the library on concrete inputs.
