# calki

The verified core of calki, a terminal note editor for Markdown notes with
math lines, wiki links and checklists. Every function under `src/` carries a
contract that Verus proves.

Layout:

- `src/text.rs` - character classes and small text helpers.
- `src/edtui/` - the editor model: buffer, cursor, modes, selection, undo and
  redo, cursor motions, indenting, header folding, soft wrapping and mouse
  handling.
- `src/highlight/` - Markdown and math syntax highlighting of the buffer.
- `src/links.rs` - the link under the cursor and where it points.
- `src/markdown.rs` - a note as an HTML page.
- `src/math/` - exact rational numbers, quantities with units and their
  text, symbolic expressions (simplification, derivatives), time zones.
- `src/editing.rs` - checklists, wiki-link wrapping, insertion, whole-word
  search, line heights.
- `src/keys.rs` - the keyboard and mouse decisions of the interface.
- `src/terminal.rs`, `src/currency.rs`, `src/version.rs` - escape
  sequences, the rate cache's place and age, release versions and the
  update check's reading of the crates.io reply.
- `app/` - the terminal program around the library (I/O, threads, the
  clipboard, network requests and drawing).
- `tests/` - tests of the library.
