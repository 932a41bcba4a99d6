# spec-viewer

A terminal viewer for `.kiro/` spec directories and for any directory of
markdown files: a tree of specs (phase and progress badges) beside a
rendered document, with mermaid diagrams drawn as text.

## Layout

- `src/` — the library, written in Verus, with contracts proved:
  - `spec/` — reading a `.kiro` snapshot into specs, their phases,
    progress and sort orders, the `--all` markdown tree, and the search for
    the `.kiro` root;
  - `markdown/` — markdown events to styled, wrapped lines: headings,
    lists, quotes, tables, code blocks, footnotes, Hangul jamo composition;
  - `markdown/mermaid/` — the mermaid parser, a character canvas, the
    `builtin` and `mdview` graph layouts, the sequence-diagram layout and
    the engine registry;
  - `app/` — the reducer that turns keys and mouse events into state
    changes and effects, document loading, search, the clipboard sequence;
  - `cli.rs`, `path.rs`, `text.rs`, `width.rs` — arguments and startup
    refusals, paths, character sequences and display widths.
- `app/` — the program: argument parsing, the terminal, file reads, the
  directory walk of `--all`, and the event loop that runs the reducer's
  effects.
- `tests/` — tests of the library's public functions.

Outside crates (pulldown-cmark, syntect, serde_json, unicode-width,
unicode-segmentation) are called from the library through small trusted
wrappers whose contracts state what their documentation promises.
