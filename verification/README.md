# zen_markdown

The document logic of a small markdown editor, verified with Verus.

- `src/` — the library. Its functions have contracts proved by Verus, but
  for the calls into other code, whose contracts are trusted: `parse_markdown`
  with its conversions `md_tag` and `md_tag_end` (pulldown-cmark's parser),
  `lowercase` (`str::to_lowercase`), `is_alphanumeric`
  (`char::is_alphanumeric`) and the specification of `String::push`.
  - `text`: characters, UTF-8 byte offsets, white space, trimming.
  - `editor`: selection-aware formatting (`apply_action`) and the editor's
    line-by-line syntax colouring (`highlight`).
  - `format`: toolbar commands and the append-style edits.
  - `preview`: the markdown render pass, from `pulldown_cmark` events to
    styled blocks.
  - `code`: colouring of code blocks.
  - `theme`: the Tokyo Night and Tokyo Day palettes.
  - `keys`: the keyboard shortcut table.
  - `state`: the window's document state (file, unsaved changes, panes,
    theme, title, word count).
  - `macos_open`: the queue of files the system asks the app to open.
- `app/` — the egui/eframe program around the library: windows, widgets,
  fonts, dialogs and file I/O.
- `tests/` — tests of the library on concrete inputs.
