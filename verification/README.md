# Recto

Recto post-processes scanned book pages: it orders and rotates them, crops
them with shared crop presets, adjusts their colours and exports them as
images or a PDF.

This crate holds the decisions behind that work as a library verified with
Verus. Every public function states in its contract what it returns or how
it changes the project, over mathematical models of the data (sequences of
pages and presets, strings as sequences of characters).

## Layout

- `src/project.rs` – the project model: pages, crops, crop presets.
- `src/presets.rs` – detecting presets from page sizes, applying, resizing,
  deleting presets, the crop margin, the crop view's status line.
- `src/chips.rs` – the preset chips of the crop view.
- `src/detect.rs` – placing crops found by content detection.
- `src/arrange.rs` – rotating, removing and reordering pages, drag and drop,
  matching pages with the thumbnails already loaded.
- `src/handles.rs` – handle selection and cursors of the crop editor.
- `src/imaging.rs` – EXIF-corrected sizes, crop regions, pixel packing.
- `src/latest.rs` – latest-wins preview requests.
- `src/panes.rs` – the divider shared by the side panels, the load counter.
- `src/session.rs` – unsaved changes, window title, closing.
- `src/export.rs` – export settings, pre-export checks, the export report.
- `src/text.rs`, `src/types.rs` – messages, identifiers and errors.
- `app/` – the command-line entry point, background threads and the
  floating-point geometry of the editor and preview.
- `tests/` – tests of the library on concrete values.
