# folix

The core of a document reader (TXT, Markdown, DOCX, EPUB and PDF), written
in Verus: every function under `src/` carries a contract that Verus proves.

## Layout

- `src/` — the verified library:
  - text, encodings and paths: `text`, `decode`, `paths`, `sentences`;
  - reading documents: `markdown`, `chapters`, `xml`, `docx`, `html`,
    `epub`, `reflow`;
  - pagination and navigation: `paginator`, `viewer`, `tabs`, `docs`;
  - PDF toolbox plans (ranges, chunks, splits by contents): `pdfplan`,
    `toolbox`;
  - settings and interface state: `features`, `i18n`, `shortcuts`,
    `modes`, `services`;
  - the interface's decisions: the tab strip, what a shortcut does to the
    reading position and bookmarks, full-text search: `control`.
- `tests/` — tests that run the library with the real outside crates.
- `app/` — the command-line program: file and database I/O (SQLite),
  configuration files, EPUB reading through `rbook` and PDF work through
  `mupdf`, following the plans that the library computes.

Calls into outside crates (`encoding_rs`, `quick-xml`, `zip`, `image`) and
the few std functions without a specification in Verus (paths, lower-casing)
stand behind small trusted wrappers whose contracts say what the library relies on.
