# notion_tui

A terminal client for Notion workspaces. The screen logic — key and mouse
handling, the sidebar tree, page, table and board views, the modals, the
Markdown round trip used to edit a page in an external editor, fuzzy
ranking, key bindings, settings and the first-run wizard's prompt loop — is
a library whose behaviour is stated in `requires`/`ensures` contracts and
proved with Verus.

Layout:

- `src/` — the verified library. `app.rs` holds the screen state and the
  key/mouse dispatch, which returns the work it leaves to the program as an
  `Effect`; `ui/` the views and modals; `markdown/` rendering, parsing and
  planning an edited page; `text.rs`, `unicode.rs`, `json.rs`, `order.rs`
  shared text and value helpers.
- `app/` — the program around it: settings files, keyring, terminal,
  the local store and background sync, drawing with ratatui, and carrying
  out each `Effect`.
- `tests/` — tests of the library on concrete values.

Calls into `similar`, `unicode-segmentation`, `unicode-width`, `toml` and
`ratatui` that the logic makes stand behind small trusted wrappers whose
contracts name or describe their results.
