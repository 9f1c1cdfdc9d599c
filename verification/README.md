# rustconn

The decision-making core of the RustConn connection manager, written in
Verus: the public functions in `src/` carry contracts, private helpers carry
what their callers need, and Verus proves the code meets them.

## Layout

- `src/` — the verified library:
  - `utils` — variable extraction from templates, text truncation, duration
    and byte-size formatting;
  - `strings`, `seqs`, `ids` — text building blocks, sequence helpers, and
    UUID identifiers (generated, parsed and rendered by the `uuid` crate);
  - `split_view` — panes of the split terminal view and the sessions they
    show;
  - `terminal` — the tab notebook, tab presentation, terminal settings and
    SSH command lines;
  - `sidebar`, `sidebar_ui` — session status, search history, protocol
    filters, selection and item presentation of the connection tree;
  - `sidebar_tree` — the tree of documents, groups and connections: how
    documents are laid out, depth-first lookups and status changes;
  - `drag_drop` — the text protocol of drag and drop in the tree;
  - `toast` — the notification queue;
  - `validation` — form field rules, feedback and validity tracking;
  - `state` — unique names, the password cache, the clipboard, the active
    document, credential decisions and templates;
  - `import`, `history`, `ordering`, `dialogs` — import planning, history
    trimming and session restore, display order, and dialog texts and
    decisions.
- `tests/` — tests that run the library with the real outside crates.
- `app/` — the GTK widgets that show what the library decides.

Verify with `verus --crate-type lib src/lib.rs` (with the outside crates on
the library path); the contracts are the documentation of each function.
