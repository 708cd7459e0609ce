# superhq

The decisions behind a window of sandboxed agents: a text input, the review of changed files, tabbed
terminals and their start, themes, settings, dialogs and remote access. Each is plain data with
functions whose contracts Verus proves.

- `src/` is the library.
  - `components/`, `dock.rs`: text input with undo, scrollbar, toast, docks and panes.
  - `review/`: diffs, highlighting, the watcher's classification, the list of changes.
  - `terminal/`: tabs, workspaces, the start of an agent, what the panel shows.
  - `settings/`, `dialogs/`, `sidebar/`, `setup.rs`, `theme.rs`: windows and their data.
  - `remote/`: who is let in, pairing, commands, the server's life.
  - `text.rs`, `text_order.rs`, `text_set.rs`, `text_map.rs`: texts and collections of them.
- `tests/` runs the library.
- `app/` holds what surrounds it: files, sandboxes, processes, clocks and pixels.

Calls into other crates stand behind functions marked `external_body`. The comment above each says
what is believed of the call.
