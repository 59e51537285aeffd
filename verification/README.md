# minutes_core

The decisions behind the Minutes meeting recorder, written in Rust and proved with Verus.

- `src/` is the verified library.
  - The search index: `search_index`, `sync`, `direct` and `restricted`, over the tables and
    statements of `projection` and `queries`; `search_laws` and `sync_laws` state what holds of
    the whole.
  - Meeting files and paths: `meeting`, `corpus`, `paths`, `sanitize`, `text`, `errors`.
  - The microphone: `lineage`, `chunk_writer`, `signal`, `observations`, `selection`, `worker`.
  - The graph journal: `journal`, `descriptors`.
  - Worker timings and the installed binary: `timing`, `install`.
- `tests/` runs the library with the real outside crates.
- `app/` is ordinary Rust around it: files, processes, the audio session and the kernel's queue.

SQLite, serde_json, chrono, crossbeam-channel and PocketStation are called through small wrappers.
Each wrapper says in its comment what is taken on trust of the function that it calls.
