# z-tools core

The logic of z-tools, a tray-resident launcher whose first tool is a
clipboard history, as a Verus library with proved contracts, and the desktop
program around it.

- `src/` — the verified library (`z_tools`):
  - `clipboard.rs`: the history's data model, the BLAKE3 deduplication hash
    with kind domains, searchable text and file names;
  - `backend.rs`: what a copied text, image or file list becomes (thresholds,
    pixel hash, thumbnail size, PNG coding), the order in which clipboard
    formats are read, what is written back;
  - `store.rs`: the history table held in memory: deduplicating write,
    eviction beyond 500 non-favorites, favorites, deletion, filtered cursor
    paging and the list entries;
  - `store_laws.rs`, `paging_laws.rs`, `hash_laws.rs`: the properties that
    span operations (eviction, read-back, paging, hash separation);
  - `commands.rs`: argument checks of the front end's commands;
  - `launcher.rs`: placement of the launcher and its show / hide rules;
  - `platform.rs`, `keys.rs`: decisions of the platform layers (paste
    keystrokes, change notifications, watcher loops, Wayland fallback,
    window activation, keycode lookup);
  - `text.rs`, `error.rs`, `seq_facts.rs`: strings, the error type, lemmas.
- `tests/` — tests of the library, run against the real outside crates.
- `app/` — the program: window runtime, SQLite persistence of the verified
  store, the system clipboard, Win32 and X11 calls.
