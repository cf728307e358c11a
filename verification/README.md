# steamlite

A lightweight Steam client. The library (`src/`, verified with Verus) holds
what the client computes: reading `appmanifest_*.acf` and `localconfig.vdf`
files into the game library and the friend list, ordering them, choosing
which game names to fetch from the store and reading its answer, decoding
the header images, finding Steam and steamcmd and planning downloads, and
the state of the screens and how user actions change it. `app/` is the egui
program around it: windows, files, HTTP, processes and threads.

- `src/text.rs`: `trim`, `lines`, `find`, `split`, integer parsing and
  formatting over characters, with their specifications.
- `src/acf.rs`, `src/vdf.rs`: the two Steam file formats.
- `src/model.rs`, `src/library.rs`, `src/sorting.rs`: games, friends, the
  library and its order.
- `src/names.rs`: real names for placeholder-named games; the names cache.
- `src/steam.rs`: Steam folders, the registry answer, steamcmd and downloads.
- `src/state.rs`, `src/display.rs`: screen state and the texts shown.
- `src/images.rs`: decoding the game cards' header images (with `image`).
- `src/laws.rs`, `src/library_laws.rs`: properties that span several
  functions; the second states, game by game, what the loaded library holds.
