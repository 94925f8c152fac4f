# game_settings_master

The logic of a game settings tool for Unreal and Unity games, written in
Verus: every function in `src/` carries a contract that Verus proves.

- `src/` — the verified library.
  - `reshade/` — ReShade preset INIs (parsing, rebuilding, overrides,
    read-back laws), graphics APIs, bundle checks, install/launch decisions,
    per-game settings, status of a game directory.
  - `remote_presets/` — preset server settings, catalogs and pack manifests,
    which pack applies to a game, sync planning, version ordering.
  - `profiles.rs` — game profiles and per-game INI overrides: validation,
    storage lists and their laws.
  - `unity.rs` — Unity `boot.config` reading and writing, Unity presets,
    where a game's config lives.
  - `scalability.rs` — Unreal scalability limits from INI files.
  - `text.rs`, `paths.rs`, `safety.rs` — text, path and identifier
    primitives with their specifications.
- `tests/` — tests of the library on concrete values.
- `app/` — file, network and registry access around the library: it reads,
  hands plain values to the library, and carries out what the library
  decides.
