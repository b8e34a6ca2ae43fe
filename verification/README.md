# ff_router

Routes clicked links to the right Firefox profile on macOS, and installs
itself. The logic is a Verus-verified library; two small programs drive it.

- `src/` — the verified library
  - `router/glob.rs` — a glob matcher (`*`, `?`, classes, nested braces)
  - `router/config.rs` — rules, `[profiles]`, `extends` merging, routing
    decisions and their explanations (globs are matched with `globset`)
  - `router/launch.rs` — what one invocation does: the Firefox command
    line, the debug-log line, the home directory
  - `installer/` — glob explanations, config generation, profile
    discovery parsing and labelling, the install plan, the command line,
    line diffs (through `similar`) and the wizard's state machine
  - `text.rs`, `strmap.rs`, `paths.rs` — text, map and path helpers
- `app/` — the router (AppKit on macOS) and the installer (ratatui TUI,
  file system, processes); it parses `~/.ff-router.toml` with serde/toml
- `tests/` — tests of the library
