# Sheets library

Sheets manages the color themes, font and opacity of three terminal apps
(Ghostty, Kitty, Alacritty) by editing their config files. This crate is its
verified core, written in Verus: every function in `src/` carries a contract
that Verus proves.

## Layout

- `src/text.rs` — character-level text handling (trimming, splitting, lines,
  numbers) with its specifications.
- `src/kv_config.rs` — flat `key = value` / `key value` config files with a
  regenerated "managed" block; reading, editing and writing them back.
- `src/apps/` — the three apps' adapters: what applying a theme, a font or an
  opacity does to each config, and reading the current palette back.
  Alacritty's TOML document is handled through `toml_edit`.
- `src/theme.rs`, `src/theme_store.rs` — themes, the theme list, lookups,
  reverse-matching colors to a theme, saving, removing and exporting user
  themes.
- `src/ghostty_import.rs` — Ghostty's bundled theme files.
- `src/backup.rs`, `src/config_override.rs`, `src/day_night.rs`,
  `src/config_dir.rs` — per-app records (undo point, config override,
  day/night designations) and where files live.
- `src/update_check.rs`, `src/fonts.rs`, `src/commands.rs` — the update
  check's reply handling, the installed font families, and what the app's
  commands decide.
- `tests/` — tests of the library on concrete values.
- `app/` — the desktop app around the library: windows, menus, commands,
  files, processes and floating-point work.
