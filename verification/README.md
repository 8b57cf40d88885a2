# home_sync

A declarative user-environment manager for Windows: one TOML file declares
the Scoop buckets and packages that should be installed and the dotfiles that
should be copied or deep-merged into place; `home-sync sync` makes the machine
match it.

The decisions behind a sync are a library verified with Verus:

- `src/config.rs` — the configuration model, `~` expansion of targets and the
  `scoop/persist` location of persist entries.
- `src/scoop.rs` — reading `scoop bucket list` / `scoop list` output (ANSI
  codes stripped, headers skipped) and planning what to add and what to
  remove; the plans are proved to converge on exactly the declared set and to
  be empty once it is reached.
- `src/merge.rs` — deep merge of document trees (objects keyed by text);
  proved to follow the key-by-key rule (source overrides, target-only keys
  kept, objects merged recursively) and to be idempotent up to entry order.
- `src/documents.rs` — the JSON and YAML texts of a merge: JSON is parsed
  with `serde_json`, merged as trees and written out pretty-printed; YAML is
  parsed with `serde_yaml` and merged on its own mappings (keys matched as
  YAML values, a replaced key moving to the end).
- `src/gitconfig.rs` — deep merge of git configuration files on top of
  `gix-config`: source values win, target-only values stay, missing
  sections are appended.
- `src/dotfiles.rs`, `src/cli.rs` — copy/merge steps, conflict handling,
  prompt answers, command-line flags.
- `src/text.rs` — whitespace, trimming, words and lines.

`app/` is the command-line program: argument parsing, reading the
configuration file, running Scoop, touching the file system and printing.
`tests/` exercises the library on concrete values.

`gix-hash` is a dependency only to switch on its `sha1` feature: without a
hash feature the `gix-config` dependency tree does not build.
