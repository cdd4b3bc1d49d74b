# exodium

A launcher for the eXo collections of DOS, Windows and ScummVM games. What it decides
is proved with Verus; what it does to the disk, the network and other programs is
ordinary Rust around that.

- `src/` is the library. It works on plain values: rows of the catalogue, texts of
  configuration files, and snapshots of what is on disk. Every public function says in
  its contract what it returns, and what holds of several functions together stands as a
  proof function whose name begins with `law_`.
- `app/` is a command-line program around the library. It reads the disk and the
  database, hands the library what it found, and performs the steps that come back.
- `tests/` run the library on concrete values.

## Modules

| Module | What it is about |
| --- | --- |
| `collections`, `models`, `library`, `scan` | the collections, their games, and what of them is on disk |
| `install`, `uninstall`, `archives`, `lp_overlay` | downloading, unpacking, removing and resetting games |
| `conf`, `staging`, `lp_launch`, `games`, `emulator`, `scummvm` | launching games |
| `content_packs` | packs of cover art, metadata and emulators |
| `assets`, `media`, `cache`, `titles` | pictures, videos, music, and what they are found by |
| `reading` | magazines |
| `paths`, `layout`, `fspath`, `order`, `table`, `text` | paths, orders, tables and texts |
| `outside` | the digests and parsers of other crates, with what is relied on of them |
