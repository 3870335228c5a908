# narm

Channel and codeplug management for handheld amateur radios, written in
Verus: the library under `src/` is verified, the command line under
`app/` is ordinary Rust around it.

`src/`:

- `channel` — the radio-independent channel model and its validation.
- `radio` — the supported radios and which channel modes each holds.
- `format` — codeplug / config file formats and how a command picks one.
- `convert` — which codeplug conversions exist, and doing them.
- `chirp` — CHIRP generic CSV export.
- `kgq336` — Wouxun KG-Q336: the `.kg` wrapper, the physical-dump
  reshaping, the rolling-XOR wire protocol, the live read session and
  the channel decoder.
- `uvk5` — Quansheng UV-K5: XOR/CRC framing, the read / write / reset
  sessions and the EEPROM channel decoder.
- `grid` — Maidenhead locators in exact integer units.
- `repeaters` — the text side of the repeater search (FTS5 escaping,
  SQL filter clauses).
- `text`, `step` — shared helpers.

`app/` holds `main`, argument parsing, the TOML loader, the serial-port
loops that drive the radio sessions, the SQLite repeater store and the
floating-point geometry. `tests/` exercises the library.
