# state-collector

Collects system state on a device: runs common system commands, parses what
they print into records, renders the records as plain-text reports, and
packs everything a Rune script writes into a gzip-compressed tar archive.

## Layout

- `src/` — the verified library.
  - `text.rs`: the character model (whitespace, trimming, lines, words,
    searching, unsigned numbers, decimal output, padding) and the
    executable primitives proved against it.
  - `types.rs`: the records and their views.
  - `parse.rs`: the parsers for `free`, `df`, `du`, `lsblk`, `lspci`,
    `lsusb`, `ps`, `netstat`, `systemctl`, `mount`, os-release and
    key/value output, each with an exact contract.
  - `render.rs`: the report renderers, byte-count and uptime formatting.
  - `laws.rs`: properties that hold for every input (field splitting,
    the `lsblk -P` round trip, the unit list and its order, error notes,
    rounding).
  - `layout.rs`: the line structure of the rendered tables (title,
    underline, header, one line per record) and what each row holds.
- `app/` — the program around the library: command-line handling, running
  commands, reading files, the Rune module and its records (with serde and
  Rune derives), floating-point values, and the archive tools
  (`sc-unpack`, `sc-decode`, selected by the name the binary runs under).
- `tests/` — tests of the library, including checks against the same
  parsing and formatting written with the standard library's own methods.
