# pklx

Pkl ↔ Nix interop: evaluated Pkl values are written as Nix expressions,
JSON-compatible Nix data is written as Pkl, and evaluated Pkl values are
deserialized into Rust data.

The library under `src/` is verified with Verus:

- `nix_serializer` — the value model (`PklValue`), the Nix writer and its
  options, string and attribute-name escaping, and the proofs that every Nix
  string and quoted name reads back as the text it was made from and that
  class names are carried through, for empty objects too.
- `deserializer` — Pkl string literals (with the proof that every literal
  reads back as its string), the error type, and the decisions of the value
  deserializer: which visitor call answers which request, every failure and
  its message, and the order in which list elements and object properties
  are handed out.
- `cli` — JSON-compatible data written as Pkl (strings as Pkl literals,
  other names than identifiers as `["name"]` entries), and the NixOS module
  wrapper.
- `text` — character-level helpers (search, replacement, decimal text,
  trimming).

`app/` holds the command line, evaluation with `pklr` (file and network I/O),
the serde trait implementations that follow the library's decisions, and the
conversions from `pklr` and `serde_json` values, including float formatting.
