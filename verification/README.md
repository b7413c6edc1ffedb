# llmfmt

A deterministic formatter for structured data headed toward LLM prompts,
written in Verus. It parses JSON, YAML, TOML, CSV and TOON into one document
model, sorts object keys, analyzes the shape of the data, routes it through a
frozen heuristic profile, and emits TOON, TSV, YAML or compact JSON, with a
byte-based size report.

## Layout

- `src/` — the verified library.
  - `json.rs`: the document type `JsonValue` and its model `Json`.
  - `codecs.rs`: the trusted items that reach serde_json, serde_yaml, toml,
    csv and toon-format; their contracts are believed, not proved.
  - `io.rs`: input checks, format detection, parsing (CSV cells, TOML values).
  - `output.rs`: canonical key order, TSV writing, the emitters, fencing.
  - `analysis.rs`, `profile.rs`: the shape summary and the two routing profiles.
  - `validation.rs`: what TSV output accepts.
  - `stats.rs`: the size report.
  - `lib.rs`: `convert`, with its whole contract stated as `conversion`, and
    the laws that relate its options and results.
  - `text.rs`, `order.rs`: characters, lines, numerals and key order.
- `app/` — the command line: argument parsing, file and standard I/O, and the
  floating-point `delta_percent` of the JSON report.
- `tests/` — tests run against the compiled library and the real codec crates.
