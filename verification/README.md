# serde_lax

Lax JSON decoding that reports every mismatch in one pass, verified with Verus.

A document is parsed into a `JsonValue` (through `serde_json`) and then walked
into the target type through the `FromJson` trait. Every part of the value that
does not fit is recorded as an `Issue` with its exact path (`$.customer.tags[2]`,
`$["weird key"].id`), what the target expected, and a description of what was
there. Decoding succeeds exactly when no issue is recorded.

## Layout

- `src/` — the verified library.
  - `json.rs`: the JSON document type, its mathematical model, and the calls
    into `serde_json` that parse text and bytes.
  - `path.rs`: paths into a document and how they render.
  - `error.rs`: issues, the error type, and the rendered error text (header,
    at most a hundred issue lines, then a summary of the rest).
  - `context.rs`: the decoding context — current path and recorded issues.
  - `impls.rs`: `FromJson` and its implementations for integers, `bool`,
    `String`, `Option`, `Vec`, `Box`, string-keyed maps and `JsonValue`.
  - `derive.rs`: the decoding steps of structs with named fields and of enums
    of unit variants (required, optional and defaulted fields).
  - `rename.rs`: the `rename_all` case conventions.
  - `text.rs`: decimal rendering and the small string helpers.
  - `laws.rs`: properties of the library as a whole, stated and proved over
    the specifications above.
- `tests/` — executable tests against the compiled library.
- `app/` — what verified code cannot hold: `Display`/`std::error::Error` for
  the error, floating-point targets, and decoding of an already parsed
  `serde_json::Value`.
