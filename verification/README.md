# stix

A verified toolkit for STIX 2.1: a lexer and parser for the patterning language,
an object model for STIX objects and bundles, and a matcher that evaluates
patterns against observed objects. The library in `src/` is written in Verus;
every function there carries a contract that Verus proves.

## Layout

- `src/pattern/` — tokens, the pattern AST, and a recursive-descent parser. The
  grammar is stated as spec functions over the token sequence; `tokenize` and
  `parse` return exactly what those functions give for the input's bytes.
- `src/model/` — `StixValue` (a JSON-shaped value; floats are carried as their
  binary64 bits), generic and typed (`observed-data`) objects, bundles, and an
  id-indexed `ObjectStore`.
- `src/matcher/` — comparison of values with literals (IEEE-754 order and
  equality computed on bits), `ISSUBSET`/`ISSUPERSET` over IPv4/IPv6 networks,
  `LIKE`/`MATCHES` through the `regex` crate, object-path resolution through the
  store, and evaluation with one object bound per referenced type.
- `src/ffi/` — the flat error codes and outcomes that language bindings use.
- `src/binary64.rs`, `src/text.rs` — binary64 bit patterns, string helpers.
- `app/` — the host-facing layer: JSON text in and out (`serde_json`), the model
  registry with consumer callbacks, the binding engine and its handles, and
  error types with `Display`.
- `tests/` — the test suite.

## Trusted boundary

Calls into outside code go through a few wrappers marked
`#[verifier::external_body]`: collecting characters into strings and back,
`serde_json`'s decimal-to-binary64 conversion, and `regex`'s `escape`,
`Regex::new` and `Regex::is_match`. Their doc comments say what is assumed.
