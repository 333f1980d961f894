# phonemica

An English (US/GB) text-to-phoneme toolkit whose core is verified with Verus.

## Layout

- `src/` — the verified library.
  - `text.rs`: character-level helpers (UTF-8 widths, ASCII case folding,
    the Unicode whitespace/alphabetic classes).
  - `tables.rs`: string-keyed maps and sets, specified by `Map`/`Set` views.
  - `types.rs`: tokens, pronunciation rules, letter groups, rule sets.
  - `suffix_prefix.rs`: stem recovery and compound stress.
  - `phonemizer/`: dictionaries, rule-context matching, match scoring,
    stress placement, IPA conversion, tokenization, errors, and the
    decisions around the native engine.
  - `download.rs`: the resource sources and cache directory.
- `app/` — the unverified edge: the native C++ engine behind FFI, file
  downloads, the WASM bindings, espeak-ng reference data, error display.
- `tests/` — unit tests and behaviour tests of the library.

Every public function of `src/` states its result in its contract; laws
relating functions (round trips, idempotence, uniqueness of sort order,
what tokenization drops) are public proof functions next to the code they
are about.
