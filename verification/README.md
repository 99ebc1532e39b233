# Forma

Server-side rendering from a binary component format (FMIR), verified with Verus.

- `src/` parses FMIR files, walks their opcodes to HTML, fills them from slot
  values, and puts pages, content security policies and asset replies together.
  Its logic carries contracts that Verus proves.
- `src/walker/model.rs` says what a walk writes; `src/walker/laws.rs`,
  `relocation.rs`, `encoded.rs` and `html.rs` prove what holds of every walk.
- Calls into `serde_json`, `base64`, `ring` and std that Verus cannot follow stand
  behind small wrappers whose contracts are trusted; their doc comments say what
  is claimed.
- `app/` connects the library to axum, embedded assets and WebAssembly.
- `tests/` run the compiled library.
