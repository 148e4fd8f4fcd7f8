# anthropic_compat

Lets clients of the Anthropic Messages API talk to workers that speak OpenAI Chat Completions: it
converts requests, whole responses, errors and streamed responses.

- `src/` is the verified library. `src/lib.rs` says which module does what. Parsing and printing of
  JSON text is left to `serde_json`, behind the few trusted functions in `src/interop.rs`; bytes
  that should be UTF-8 are decoded by the standard library, behind one in `src/sse.rs`.
- `app/` connects the library to `axum`: it reads bodies, sets headers and runs streams.
- `tests/` runs the library on concrete values.
