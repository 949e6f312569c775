# mixar_library

The library core of the Mixar DJ application, written in Verus. The
functions under `src/` carry `requires`/`ensures` contracts that Verus
proves, with one exception: the functions marked
`#[verifier::external_body]` that call into other crates or into std
(`quick_xml` for reading XML tokens and attributes, `uuid`, `chrono`, `zstd`,
`std::path`, the clock, `io::Error`). Their contracts are assumed, not
proved; each one's doc comment says what it claims of the outside call, and
some promise nothing (the clock). The spec functions without a body name what
such a call returns where its result is not written out.

- `src/` — the library: track pool, folder and playlist collections,
  per-track hot cues and loops, sampler banks, performance history sessions
  (XSPF documents, CSV/M3U8/TXT exports, the session index), key notation,
  audio-path rules, stem and waveform tables and the steps of a stems
  request, the command handling of the library worker, and collection sync
  rules.
- `tests/` — tests run against the compiled library.
- `app/` — host plumbing that Verus does not check: files on disk, the clock,
  the worker thread, floating-point deck levels, and serde forms of the
  library types.
