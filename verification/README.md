# bibiocr

The logic of an offline document scanner for phones, verified with Verus:
the model catalogue and its download protocol, settings and download URLs,
the scan history, cleaning up OCR Markdown, Word export, the state of the
mobile pages (download board, recognition runs, reading aloud), the decoding
loop of the vision-language recogniser, and everything that decides how a
document is read aloud (sentences, numbers, retries, caches, the writes to
the audio track).

- `src/` is the verified library. Each module states its behaviour in
  `requires`/`ensures` over spec functions, and `law_*` proof functions state
  properties that span several calls (a cache file reads back what was
  written, a download run finishes exactly when nothing failed, deleting a
  fresh result restores the history, …). Calls into outside crates
  (pulldown-cmark, htmd, zip, voice-g2p, sys-locale, rust-i18n) and a few std
  functions
  go through small trusted wrappers whose doc comments say what is assumed.
- `tests/` runs the library with the real outside crates linked.
- `app/` is the unverified platform side: TOML files, HTTP downloads on a
  worker thread, the recognition and reading workers, cache files, audio
  stretching, and the ML runtimes
  (sherpa-onnx, ONNX Runtime, llama.cpp, oar-ocr), which link native
  libraries.
