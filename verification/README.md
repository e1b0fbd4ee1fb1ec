# dolly

A screen recorder that captures the screen without the cursor, logs raw input
on the same clock, and re-renders cursor and camera from that log.

- `src/` — the verified library (Verus): performance-counter time conversion,
  rebasing and surface-mapping of hooked input events with a stable time sort,
  decoding of low-level hook notifications (key identities never enter),
  selection of camera points of interest, framing of the line-delimited event
  log, and the capture session's start sequence and frame-stamp bookkeeping.
- `app/` — the Tauri editor shell, the Windows capture backend, and the
  floating-point solvers (springs, cursor path, zoom segments, camera crop),
  JSON serialization and the mock recorder.
- `tests/` — tests of the library.
