# cringecast

A loudspeaker service: HTTP requests become speech, sound files and volume
changes on the host's speakers. This crate holds its logic, verified with
Verus; `app/` holds the server around it (rouille, shell scripts, the LCD
serial line, the volume file).

- `src/text.rs`: the sanitiser, the sentence splitter (UTF-8 byte limits),
  white-space trimming, decimal numbers and `u8`/`usize` parsing.
- `src/time.rs`: points and spans of time with nanosecond resolution.
- `src/service.rs`: configuration, access levels, the teapot mode and the
  service that drives an audio backend.
- `src/server.rs`: request routing and guarding, LCD texts, the serial line
  of the LCD board, the rotary encoder and the volume file.
- `src/platform/`: an in-memory backend, and the rules of the shell-script
  backend (script names, volume output, audio file names and their order).
