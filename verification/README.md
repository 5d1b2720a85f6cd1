# yell_guard

A verified library for Yell Guard, a command-line tool that listens to the
microphone, detects sustained loudness above a threshold and logs one JSON
line per detected yell.

- `src/` is the library, verified with Verus: loudness levels (`level`), the
  detector state machine and what it promises over a sequence of windows
  (`detector`, `detector_laws`), framing of microphone samples into windows
  (`audio`), the log's line framing and filtering (`logger`), the `--since`
  window (`since`), summary statistics (`metrics`), the default log path
  (`config`), text handling (`text`) and the calls into `chrono` (`clock`).
- `app/` is the program: microphone capture, beep and notification, files,
  JSON, command-line parsing and the float arithmetic of loudness.
- `tests/` runs the library on concrete values.
