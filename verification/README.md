# keyclack

keyclack plays a mechanical-keyboard click every time a key is pressed, in any
application (macOS). This crate is split in two:

- `src/` — the verified library (Verus). It holds the decisions the program
  makes and their contracts:
  - `press_tracker`: key-repeat suppression with a five-second stale window;
  - `input`: key events, the dispatch decision (play a click or not) and
    the press/release decision for modifier keys;
  - `audio`: the mixer's voice bank (slot allocation that steals the
    oldest voice when all are busy, per-buffer playback accounting) and
    audio errors;
  - `pack`: sound-pack records, stable sorting by name, lookup by id,
    mono-to-stereo interleaving, reading 16-bit PCM WAV files and pack
    errors;
  - `login_item`: the LaunchAgent plist text and path, launchctl outcomes;
  - `paths`, `text`: path joining and decimal formatting used above;
  - `ui`, `hotkey`: shared UI state, the login toggle outcome, hotkey errors.
- `app/` — the program around it: audio output, key capture, hotkey
  registration, file and process I/O, the window, and the floating-point
  sample processing (decoding, resampling, mixing).

`tests/` exercises the library on concrete values.
