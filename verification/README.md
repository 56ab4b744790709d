# lingstation

The editing logic of the LingStation digital audio workstation as a Verus
library: tracks, clips and their notes, the piano roll, automation lanes and
recorded automation, clip launching and performance recording, routing, the
mixer, MIDI controller mapping, project saving and opening, render planning,
licensing and device identity. Every function in `src/` carries a
`requires`/`ensures` contract that Verus proves; the laws of the library
(what an edit keeps, what a second call leaves alone, what opening gives back
of a save) stand there as public proof functions.

Layout:

- `src/` — the verified library, one module per area (`tracks`, `piano_roll`,
  `automation`, `launch`, `recording`, `saving`, `loading`, `render`,
  `license`, ...). `model` holds the editor state and the views the contracts
  speak of. The calls into outside crates (SHA-256, base64, Ed25519,
  serde_json, the operating system's random source, std's path handling) sit
  behind small trusted wrappers whose doc comments say what is claimed.
- `tests/` — tests on concrete values, run against the compiled library.
- `app/` — a small command-line front end: reading and writing files, the
  environment and the clock, around calls into the library.
