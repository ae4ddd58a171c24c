# noteblock_studio

The verified core of a note-block style music editor.

- `src/` — the library, verified with Verus:
  - `midi.rs`: identifiers, ticks, pitches (normalization, addition, subtraction)
    and pattern instances with their durations;
  - `project.rs`: the project, its registry and lookups by identifier;
  - `slots.rs`: the slot map (from the `slotmap` crate) of sounding patterns;
  - `schedule.rs`: the tick scheduler of the audio renderer and its frame protocol;
  - `frames.rs`: moving samples between stereo frames and interleaved streams;
  - `wav.rs`: the in-memory layout of a WAV file;
  - `bitmap.rs`: BMP icons (decoded with the `bmp` crate) to raw RGBA bytes;
  - `bmp_check.rs`: the BMP files on which the decoder panics, read off its source.
- `tests/` — tests of the library.
- `app/` — the program: window, audio device, sample decoding and mixing
  (floating point), JSON loading through serde copies of the project types.
