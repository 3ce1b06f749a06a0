# recording_audio

The recording-format and checkpointing logic of a meeting recorder, verified
with Verus.

- `src/format.rs` — recording formats: parsing extensions and stored
  preferences, inferring a format from a path, names, FFmpeg output arguments.
- `src/text.rs` — decimal rendering of counters and rates.
- `src/encode.rs` — preparing an FFmpeg encode of raw `f32le` PCM.
- `src/saver.rs` — the incremental saver's state machine: when a checkpoint
  is due, checkpoint and final file names, merge arguments and lists.
- `src/recovery.rs` — recovering checkpoints left by a crashed session.
- `src/laws.rs` — properties that span the modules (file names name their
  formats, checkpoints sort in write order, recovery merges in write order).
- `app/` — the file system, FFmpeg processes and frontend commands around the
  library.
- `tests/` — tests of the library.
