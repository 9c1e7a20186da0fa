# qwen3_tts

The pipeline of Qwen3-TTS, from a text to audio, as a verified library.

- `src/` is the library. Every synthesis is a state machine that asks a model for
  one thing after the other and takes up the replies. What each step does is
  stated in contracts and proved by Verus: prompts, attention masks, penalties,
  frames, chunks, batches. `src/laws.rs` states what holds of the library as a
  whole, `src/endings.rs` that every synthesis comes to an end, and `src/runs.rs`,
  `src/chunk_runs.rs`, `src/same_runs.rs` and `src/batch_runs.rs` what holds of
  whole runs.
- `src/tensor.rs` and `src/device.rs` hold the operations of `candle_core` that
  the library rests on, with what they are taken to do.
- `tests/` runs the library on the CPU, with a model that follows a script.
- `app/` loads files, keeps time, and runs the machines on a model.
