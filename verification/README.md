# chronicler

The recording core of the Chronicler meeting recorder, verified with Verus.

- `src/audio/wav_writer.rs`: the 16 kHz mono 16-bit WAV container. The
  writer produces the header (with placeholder sizes), the PCM bytes and the
  size patches that finalize a file; `repair` recovers a file left
  unfinalized. Laws: a finalized file is the canonical WAV of its samples, a
  repaired partial equals the finalized file, repair leaves finalized files
  alone and is idempotent.
- `src/audio/mixer.rs`: the two-stream mixing timeline and the mix buffer
  (generic over the sample type). Frames land at the slot their capture
  timestamp maps to, never before what was emitted; each sample is added
  into its slot; draining emits the sums in timeline order and keeps at most
  one alignment window buffered.
- `src/audio/meeting_id.rs`: filename-safe meeting ids (UUID v7); ids from one
  `IdSource` sort strictly in the order they were handed out.
- `src/audio/mod.rs`, `src/recorder.rs`: the recording controller and the
  single recording slot.
- `app/`: the Tauri shell, device capture (Windows only), the f32
  down-mixing, resampling, scaling and VU math, and file I/O around the verified container logic.
