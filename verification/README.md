# greg

A beat-following MIDI clock. Audio is captured into a ring buffer; every second a
beat detector looks at the last five seconds; beats that several analysis runs agree
on are confirmed; a phase-locked loop steers a 24-pulses-per-quarter-note MIDI clock
toward the confirmed beats. Three taps on the space bar set a tempo directly.

## Layout

- `src/` — the verified library (Verus):
  - `ring_buffer.rs` — fixed-capacity ring buffer; a read returns the most recent writes.
  - `beat_confirmation.rs` — clustering of candidate beats across the last five runs.
  - `pll.rs` — tempo estimate, phase comparison and the state/rate/phase update.
  - `clock.rs` — clock tempo state, pulse interval, and the per-pulse decisions.
  - `tap_tempo.rs` — tempo from taps.
  - `analysis.rs` — candidate timestamps from detected positions; publishing beats.
  - `state.rs` — Idle / RateLocking / Locked.
  - `ordering_util.rs` — ascending order and the call to std's sort.
- `app/` — the program: audio input (cpal, WAV via hound), the beat detectors
  (beat-this, a fixed-tempo stub), MIDI output (midir), keyboard input (crossterm),
  threads and timing.
- `tests/` — tests of the library.

## Units

The library holds no floating point. Times are nanoseconds on a monotonic timeline
(`u64`); the program maps `Instant`s onto it. Tempos are thousandths of a beat per
minute (`i64`, "milli-BPM"): 120 BPM is `120_000`. Audio samples stay `f32` in the
program; the ring buffer is generic over its sample type.

Shared state is owned by one thread at a time in the library (`&mut self`); the
program shares it between threads behind mutexes.
