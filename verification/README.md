# fadewire_core

The core of FadeWire, a hardware & virtual fader mixer for PipeWire,
written in Verus: every function under `src/` carries a contract that Verus
proves.

- `src/calibration.rs` — taper presets and the (raw -> %) curve, with the
  lookup's segment choice (clamped at both ends).
- `src/filter.rs` — the mute detent latch of the signal path.
- `src/config.rs`, `src/state.rs` — the config and persisted-state model.
- `src/mixer.rs` — resolving a fader's target (sink, app, category,
  "Everything Else") against a snapshot of the audio world.
- `src/engine.rs` — what the drive loop writes, and the set of nodes each
  fader has already driven.
- `src/hid.rs` — fader report decoding, device choice, status dedup.
- `src/paths.rs`, `src/pulse.rs`, `src/cli.rs` — XDG paths, pulse volume
  arithmetic, CLI argument checks.

`app/` holds the daemon and CLI around the library: hidraw, the PulseAudio
connection, D-Bus, TOML files, and the floating-point stages of the signal
path (EMA smoothing, interpolation, output hysteresis).
