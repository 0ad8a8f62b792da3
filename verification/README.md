# flezzle-rs

The deterministic core of a tick-driven platformer, verified with Verus.

- `src/input.rs`: actions, the one-byte action set, per-tick input with
  edge detection, keyboard sampling between ticks, and the laws that hold
  of them (edges per tick, replay, short taps).
- `src/player.rs`: the movement rule (walk, climb, jump).
- `src/level.rs`: the default level, naming and storing uploaded levels,
  the level chosen by a page query.
- `src/debug.rs`: frame/tick accounting and the window of recent walking
  measurements.
- `app/`: the Bevy shell (plugins, systems, snapshot publishing) around the
  library.
