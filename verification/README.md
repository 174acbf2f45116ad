# niri stage manager

A Verus library for the Stage Manager layout mode of the niri compositor (macOS-style: one
group of windows on the stage, the other groups as thumbnails in a cast strip), for
keyboard-driven pointer control, and for reading their configuration.

- `src/stage/`: the Stage Manager state and its decisions on window events, drags, clicks,
  keyboard focus and the dwell timer. Each decision is specified exactly over an abstract view
  of the state and hands back the effects for the compositor to perform.
  `src/stage/laws.rs` proves what every decision keeps: each window managed at most once, the
  strip within `max-cast-groups`, at most two windows on the stage after a drag, no window lost
  by a user action, and more.
- `src/keyboard_pointer.rs`: keyboard pointer mode (movement with acceleration, scrolling,
  clicks, drags, switching on and off).
- `src/config.rs`, `src/config_kdl.rs`, `src/kdl.rs`: configuration sections, their merging,
  and reading `layout { stage-manager { .. } }` from KDL text parsed by `knuffel`. Fractional
  values are exact decimals held in millionths.
- `tests/`: tests of the library on concrete values.
- `app/`: the `niri-stage` command (reads a configuration file and prints its Stage Manager
  settings) and the floating-point parts: viewport zoom, thumbnail placement, pointer deltas.
