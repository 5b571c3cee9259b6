# flui_core

The core state machines of the flui UI engine, written in Verus and proved
against their contracts.

- `src/status.rs` — animation status, its reversal and the priority order of
  combined statuses.
- `src/ticker.rs` — clocks, instants and the ticker with its futures.
- `src/listeners.rs` — listener ids and ordered listener storage.
- `src/controller.rs` — status and timing decisions of an animation controller.
- `src/cell.rs` — the app cell's borrow-state machine.
- `src/frame.rs` — frame phases, deferred-effect placement, update nesting.
- `src/ticking.rs` — the set of animations walked in each frame's tick phase.
- `src/draw.rs` — the draw lifecycle of an element.
- `src/reentry.rs` — re-entry detection for window and entity updates.
- `src/effects.rs` — the pending-effect queue with notification dedup.
- `src/identity.rs` — element ids and the identity stack that normalizes
  caller locations into per-scope occurrences.
- `src/tabs.rs` — the system window-tab controller.
- `src/animation.rs` — constant animations and integer tweens.

Each module states its laws as public proof functions named `law_*`.

`app/` holds what the verified library cannot: listener callbacks and their
dispatch loops, the wall clock, the app cell's guards, the effect loop and
the frame driver (which catch panics), tab activation, the animation
controller's floating-point value math, curves, simulations, tweens and the
animations composed from other animations.
`tests/` exercises the library on concrete values.
