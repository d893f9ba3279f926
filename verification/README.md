# quasar

A small tiling window manager for X, whose decisions are verified with Verus.

- `src/` is the verified library:
  - `structs/window.rs`: rectangles, windows, and the tiling (`Window::geometry`),
    with proofs that the tiles lie within the screen and do not overlap;
  - `structs/workspace.rs`: workspaces, focus cycling, window removal, and
    `resize`, which computes the X requests that place the windows;
  - `structs/quasar.rs`: the window manager's state machine: from its state,
    an X event and the screen size to the next state and the requests to send;
  - `quasar.rs`: the first, untiled version of that state machine;
  - `structs/config.rs`, `utils.rs`: the runtime setting and the commands that change it;
  - `response_type.rs`, `event.rs`: X event kinds, events and requests.
- `app/` is the unverified rest: `qctl`, the control client, and the event
  loops that talk to the X server through the `xcb` crate.
- `tests/` runs the library on concrete values.
