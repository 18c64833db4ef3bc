# glide_core

The logic of the Glide window manager, verified with Verus.

- `src/` decides what happens: the reactor (`reactor`, with its model in
  `reactor_model`, what follows from each event in `reactions` and its laws in
  `reactor_laws`), animations, scratchpads, the scroll viewport and its springs,
  delayed events, launching applications and the window server.
- `app/` does what it decides: threads, channels, timers, floating point
  arithmetic, stored events and the interfaces of macOS.
- `tests/` runs the library, with a small layout in place of the real one.

Numbers with a fraction are held by their bits (`Number`). What is computed with
them is handed in, as are points in time, which are nanoseconds.
