# gifkino

A GIF editor whose logic is a verified library.

- `src/` is the library: documents, frames and overlays, edits and their
  history, the window's state and its answers to messages, key bindings,
  translations, GIF decoding and encoding, import planning. Contracts are proved
  by Verus; calls into `gif`, `image` and `color_quant` stand behind a few
  trusted functions that say what they claim of those crates.
- `tests/` runs the library with those crates linked.
- `app/` is the program around it: the GTK window, files, subprocesses, and
  everything that is floating point.

Numbers such as positions and sizes of overlays are carried through the library
as the bits of an `f32`; arithmetic on them happens in `app/`.
