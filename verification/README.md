# devclock

A stopwatch in a borderless window, built on a small multi-window
framework, with a font-atlas text layout.

- `src/` is the library, verified with Verus:
  - `app`: the registry of open windows, what each window command does to
    it, and when the application is done;
  - `dev_window`: the stopwatch and the reactions of its window to events,
    with the text it shows;
  - `digits`: decimal notation of numbers;
  - `text`: glyph tables and the layout of a text into glyphs, line breaks
    and blanks;
  - `font`: reading a font atlas description from JSON.
- `app/` is the program: the winit event loop, the GPU work (wgpu,
  glyphon), and the floating-point geometry.
- `tests/` exercises the library.
