# topclock

A minimal always-on-top clock for Windows that draws `HH:MM` straight onto the
desktop. This crate splits it in two:

- `src/` is the verified library: the settings file (`config`), colour
  references (`color`), numerals (`number`), character helpers (`text`), the
  ink measurement that sizes the window (`layout`), monitor choice and window
  placement (`screen`), the per-pixel compositing and the clock face
  (`render`), and the decisions of the window procedure and of the search
  for the settings file (`window`).
- `app/main.rs` is the Win32 program around it: window class, message loop,
  GDI drawing, reading and writing the settings file. It builds for Windows
  targets only.
