# rudo

A small dock for Wayland: pinned applications, running windows grouped by
application, launch feedback, autohide, and user settings and styles under
`~/.config/rudo/`.

## Layout

- `src/` is the library, verified with Verus: the application catalog and
  its search, pin lists, grouping windows into dock items, the command line,
  settings and their normalization, the dock's layout and autohide state
  machine, and the window-tracking state of the Niri and
  wlr-foreign-toplevel backends. Each public function states its result in
  its contract; the `law_*` proof functions state properties that span
  several calls.
- `tests/` runs the library on concrete values.
- `app/` is the program around it: GTK4 and layer-shell widgets, the
  configuration files, the file watcher, and the backend threads that talk
  to the compositor.
