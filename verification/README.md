# x11-input-supercharger

System-wide auto-scrolling (click a button and move the cursor away from
where scrolling started) and clicking with keyboard keys for a while after a
pointing device was last used, on X11.

- `src/` is the verified library: the decisions of both features as state
  machines (`features::scroll`, `features::keyboard_click`), device lookup
  and event-mask building (`x::xlib`), the arguments of `xdotool` commands
  and the reading of the cursor position (`x::xdotool`), the scripts handed
  to `xmodmap` (`x::xmodmap`), and decimal text (`decimal`).
- `app/` is the program around it: Xlib calls, child processes, the GTK
  crosshair, threads and timers, and `Config.toml`.
