# sfwm

A tiling window manager for river, its client `sc`, and `sfwm-appearance`, a browser for
wallpapers, icons and cursors. What the programs decide stands in a library whose every
function is proved to meet its contract by Verus; what they do to the outside stands
around it.

- `src/` is the library. `frame` holds the trees of frames and `monitor` the monitors;
  `state` holds the whole state, and `ipc` carries out commands on it. `manage`, `layout`
  and `render` decide what the compositor is told. The modules that end in `_paint` decide
  what is drawn and where. `tray_*`, `icon_theme`, `thumbs`, `config`, `ini`, `wire` and
  `browser` are what the tray, the client and the browser decide. The modules that end in `_laws`,
  and `round_trip`, state what holds of several functions together.
- `tests/` runs the library.
- `app/` is the three programs. They talk to the compositor, to D-Bus, to files and to
  other programs, measure text and draw. The descriptions of river's protocols, which the
  window manager is built from, come with river and belong in `protocols/`.

The library does not reach outside by itself. A command that needs something from there,
such as a variable of the environment, stops with a request; the program answers it, and
the command goes on. What is to be done in the end is kept in the state as a list of
effects.
