# gnome_lng_switcher

Switches the GNOME keyboard layout when a Control key is tapped on its own:
Left Control selects the configured layout, Right Control steps through a
configured list of layouts. A press held longer than the sensitivity, or one
during which any event of another key comes (a shortcut such as Ctrl+C, or
the other Control key), switches nothing.

Layout:

- `src/` is the verified library (Verus):
  - `daemon.rs`: the tap detector, the rule that picks the layout to switch
    to, and the proofs of their laws (taps switch, shortcuts and long holds do
    not, Right Control walks its list and comes back after a full round);
  - `devices.rs`: reading raw evdev events and the set of attached devices
    (a second scan of unchanged devices attaches nothing);
  - `config.rs`: the settings, their defaults and the paths of the files;
  - `gui.rs`: layout names, the autostart entry, the helper extension's
    paths and listing, the daemon's PID file;
  - `text.rs`: character-level text rules (prefixes, trimming, decimal
    numbers).
- `app/` is the program around it: reading devices, GNOME settings and
  files, the daemon loop and the GTK settings window.
- `tests/` runs the library on concrete values.
