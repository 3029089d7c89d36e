# ordinary

A small desktop shell for Wayland: a status bar, an application launcher, and a bridge that shows
the tray icons of X programs. It runs under Hyprland, Niri and River.

- `src/` is the library. It is written in Verus, and each function is proved against its contract.
  - `text`, `number`, `order`, `search`, `shell`: text, numbers, sorting and command lines.
  - `ipc`: what the parts of the shell exchange, and the traits that compositors implement.
  - `hyprland`, `niri`, `river`: what is known of each compositor and what is asked of it.
  - `tray`, `menu`: tray items, their icons and their menus.
  - `bar`, `battery`, `clock`, `theme`: what the bar shows.
  - `launcher`: applications, pins, the selection, and what the launcher draws.
  - `xembed`: icons of X programs as tray items.
- `tests/` runs the library on concrete values.
- `app/` holds the programs: windows, sockets, the session bus, X and files.

What the proofs take for granted is marked in the source: the contracts of a few functions of the
standard library, of `shell-words` and of `png`.
