# hyprdmc

Dynamic monitor configuration for Hyprland and sway: detects outputs, arranges,
rotates and flips them, keeps profiles and a history, and follows hotplug.

The library under `src/` is written in Verus. Everything that decides or computes
stands there with a contract that is proved:

- `monitor`, `layout`, `fixed`: monitors, modes and transforms; layouts, their
  validation, arrangement and anchoring, in exact arithmetic.
- `apply`: what was asked for against what is there, and the steps of an
  application with its rollback.
- `config`, `saved`, `history`, `daemon`: profiles and their matching, what a saved
  layout gives back, undo and recall, and what the daemon does about a change.
- `compositor`, `ipc`, `session`: what is specific to a compositor — directives,
  recognising them, framing, requests and replies.
- `emit`, `wiring`: the generated files, and wiring them in.
- `input`: keyboard and pointer settings and the xkb catalogue.
- `cli`, `web`, `service`, `browser`, `notify`, `i18n`, `notice`, `wordings`: what
  the commands, the web interface and the messages are made of.
- `text`, `number`, `path`, `seqs`, `env`, `json`: groundwork.

Public proof functions state laws that relate several functions: that what is
written reads back, that wiring loses nothing and is idempotent, that an arranged
layout has no overlaps and no gaps, and so on.

`app/` holds `main`, the command line, sockets, files, processes and the web
server around the library. `tests/` runs the library on concrete values.
