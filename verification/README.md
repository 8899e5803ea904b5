# re0inv

Inventory expansion, an item box and message-archive tooling for Resident
Evil 0 HD, with the rules they rest on stated as contracts and proved with
Verus.

## Layout

- `src/` — the verified library.
  - Stores and windows: `inventory`, `slots`, `window`, `registry`,
    `bag_hooks`, `item_box`, `accessor`, `input`, `panel`, `screen`.
  - Saving the extra slots: `save_file`, `persistence`.
  - Patching the game: `detour`, `doors`, `prompt`, `game`, `startup`,
    `config`.
  - Message archives: `arc`, `gmd`, `typewriter`, `messages`, `text`,
    `bytes`.
  - Diagnostics: `memory`, `selection`, `watchdog`.
  - Executable analysis: `analyzer` (images, cross references, patterns,
    disassembly through iced-x86, bounds checks, classification).
- `tests/` — tests run against the compiled library.
- `app/` — the command-line tools around the library: reading and writing
  files, printing reports.

The in-process parts that only exist inside the game on Windows (naked
trampolines, raw memory access, threads) are the host's. The library decides
what they write, when, and what they answer; the host carries it out.
