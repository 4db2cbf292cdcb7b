# RightKeys

*Using the right keys, everywhere you want.*

A cross-platform key remapper for Linux (X11) and Windows: modmaps, tap-hold
keys, multi-step bindings, selection-aware remaps, window management, app
launching, and a hint-based window and element picker, all configured in one KDL
file that works on both systems.

The library under `src/` holds everything RightKeys decides and computes, written in
Verus with contracts that are proved. The program under `app/` is the thin rest: it
reads devices, talks to the display server and the accessibility bus, draws text, and
carries out what the library says.

## Library

| Module | What it holds |
|---|---|
| `key`, `combo` | The key table and key chords |
| `actions`, `rules`, `pattern` | What bindings do, and which rules apply to which application |
| `document`, `config` | Reading KDL text, and lowering it into the rules |
| `model`, `engine`, `engine_laws` | The remapping engine: its mathematical model, its code, and what holds of it |
| `session` | What a running remapper does with each key, timeout and answer |
| `hints`, `picker`, `element`, `title` | Hint labels, the overlays that capture keys, and chip texts |
| `access` | Finding the interactive elements of the active window, and activating one |
| `rect`, `geometry`, `double`, `window`, `wmprops` | Placing windows, rounding as doubles do, and reading window-manager properties |
| `image`, `fonts`, `icon` | Chips, pixel layouts, font fallback, and the tray icon |
| `launch`, `path`, `startup`, `reload`, `tray`, `notify`, `trace` | Launching, program names, start-up, live reload, the tray menu, messages and traces |
| `text`, `assoc` | Text helpers and a small map |

A contract speaks of views: strings are sequences of characters, sets and maps of
modifiers and keys are mathematical sets and maps, numbers are integers without
bounds. Public proof functions state what holds across calls, such as that the
modifiers the OS holds to be down are those the engine has sent.

What other crates compute (regular expressions, KDL syntax, shell words, fonts, PNG
files) is called through small functions whose contracts name the result; each says
above it which function it calls.

## Program

`app/main.rs` parses arguments, loads the configuration and starts a backend:
`app/linux.rs` with `app/x11.rs`, or `app/win_hook.rs`. Both hand what they see to
`session::Remapper` and carry out the commands it returns.

## Tests

`tests/` runs the library on concrete inputs.
