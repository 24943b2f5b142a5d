# envy_linux

The desktop shell of Envy, a flat-file note-taking app, on Linux: the rules
the shell follows, verified with Verus, and the program around them.

- `src/` is the verified library. Each module states its behaviour as
  `requires`/`ensures` over spec functions, and the properties that span
  several calls (toggling a setting twice, popping a note out twice, the
  Hyprland bind switched on then off) are proved as `law_…` proof functions.
  - `text` — the `str` operations the rest relies on, over `Seq<char>`.
  - `json` — a JSON document as plain values, member order kept.
  - `hyprland` — the one managed line in `~/.config/hypr/bindings.lua`.
  - `tray` — the bar icon's eye, its SVG and icon theme, the menu, the
    Hyprland queries, the Omarchy bar widget's placement and `shell.json` edit.
  - `shortcuts` — global shortcut bindings and their dispatch.
  - `commands` — the frontend commands' rules: navigation, links, search
    pages, fragments, `file://` URIs, attachments, Kindle import checks.
  - `tags` — the tag completion order.
  - `popouts` — which pop-out window shows which note.
  - `settings` — the small settings files, folders, starter templates.
  - `updates` — what a check for updates tells the user.
- `app/` is the program: Tauri commands, the StatusNotifierItem, drawing the
  icon, and all file, process and D-Bus work. It calls the library for every
  decision above.
- `tests/` runs the library on concrete values.
