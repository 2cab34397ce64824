# steamvr_launcher

A small Windows tool that finds the SteamVR installation, puts a shortcut to
it on the desktop, sets Steam's display language and starts SteamVR.

- `src/` is the library, verified with Verus:
  - `windows_path` — how Windows reads a path (prefix, including the
    verbatim and device forms, root, components), with the parent, file
    name, absoluteness and joining of paths, and when a path has no parent;
  - `unix_path` — how a name is joined onto a path on other systems;
  - `steam_path` — the registry fallback order for the Steam folder, the
    launcher's place below it, and a depth-first search for `vrstartup.exe`
    that asks the caller for one folder listing at a time;
  - `steam_language` — Steam's languages and their registry values;
  - `shortcut_manager` — the shortcut's working folder, the desktop folder,
    where the icon is kept, and the errors of making the shortcut;
  - `launcher` — what the window shows and remembers after each action;
  - `fonts` — the order of fallback fonts once CJK fonts are loaded.
- `app/` is the program around it: the egui window, registry access, the
  system folders (`dirs`), file-system probes, writing the `.lnk` file and
  starting SteamVR.
- `tests/` runs the library on concrete values.
