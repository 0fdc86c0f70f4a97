# vellum_fe

The logic of the VellumFE game client as a library verified with Verus.
The functions under `src/` are proved against their contracts, apart from
a few small trusted wrappers around outside crates and std (regex
matching, SHA-1, the system clipboard, reading and editing TOML documents,
Unicode case mapping, building a string from characters, `Debug`
quoting), whose contracts are taken as
given; reading the system clipboard promises nothing of what comes back.
The laws the client relies on (what a save reads back as, what a cap
keeps, what a cooldown blocks) are stated and proved as proof functions beside
the code they are about.

- `src/` — the verified library.
  - `config/` — settings and their layering (`sparse`: per-key layering,
    sparse saves and the round trip between them; `settings_text`: the
    same on the text of settings files, with saves that edit the file in
    place through `toml_edit` so that comments on what stays survive),
    layouts (scaling in
    single precision, naming, the layout check), colors, paths, room images, alert packs,
    highlight rules, macros and the window registry.
  - `alerts`, `custom_status`, `alert_timers` — on-screen alerts with
    cooldowns and a cap, self-clearing statuses, countdown timers.
  - `bounty_parser`, `webui`, `display`, `app_core`, `clipboard`.
  - `dot_command`, `mouse` — what a typed dot command or a mouse event
    asks for (moving, resizing, focusing, scrolling windows).
  - `text`, `seqs`, `named` — string, sequence and map helpers with their
    specifications.
- `tests/` — tests run against the compiled library.
- `app/` — file and environment plumbing around the library: reading and
  writing files, serde conversions of the library's values, and the
  floating-point presentation math.
