# duckdns-updater

A desktop updater that keeps DuckDNS records pointing at the machine's public
IPv4/IPv6 addresses. The program's rules live in a library whose contracts
are proved; the desktop shell around it is ordinary Rust.

- `src/` — the verified library:
  - `config` — the settings, their defaults, loading a parsed settings file
    (migration of the legacy single-domain field), form validation;
  - `domains` — parsing a comma-separated domain list and joining it back,
    with the round-trip law;
  - `update` — one update round: checks before any request, change
    detection (the record is only updated when the address changed), the
    query sent, retries with exponential backoff (5 s, 15 s, 45 s);
  - `history` — the bounded update log (100 entries, oldest dropped first)
    and its CSV export;
  - `ui` — status line, round messages, countdown, the fields that a
    validation error marks;
  - `icon` — the built-in icon and the decoding of the tray icon's file;
  - `numbers`, `paths`, `text` — decimal text, file locations (the path
    separator is a parameter) and character-level helpers.
- `app/` — the program: window (eframe), tray, notifications, registry,
  HTTP requests, files and clock, all calling the library for decisions.
- `tests/` — tests of the library on concrete values.
