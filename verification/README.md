# tsck_kee

Global hotkeys for Windows, with the decisions verified by Verus.

- `src/` — the verified library:
  - `kee_manager` — the state behind the low-level keyboard hook (held keys
    and registered chords) and what the hook decides on each key message:
    modifier reports, the chord that fires, whether the key is swallowed.
  - `kee` — events delivered to the user's handler and how the hook's
    reports are routed to them.
  - `config`, `kee_keys` — the configuration and how it is chosen from what
    was found on disk.
  - `kee_windows` — naming, titling and searching top-level windows.
- `app/` — the Windows side: the hook and callback threads, the user32 and
  kernel32 calls, and reading and writing the configuration file.
- `tests/` — tests of the library.
