# meatshell

The logic of the meatshell terminal client, verified with Verus: the session
list of the welcome page (grouping, search, colours, built-in local
terminals), the session dialog (drafts, bulk import, jump hosts, group
pickers), the close-button behaviour, the state of the Windows tray, and the
SCP fallback file transfer (shell quoting, `ls -l` listings, command lines and
the wire protocol's records and acknowledgements).

- `src/` — the verified library; every public function states its result in
  its contract, and the `law_*` proof functions state what holds across
  functions.
- `tests/` — tests on concrete values.
- `app/` — what runs around the library: the SSH exec channel and local files
  of the SCP transfers, the environment, conversions for the Slint user
  interface, and the Win32 calls of the tray.
