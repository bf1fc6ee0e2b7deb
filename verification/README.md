# xos_apps

The logic of the XOS desktop applications (file manager, archive tool,
notes, notification center, control center, automation builder, software
center, screenshot tool), written in Verus and verified against its
contracts.

- `src/` is the verified library, one module per concern:
  - `text`, `order`: character sequences, decimal numbers, lines, and a
    stable sort by key.
  - `search`, `operations`, `breadcrumb`, `preview`: the file manager's
    search filters and walk decisions, clipboard and paste-name rules, the
    breadcrumb bar, and the preview panel's decisions.
  - `archive`: archive formats, compression requests and the compression
    queue (each path once).
  - `notes`: note titles, note files and the note list.
  - `notifications`: the notification store and its grouping by application.
  - `settings`, `config`: the daemons' `key=value` state files and the
    control center's and automation builder's configurations.
  - `appstore`: the extension packs and the installed set and its state file.
  - `screenshot`: the screenshot tool's command line and helper-program
    decisions.
  - `errors`: the applications' error types and messages.
- `app/` is the GTK front end: windows, file and process I/O, TOML files,
  and the one program that starts each application.
- `tests/` runs the library on concrete values.
