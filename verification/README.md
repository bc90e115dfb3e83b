# oops

An undo daemon for destructive shell commands: before `rm`, `mv`, `sed -i`,
`> file`, `git reset --hard` and friends run, the files they may destroy are
snapshotted so that `oops` can put them back.

- `src/` is the verified library (Verus): command classification
  (`classify`), redirect scanning (`redirect`), Unix path rules (`path`),
  configuration (`config`), the rules of the snapshot store (`store`), of
  garbage collection (`gc`) and of choosing what to undo (`undo`), the
  messages between client and daemon (`protocol`) and the daemon's answers
  (`service`), the client's
  output (`render`), the terminal views (`tui`), and the text and number
  helpers they share (`text`, `number`).
- `app/` is the program around it: the command-line client, the daemon
  (Unix socket, SQLite store, blob copies) and the terminal UI.
- `tests/` exercise the library on concrete inputs.
