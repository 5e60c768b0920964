# argus

Disk-usage analysis and cleanup, verified with Verus.

- `src/` is the verified library: snapshot trees and their encoding,
  sizes and their texts, time arguments, search, the browser's state and
  key maps, what the browser does with the messages of its background
  work (`messages`), edits of finished snapshots, cleanup targets and
  their risk rules, uninstalling, the stored-snapshot bytes. Calls into
  `sha2`, `chrono`, `flate2` and std's clock stand behind trusted
  wrappers whose contracts are written next to them.
- `tests/` runs the library on concrete values.
- `app/` is the command-line program: it reads the file system, the clock
  and the terminal, hands plain values to the library and carries out
  what it decides (moving files to the trash, writing the audit log).
