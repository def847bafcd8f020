# padz

The verified core of padz, a command-line note manager, written in Verus.

- `src/` is the library: the pad model and store, the display index and
  selector resolution, the commands (create, delete, archive, pin, status,
  move, purge, paths, listing and search, doctor), export and import of
  archives and files, and inline metadata. Every function there is verified
  against its contract; calls into outside crates (chrono, uuid, tar, flate2,
  pulldown-cmark, serde_yaml, console) go through small trusted wrappers
  whose contracts state what those crates document.
- `app/` is the unverified edge: reading files and directories, parsing and
  writing `db.json` and YAML with serde, and the serializable copies of the
  import report.
- `tests/` exercises the library from outside.
