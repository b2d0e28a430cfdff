# bioctl

A tool for organizing large research datasets by reference: files are
tracked by path (never read or changed), gathered into groups, groups are
arranged in a hierarchy that must stay a directed acyclic graph, and groups
carry tags.

## Layout

- `src/` is the verified library (Verus).
  - `db/` holds the database: its tables, its invariant (positive ascending
    ids, unique paths, tag names unique up to ASCII case, links that name
    existing rows), the repositories that read and write it, and the group
    hierarchy with its cycle test.
  - `services/` holds the operations the commands are built from, among them
    the batch tracking of files (all or nothing) and the walk over
    directories, with a model of the directory tree (`walk.rs`) over which
    the walk is shown to collect exactly the tree's files.
  - `cli/` holds every command as a function from the database to the
    database after, what is printed and how the command ends; `run` states
    each command's outcome (the creation times of the rows a command adds
    come from the clock and are left open), keeps every other row exactly as
    it was, and keeps the hierarchy acyclic.
  - `laws.rs` holds the properties that relate several operations.
- `app/` is the command line program: argument parsing, the file system,
  the SQLite store and table printing.
- `tests/` runs the commands and the library on concrete values.

Set `BIOCTL_DB_PATH` to choose the database file (`:memory:` for an
in-memory database) and `NO_COLOR` to turn colors off.
