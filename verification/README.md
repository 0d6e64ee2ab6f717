# tack

The rules of a task and notes manager, written in Verus and proved against
their contracts.

- `src/` is the verified library: task edits and bulk changes, the settings
  check, backups and their rotation, database migration planning, the live
  server's routing, password lock and event stream, the SQL screen for the
  live API, and the Markdown notes (names, frontmatter tags, mention links,
  images, history, export). `src/laws.rs` states what holds across these
  operations.
- `app/` is the command line around it: the database, the file system, the
  HTTP server and the file watchers, which hand plain values to the library.
- `tests/` runs the library on concrete values.
