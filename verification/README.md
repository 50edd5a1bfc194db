# webdav_server

A WebDAV server that shows the folders and notes of one user, kept in a
SQLite database, as a file system. This crate is verified with Verus.

- `src/` is the verified library: path and file-name handling
  (`paths`, `text`), the stored timestamp format (`timestamp`), the open-file
  buffer (`davfile`), the notes file system over the database (`filesystem`,
  with the `rusqlite` calls in `store`), Basic authentication (`auth`), the
  command and per-request decisions (`cli`, `commands`), and the checks on
  database paths (`db`).

  Every file-system operation takes an open `store::Db`, which keeps the
  path and mode it was opened with and a ghost record of the statements
  handed to the connection and what the database answered; the wrappers
  around the `rusqlite` calls are what set them. Each operation's contract states, over that record, the SQL text
  and parameters it hands over and what it makes of every answer; laws in
  `filesystem` show that every statement stays with the configured user's
  rows and that listings show folders before notes. Timestamps are written
  and read as Gregorian dates (`timestamp`), with laws that each is a real
  date, that they follow the clock and that each reads back as the second
  it was written for.
- `app/` is the program around it: the command line (clap), the HTTP server
  (hyper, tokio) and the WebDAV handler's file-system traits (dav-server).
- `tests/` runs the library, against an in-memory SQLite database where it
  needs one.
