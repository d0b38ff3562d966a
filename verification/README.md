# deskemy

The core of Deskemy, an offline player for downloaded video courses, written
in Verus: the library's functions carry contracts that Verus proves. The
one exception is reading the clock (`db::now`), of which nothing can be
claimed; what the library does with the reading (`db::unix_seconds`) is
specified.

- `src/` is the library: how a course folder becomes ordered sections and
  cleaned lecture titles, where subtitles and resources attach, how user data
  survives a re-import (by path, else by content hash), subtitle parsing,
  thumbnail naming, search expressions, watch statistics, the playlist and
  track preferences, auto-rescan targets, backup entry rules, schema
  migration steps and library maintenance bookkeeping. Public `law_*` proof
  functions state the properties that hold across calls.
- `app/` is the plain-Rust layer around it: SQLite (rusqlite), walking and
  reading files, zip archives, the folder watcher and locating libmpv.
- `tests/` exercises the library on concrete values.
