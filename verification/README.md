# flowy_backup

Consistent, checksummed snapshots of one user's workspace data, and the way back.

A snapshot is a compacted copy of the user's database file, a copy of the closed collab database
directory, and a manifest with the SHA-256 checksum of each. The library decides what is done and
in which order, and what follows from what came of it; it never touches a disk or a service itself.
Each piece of work is a job that says what it needs next and is handed what came of it.

- `src/` is the library. Everything in it is verified with Verus. `io` and `workspace` hold the
  vocabulary of requests and replies; `checksum`, `copy`, `snapshot`, `restore`, `sql` and
  `workspace` are the jobs; `tree` and `world` model disks and a faultless file system; the modules
  whose names end in `_laws` state and prove what the jobs achieve together.
- `app/` runs the jobs: on the file system, on SQLite, and on the services of an application.
- `tests/` drives the jobs with a disk in memory, with SQLite, and with scripted services.
