# debian_repo

Debian package repositories: reading and writing their metadata, choosing what a
mirror takes over, syncing it, and deciding how requests are answered. The
library is written in Verus. Its public functions state what they return or
change, and the statements are proved.

## Layout

`src/` is the library.

| Modules | What they hold |
| --- | --- |
| `text`, `number`, `ordered`, `sort` | text, decimal numbers, sets and maps in the order of their keys, sorting |
| `stanza`, `control`, `index`, `release` | reading control files, Packages, Sources and Release files |
| `emit`, `hosted`, `generated` | writing them, for hosted packages and for mirrors |
| `roundtrip`, `roundtrip_packages`, `roundtrip_sources`, `roundtrip_release`, `roundtrip_signed` | proofs that what is written reads back |
| `deb`, `archive` | package files, their names and their place in the pool |
| `select`, `plan`, `verify`, `sync`, `sync_run` | what a mirror selects, plans, verifies, fetches and publishes |
| `dists`, `serve`, `members`, `cache`, `http` | how requests are answered |
| `signer`, `signed`, `signing_key` | signed Release files and the keys that sign them |
| `upload` | uploads of packages |
| `codec`, `digest`, `clock` | compression, digests and the time, from other crates |
| `config`, `error` | configuration and errors |

Nothing in the library does input or output. `app/` holds the HTTP routes, the
database and the services around it; it performs what the library decides. The
sync is a run of steps: `SyncRun::action` says what to do next, and
`SyncRun::step` takes what came of it.

What is taken from other crates stands in `text`, `codec`, `archive`, `digest`,
`clock` and `signing_key`, each item with a comment on what is relied upon.
