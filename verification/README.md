# zcode-cleaner

A cleaner for the data that ZCode keeps under `~/.zcode`: sessions (on disk and in the session
database), logs, caches and crash dumps. What it decides is a library verified with Verus; what it
does to the disk, the database and the screen is an ordinary program around that library.

## The library (`src/`)

| Module | What it holds |
|---|---|
| `text`, `clock`, `paths` | strings, times and ages, where things lie |
| `tree`, `total` | sizes and times of directory trees, and the remembered size of the data directory |
| `order` | sorting, the newest first |
| `model` | reports and settings |
| `sessions` | session ids, and what the disk holds of each session |
| `caches` | logs and caches as a scan lists them |
| `scan` | the report of a scan |
| `rows` | deleting a session and those below it from the database |
| `delete`, `place` | deleting sessions from the database and from disk, and removing one place |
| `clean` | cleaning logs and caches |
| `db` | opening and compacting the database |
| `progress`, `cli` | progress messages and the command line |

Tasks that go back and forth between deciding and doing are state machines: `action` says what to do
next, `can_take` whether an event answers it, and `advance` goes on after it. Their contracts are
stated over a model of the state (`...View`), in which `action`, `expects` and `after` say the same.
Properties that span several steps or functions are the proof functions named `law_...`.

Functions with a `requires` that a caller cannot know in advance have a companion that tests it:
`measure` for `dir_stats`, `group_sessions` for `scan_fs_sessions`, `is_loggable` for
`scan_dated_log`, `is_scannable` for `scan_impl`, `can_take` for `advance`.

## The program (`app/`)

Without arguments it opens a window. On the command line:

```
zcode-cleaner --scan
zcode-cleaner --delete-sessions <sess_id[,sess_id2...]> [--force]
zcode-cleaner --vacuum
```
