# lrc-sync

A lyrics sync worker for a music library. It scans the music directory, fetches lyrics from LRCLib,
writes `.lrc` files next to the audio files, watches for new files, and keeps what it learned in a
SQLite table.

The rules of the worker are a Verus library in `src/`; `app/` is the program around it, with the file
system, the database, the network and the threads.

| Module | What it is about |
| --- | --- |
| `text` | trimming, ASCII case, decimal numbers |
| `encoding` | ASCII characters and lower case in UTF-8 |
| `paths` | Unix paths as bytes |
| `pattern` | the regular expressions and their replacements |
| `config` | settings from environment variables |
| `tags` | the metadata of a track, and its cleaned form |
| `names` | which files are audio or lyrics, and which lyrics go with which audio |
| `grouping` | the files of a library by directory |
| `scan` | what a scan does in each directory, and which tracks it queues |
| `db` | the rows of the table and the cache in memory |
| `lrclib` | lookups: requests, answers, pauses, the rate limit |
| `track` | the course of one track |
| `watch` | which file system events matter |

Proof functions whose names start with `law_` state what holds of several functions together, such as
that a scan accounts for every audio file, that matched lyrics are never quarantined or deleted, and that
requests stay apart by the configured interval.

## Settings

| Variable | Default | Meaning |
| --- | --- | --- |
| `LRCGET_MUSIC_PATH` | `/music` | The music directory. |
| `LRCGET_DB_PATH` | `/config/lyrics.db` | The database file. |
| `LRCSYNC_CONCURRENCY` | `8` | Worker threads, 1 to 128. |
| `LRCSYNC_CLEAN_FALLBACK` | `true` | Repeat vain lookups with cleaned title and album. |
| `LRCSYNC_RETRY_NOT_FOUND_DAYS` | `7` | Days before a vain lookup is repeated, 1 to 3650. |
| `LRCSYNC_REQUEST_INTERVAL_MS` | `750` | Least time between requests, up to 60000. |
| `LRCSYNC_REQUEST_TIMEOUT_SECONDS` | `30` | Timeout of a request. |
| `LRCSYNC_ORPHAN_ACTION` | `keep` | What to do with unmatched lyrics: `keep`, `reconcile`, `quarantine` or `delete`. |
| `LRCSYNC_FOLLOW_SYMLINKS` | `false` | Follow symbolic links in scans. |
| `LRCSYNC_FALLBACK_SCAN_SECONDS` | `43200` | Time between full scans, 60 to 604800. |
