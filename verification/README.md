# cargo-mtime

Keeps file modification times stable when Cargo runs in a sandbox that checks
sources out afresh: every file's mtime is recorded together with the SHA-256 of
its content, and on the next run a file whose content is unchanged gets its
recorded mtime back, so Cargo does not rebuild it.

The records live either in a database file (`CARGO_MTIME_CACHE_TYPE=disk`, the
default) or in Redis (`CARGO_MTIME_CACHE_TYPE=redis`).

## Layout

- `src/` — the verified library:
  - `keyorder.rs`: byte-wise order on string keys, with its laws;
  - `strmap.rs`: a sorted map from strings to values, searched by bisection;
  - `cache/disk.rs`: the database (`AppState`), lookups, batched writes, the
    format version check, and conversion to and from plain records;
  - `cache/redis.rs`: Redis keys and multi-set batches;
  - `cache/redis_client.rs`: the Redis client built from the configured URL;
  - `cache/mod.rs`: when a writer task writes its batch;
  - `config.rs`: the configuration from arguments and environment values;
  - `walk.rs`, `mtime.rs`: what the directory walk does with each entry, and
    what is done with a file's mtime;
  - `metrics.rs`: the run's counters.
- `app/` — the program: file and network I/O, tasks and channels, the stored
  file format, and the `Cache` interface over both backends.
- `tests/` — tests of the library.
