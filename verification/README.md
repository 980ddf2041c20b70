# ghr-stats

Samples the self-hosted GitHub Actions runners of a host, keeps their history in
SQLite, compares it with what GitHub says, and serves the result over a Unix socket
and as Prometheus metrics.

The rules are a library that [Verus](https://github.com/verus-lang/verus) verifies;
around it stands a program that does the reading, the writing and the waiting.

## Layout

- `src/` is the verified library. Its functions take what was read and return what
  is to be done or said; the tables of the database are `store::tables::Db`.
  - `collectors`: runners, processes and control groups, from the text of the files
    that describe them.
  - `config`: the configuration, and edits of its text.
  - `github`: GitHub's answers, and the check of a token.
  - `hooks`: the runners' environment files, and how an install of hooks is reversed.
  - `ipc`: the messages and frames between the collector and its clients.
  - `metrics`: the snapshot of the fleet, and its three renderings.
  - `models`: the shared records.
  - `path`, `paths`, `scan`, `text`, `util`, `json`: paths, strings, dates, values.
  - `privileged`, `systemd`: commands that need root, and the service unit.
  - `serve`: the collector's samplers, up to what is written.
  - `server`: who may ask what, and the answer.
  - `setup`: the setup dialogue as a state machine.
  - `store`: the tables, the readers, the writers and the schema.
- `tests/` runs the library against concrete values.
- `app/` is the program: sockets, threads, SQLite, HTTP, the terminal.

Measurements that are floating point are carried by the library as they were
printed (`models::Measure`) and computed in `app/`.
