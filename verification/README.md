# pm3

A process manager: a daemon that starts, watches and restarts processes,
keeps their logs and metrics, and a command-line client (with a terminal
monitor) that talks to it over an encrypted TCP channel.

The crate is written in Verus. `src/` is the verified core that both
programs share; `app/` holds the two programs around it (sockets, files,
child processes, the terminal, the HTTP API, SQLite).

## Layout of `src/`

- `text` — characters, UTF-8, trimming, splitting, decimal numbers.
- `paths` — path text as components, lexical normalisation, extensions.
- `encryption` — the wire format `ENC <token>`: versioned, nonce-prefixed
  ChaCha20-Poly1305, URL-safe base64.
- `commands` — reading a request line into a request; reply framing.
- `config_validator` — the `start` request's query string: decoding and
  the checks on name, paths and flags.
- `pm3_config` — process configuration files, written and read back.
- `process`, `runner` — a managed process, its status line, and the table
  of processes with the decisions of each command.
- `logging`, `metrics` — log rotation and buffering; metrics rows, records
  and chunked streaming.
- `daemon_config` — the daemon's settings and the client's `config.proc`.
- `status`, `status_line` — the client's reading of status lines, and the
  law that it reads back what the daemon writes.
- `cli`, `logview`, `table`, `monitor` — the client's commands, log
  stream, table cells and monitor state.

Each module states what its functions return in `requires`/`ensures`, and
the laws that tie the two ends of the channel together are public proof
functions (`lemma_*`).
