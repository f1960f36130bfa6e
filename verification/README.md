# tunneldesk

A local HTTP proxy from Unix domain sockets to local TCP ports that captures
the HTTP and WebSocket traffic it forwards, with a web UI and management of a
Cloudflare tunnel. The logic is written in Verus and proved against its
contracts; the program around it does the I/O.

- `src/`: the verified library.
  - `proxy`: the state machine that cuts HTTP messages and WebSocket frames
    out of a byte stream, keeping at most `max_body_size` body bytes.
  - `capture`: parsing and storing captured messages and frames; responses
    are matched to the requests of their connection first in, first out.
  - `storage`: the bounded request and message stores and their queries;
    times are nanoseconds since the Unix epoch.
  - `traffic_log`: the log lines for each log level.
  - `config`, `args`: the configuration model, its defaults, and the text
    of the configuration file after a save (edited with `toml_edit`, so
    comments and formatting are kept).
  - `cloudflare`, `sync`, `sync_steps`, `setup`: ingress rules, cache
    rules, the decisions of a sync, the order of a sync's and a removal's
    calls, and the start-up of the Cloudflare integration, as state machines.
  - `cloudflared`, `web_server`, `gui`: launcher choice for the service,
    the web UI's commands and payloads, and the loading page.
- `app/`: the program: sockets, HTTP, processes, reading and writing files,
  and the web server.
- `tests/`: tests of the library.
