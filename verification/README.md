# mini_redis

An in-memory key-value store of JSON values served over TCP (one JSON request
per line) or HTTP, and written to a JSON file.

- `src/` is the verified library: the store (`store`), the line protocol and
  the server's decisions per request (`framing`, `connection`), the HTTP
  replies (`http`), the configuration (`config`), the profiler's sample log
  (`profiling`), and the serde_json calls it trusts (`json`).
- `app/` runs the TCP server (sockets, files, tasks) and holds the profiler's
  thread; `app/http.rs` holds the HTTP server, which `main` does not start.
