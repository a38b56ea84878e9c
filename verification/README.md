# msdp

Multicast Server Discovery Protocol: servers on a subnet multicast a short
announcement of themselves (id, host name, platform, system version, uptime,
load) and each keeps a table of the neighbours it hears, which clients read
over TCP or HTTP and a Prometheus exporter turns into metrics.

- `src/` is the verified library (Verus):
  - `structs/message.rs`: the version-1 wire format, `to_bytes` and `parse`
    against `encode` / `decode`, with the round-trip laws;
  - `structs/entry.rs`: a neighbour entry and its text block;
  - `server/server.rs`: the test whether an announcement is due and the read
    timeout, the own announcement, the classification of datagrams and the
    neighbour-table update, with its laws;
  - `server/proxy_server.rs`, `prometheus_exporter/exporter.rs`: the HTTP
    answers and the Prometheus exposition;
  - `client/client.rs`, `lib.rs`, `text.rs`: the text renderings; `lib.rs`
    also proves that a rendered duration reads back to the duration.
- `app/` holds sockets, threads, configuration, JSON and the system readings.
- `tests/` runs the library on concrete values.
