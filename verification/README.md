# AtomMQTT

An MQTT broker (MQTT 3.1.1 and 5.0) with a web management interface and a
command-line test client. The protocol codecs, topic matching, the
subscription tree, authentication and access rules, the broker's decisions
for each packet and connection, the web interface's reports and commands,
the persistence writer's batching and the client's shell are a library
verified with Verus; the program around it does the I/O.

## Layout

- `src/` — the verified library (`atom_mqtt`).
  - `text.rs` — byte buffers and the few std text operations used.
  - `common.rs` — QoS, packet types, topic filters, remaining-length and
    string encodings.
  - `v3/`, `v5/`, `codec.rs` — MQTT 3.1.1 and 5.0 packets, their encoders
    and decoders, and version-independent framing.
  - `subscription.rs` — the topic tree and its routing.
  - `config.rs`, `auth.rs`, `metrics.rs`, `session.rs`, `retention.rs`,
    `will.rs` — configuration, authentication and ACL, counters, and the
    stored per-client and per-topic values.
  - `broker.rs` — the broker's stores (`DashMap`s of sessions, retained
    messages and wills, each entry under its own key) and the actions its
    decisions ask for.
  - `server.rs` — connection acceptance, packet processing and routing.
  - `persistence.rs` — persistence events, stored rows, and the background
    writer's batching.
  - `web.rs` — the management API's access check, reports and commands, and
    restoring state at startup.
  - `client.rs` — the test client's packets and shell commands.
- `app/` — the executable: TCP and WebSocket servers, the REST API, SQLite,
  configuration files and the client's terminal. Run it without arguments
  to serve, or with `pub`, `sub` or `shell` for the client.
- `tests/` — tests of the library.

The contracts state each operation's result over mathematical views; the
`lemma_*` proof functions state the laws that relate operations, such as the
codecs' round trips, that routing is filter matching, and that a retained
message reaches later subscribers.
