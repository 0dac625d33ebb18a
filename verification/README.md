# reactor

A verified core for the Reactor actor framework: actors that exchange
messages over priority lanes, node controllers that run them, and a job
controller that places operators on nodes and injects faults (message loss,
duplication, delay, crashes) on a schedule.

`src/` is the library, verified with Verus:

- `priority`: priority lanes between an actor's receiving and processing
  stages, on tokio channels.
- `message`, `processor`, `receive`, `send`, `chaos`, `handshake`, `codec`:
  the decisions of an actor's stages, its chaos settings, and the handshake
  that opens a connection.
- `node`: a node controller's bookkeeping (local and remote actors, operator
  libraries, ports, chaos instructions).
- `placement`, `job`, `rpc`: job descriptions, chaos schedules and the
  requests the job controller sends to nodes.
- `converters`, `codegen`: the message-converter language, its parser (proved
  sound and complete for its grammar) and the code it stands for.
- `addr_map`, `sorted_map`, `text`, `lib_builder`, `behaviour`: maps keyed by
  name, text helpers, library manifests and actor configuration.

`app/` is the asynchronous runtime around it (tasks, sockets, HTTP, dynamic
libraries, randomness), and `tests/` exercises the library.
