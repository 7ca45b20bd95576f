# netlab

A handful of small networking programs built around a verified library.

- `src/` is the library, verified with Verus: a linked stack, an in-memory
  key-value store, the read decisions of an edge/level-triggered server, the
  block schedule of a multi-threaded file copier, the command line and port
  walk of a port scanner, request parsing for a tunnelling proxy, and the
  routing of a thread-pooled web server.
- `app/` holds the programs themselves (sockets, files, threads, the async
  runtime and the command-line parser), chosen by the first argument:
  `netlab edge_level [-e]`, `netlab file_copy`, `netlab hello [threads]`,
  `netlab port_sniffer [-t threads] ip [startPort] [endPort]`,
  `netlab proxy [addr]`, `netlab kvs get|set ...`.
- `tests/` exercises the library on concrete values.
