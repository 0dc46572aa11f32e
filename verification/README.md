# Sparrow

A hash-sharding MySQL/MariaDB proxy. Clients talk to the proxy as to a MySQL
server; the proxy authenticates them against its configured users and routes
each row of a sharded table to the cluster and table that hold it.

The library under `src/` is verified with Verus:

- `mysql`: length-encoded integers, OK packets, the packet framing (frames
  of at most 2^24 - 1 bytes with sequence numbers), password scrambling.
- `frontend`: the handshake with a client (the initial handshake packet,
  reading and checking the client's response) and the session decisions.
- `router`: the routing tables built from the sharding schemas (`decision`
  for the nested schema/database/table configuration, `router_brain` for
  flat schema lists) and the lookups of a row's cluster and table.
- `backend`: the connection pool of each database node, the pools of all
  nodes, and the health check of a node as a step machine.
- `config`: the configuration and the lookups by user, node and cluster.

`app/` holds the program around it: reading the TOML configuration, the
sockets, the tasks that open, ping and close connections and drive the
library's decisions.
