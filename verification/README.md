# hdfs_connection

The client side of the connections to a Hadoop distributed file system: remote procedure calls to
name nodes, and the transfer of blocks to and from data nodes.

`src/` is the verified library. It does no input or output: it takes the bytes that came in and
returns the bytes to send, with the decisions in between.

- `wire`, `message`: protocol buffers, field by field; `rpc_messages`, `datanode_messages`,
  `alignment` and `packet` hold the messages themselves.
- `rpc`: frames, call ids, requests, and what becomes of a response.
- `alignment`: how far the client has seen the state of the name service.
- `packet`, `checksum`: packets of block data and the checksums of their chunks.
- `datanode`, `cache`: connections to data nodes, and those that wait to be used again.
- `tls`: certificates, private keys and server names.
- `buffers`, `integers`, `text`, `error`: what the others are built on.

`app/` holds the sockets, the tasks and the locks around it. How a connection is authenticated is
left to implementations of its `Negotiate` traits.
