# gandalf

A Raft consensus layer and the RESP key-value store it replicates, with the
decisions of both written in Verus and proved against their contracts.

## Layout

- `src/` — the verified library:
  - `frame` — RESP frames: the byte scanner (`Frame::check`), the decoder
    (`Frame::parse`), the encoder (`write_frame`) and the proof that reading
    back what was written gives the frame, for every frame whose texts hold
    no line end;
  - `parse`, `command`, `db`, `client` — the store's commands, its state and
    what a client makes of its replies;
  - `tracker` — the replicated log with its snapshot bookkeeping;
  - `node`, `rpc` — the cluster's configuration and messages;
  - `raft` and `raft::{candidate, follower, leader}` — a node's state, and the
    rules each role answers votes, appends, replicates and commits by, with
    the proofs that a node votes at most once in a term and that the leader
    commits only what a strict majority of the cluster holds;
  - `parser` — how a client's bytes are read as read or write requests.
- `tests/` — tests of the library on concrete values.
- `app/` — the programs around it: the store's server and client, and a
  cluster node that runs the roles' loops over TCP.
