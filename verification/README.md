# monad_cosmos

The part of a consensus node that runs Cosmos SDK applications: it talks ABCI
to an application, keeps the transactions that wait for a block, proposes and
checks blocks, remembers what the application made of them, and finds peers.

The library under `src/` is written in Verus. Every function states what it
returns or changes, and Verus proves it. Functions that relate several
operations (what a read gives back of a write, what every operation keeps) are
public proof functions beside the code that they speak of.

| module | what it holds |
| --- | --- |
| `abci` | messages, requests, genesis documents, sockets and client interfaces |
| `cosmos_types`, `block_codec`, `commit_store` | headers and bodies of blocks, their encoding, and the files of finalized headers |
| `block_policy`, `coherency` | which blocks are acceptable |
| `integration` | the node whose application executes blocks on commit |
| `txpool` | the mempool, its ingress and egress, proposals, the local socket, the front end |
| `node_rpc` | the JSON-RPC front end of a node |
| `ledger` | recent consensus blocks |
| `peer_discovery`, `raptorcast` | signed name records, peers, broadcast settings |
| `performance_monitor` | where the time of a block goes |
| `rlp`, `rlp_codec`, `varint`, `byte_text`, `json`, `text` | encodings |
| `id_map`, `sorted_map` | maps |

Where the library calls another crate, a small function holds the call and its
comment says what is taken for granted.

`app/` is ordinary Rust around the library: the command line, sockets, HTTP,
gRPC, files and the wire messages. `tests/` runs the library.
