# bitfrost

A BitTorrent download client. The library under `src/` holds its logic, written and proved with
Verus; the program under `app/` does the reading, sending and waiting.

The library does no I/O. Where a download has to wait for something, the library has a state
machine: a step takes an event and gives the action that comes next, and its contract says which.

| Module | What it holds |
| --- | --- |
| `bencode` | bencoded values, decoded and encoded by the `bendy` and `bip_bencode` crates |
| `torrent` | what a torrent file says |
| `text` | ASCII, UTF-8, decimal numbers, percent-encoding |
| `util` | bit strings and their packing |
| `wire` | the messages of the peer protocol |
| `hash` | SHA-1 digests |
| `blocks` | the blocks of a piece |
| `peer_worker` | the worker that downloads from one peer |
| `plain_worker` | a plainer worker, which `client` uses |
| `bitfield_actor` | the account of the pieces that the workers share |
| `bitfield` | a plainer account |
| `output_actor` | where a piece goes in the file |
| `tracker` | asking trackers for peers |
| `dht_protocol` | the nodes of the distributed hash table to ask |
| `client` | the client: its handshake, its id, and the course of a download |

The proof functions whose names start with `law_` state what holds of several functions together.
