# pathfinder

Verified parts of a Starknet node: the storage of its Merkle tries and blocks, its pending data, the
choice of proposers, and the shapes of its JSON-RPC requests and errors.

- `src/` is the library. Its functions state what they return or change, and Verus proves it. What
  other threads decide, such as how many permits of a semaphore are free, is left open.
  - `storage/` holds the key-value store and its batches, the encoding of trie nodes, the insertion,
    pruning and repair of tries, the pruning of blocks, and the migrations between schemas.
  - `pending/` turns replies of the gateway into pending data and decides what readers are served.
  - `consensus/` caches validator sets and selects the proposer of a height.
  - `feeder/` plays stored blocks and records back at the pace of the chain.
  - `rpc/` has errors, metric labels, message statuses, websocket limits and the compiler's limit.
  - `p2p/` groups bootnode addresses, `sync/` has a counting semaphore, and `load_test/` the requests
    of the load test.
- `tests/` runs the library.
- `app/` is the program around the library: SQLite, RocksDB, files, the network and the clock.

Public proof functions named `law_*` state what holds across several functions, such as that a
reconciled store keeps every confirmed node and that reconciling twice changes nothing more.

What is believed rather than proved stands behind small functions marked `external_body`: the integer
encoding of `bincode`, the parsing and quoting of `serde_json`, the semaphore of `tokio`, and, of the
standard library, the clock, shared pointers, mutexes, condition variables and `BTreeMap::pop_first`.
