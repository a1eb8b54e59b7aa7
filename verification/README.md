# soradyne_core

The verified core of soradyne, a protocol for self-data that lives on a user's own
devices. The library is written in Verus; every function in `src/` carries a contract that
Verus proves.

- `storage/` — GF(2^8) arithmetic and its field laws (`gf_*`, `galois`), Lagrange
  interpolation and Shamir sharing of master keys, chunked AES-256-GCM sealing, the
  length-prefixed frame cut into Reed-Solomon shards (`shard_layout`, `recovery`,
  `rs_codec`), the streaming decoder (`erasure`), storage-device fingerprints, block
  bookkeeping (block ids as hexadecimal text) and dissolution files.
- `flow/` — flow schemas and stream declarations, drip host assignment by epochs and host
  selection, the decisions of the sync loop, the replica's bookkeeping (edits held back
  until this piece hosts, known parties, outbound queues cleared only on delivery), the
  operation cache with its causal horizon, journal file names, flow errors.
- `identity/` — device identities (Ed25519 signing, X25519 agreement), capsule key bundles
  and the flow authenticator.
- `ffi/` — the `.giantt` text format of a chart (`serializer`), the string ordering and
  joining it rests on (`text`), and the media kind of a stored file (`media`).

Not here: the convergent (CRDT) documents and the flows built on them (the Giantt and
inventory flows, the replicated flow's document handling), the album and media
processing, the BLE transport and the pairing and topology layers. Those modules are not
available to this crate, so of the code around them it keeps the decisions that stand on
plain values: host assignment, held-back edits, known parties and outbound queues, message
routing, peer greeting and the operation cache.

Outside crates (`reed-solomon-erasure`, `aes-gcm`, `sha2`, `hkdf`, `ed25519-dalek`,
`x25519-dalek`, `uuid`, `rand`, `serde_json`) are reached through small trusted wrappers whose contracts
are stated next to them.

`app/` holds what stays outside the proofs: serialisable copies of the core types, error
types with messages, keystore and metadata files, the clock, floating-point scoring, and the
flow registry.
