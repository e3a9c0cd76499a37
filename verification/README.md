# debank_trace

Builds what the `trace_debankBlock` RPC method publishes of a block: records of the block, its
transactions, call frames and logs, the changes of the state, and a number that validates them.

`src/` is the library. It is written in Verus: each function states what it returns, and Verus
proves it. The contracts speak of plain values, so the library holds its own types for blocks,
receipts, call frames and accounts. Digests, text formats, 256-bit arithmetic and the
recursive-length-prefix encoding of single values come from other crates; the calls stand in
`src/bindings.rs`, with statements about their results that are not proved.

| Module | Content |
| --- | --- |
| `primitives`, `text`, `lists` | addresses, hashes, words; hexadecimal and decimal texts; lists |
| `call_trace` | the call frames of a transaction |
| `records` | traces, events and their identifiers |
| `trace_tree` | from call frames to the published lists |
| `trace_laws`, `tree_laws`, `published_laws` | what holds of the records, the tree and the lists |
| `state_diff`, `diff_laws` | the changes of the state |
| `rlp`, `diff_encoding` | the bytes of a state difference |
| `genesis`, `genesis_laws` | transactions and traces for the genesis state |
| `block`, `block_id`, `block_file` | blocks, transactions, headers, and what is published of them |
| `trace_api`, `api_laws` | the way from a request to its answer |
| `bindings` | calls into other crates |

`app/` is ordinary Rust around the library: it asks the node for what a request needs, converts
values, and sends the answer. `tests/` runs the library on given values.
