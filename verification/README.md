# Payload columns

A verified library for execution payloads that travel as erasure-coded columns.

A payload is packed into blobs, each blob is extended to twice its size, and the cells of all
extended blobs are sliced into 128 columns. Any half of the columns recovers the payload. The columns
are committed to with one Merkle root, and each column's sidecar carries the branch back to it.

What the library states is in the `ensures` of its functions and in its public proof functions, whose
names begin with `law_`.

| module | holds |
| --- | --- |
| `payload_codec` | a payload as blobs, and back |
| `payload_column_utils` | blobs as columns with their commitment, recovery, and back |
| `payload_column_sidecar`, `payload_column_subnet_id` | a column with its branch, and its subnet |
| `merkle_proof`, `sha256` | Merkle trees, branches and their verification |
| `assembly_cache`, `payload_column_assembler` | the columns that have arrived, block by block |
| `payload_column_verification` | what makes a column from gossip acceptable |
| `fetch_blobs`, `column_selection`, `bitarray` | fetching blobs from the execution layer, question by question |
| `kzg`, `containers`, `error`, `eth_spec`, `arith`, `primitives`, `text` | what the others share |

What is called in other crates stands in functions marked `external_body`. Their contracts are
believed, and their comments say what is claimed of the call.

`app/` is ordinary Rust around the library: wire formats, locks, and the calls to the chain, the store
and the execution layer.
