# zksync_os

A verified library of the core logic of a zkSync OS style execution environment,
written in Verus: the functions in `src/` carry `requires`/`ensures` contracts that Verus
proves.

## Layout

- `src/storage_cache.rs`, `src/flat_storage.rs`, `src/storage_layer.rs`: the pubdata-aware
  storage cache with transaction and frame snapshots, the flat storage model that keeps
  account properties under hashed keys, and a small cached storage layer. Rollback,
  read-after-write and commit laws are public proof functions.
- `src/evm_bitwise.rs`, `src/u256.rs`: EVM comparison, bitwise and shift instructions over
  256-bit words, with gas and native resource charging.
- `src/gas.rs`, `src/pubdata.rs`: fee and resource arithmetic of L1 and L2 transactions,
  validation cost estimates and pubdata compression lengths.
- `src/block_header.rs`, `src/rlp.rs`: canonical RLP decoding of Pectra block headers, the
  block metadata built from them, and the verification of a header's ancestry and its
  EIP-1559 / EIP-4844 pricing.
- `src/fri.rs`, `src/bootloader.rs`: FRI proof transactions, the verifier precompile and
  the block driver that verifies proofs before executing transactions.
- `src/interop.rs`, `src/abi.rs`, `src/base_token.rs`: calldata encodings, the interop
  roots rolling hash, and the base token's saved total supply.
- `src/memory.rs`, `src/oracles.rs`, `src/batch.rs`, `src/arithmetic.rs`: word-addressed
  guest memory, oracle query plumbing, batch-level sources, and the division and modular
  reduction advice answered from guest memory.
- `src/hashing.rs`, `src/blob.rs`, `src/commitment.rs`, `src/crypto.rs`: digests and
  BLS12-381 scalar arithmetic behind trusted wrappers, and what is built on them: among
  it the barycentric evaluation of a blob's polynomial and its bit-reversed evaluation
  points.
- `app/`: serde forms of the interop data.
- `tests/`: executable tests of the library.
