//! Verified core of a zkSync OS style execution environment: storage caching with
//! snapshots, EVM bitwise instructions, calldata encodings and fee arithmetic.
pub mod primitives;
pub mod errors;
pub mod resources;
pub mod storage_cache;
pub mod u256;
pub mod pubdata;
pub mod flat_storage;
pub mod evm_bitwise;
pub mod hashing;
pub mod interop;
pub mod fri;
pub mod bootloader;
pub mod gas;
pub mod block_header;
pub mod crypto;
pub mod commitment;
pub mod blob;
pub mod api;
pub mod memory;
pub mod batch;
pub mod oracles;
pub mod storage_layer;
pub mod abi;
pub mod rlp;
pub mod base_token;
pub mod execution;
pub mod arithmetic;
