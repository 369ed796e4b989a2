//! Withdrawal verification for a private deposit pool: commitment and
//! nullifier derivation, trie proofs of contract storage, binary inclusion
//! roots, and the public record that a successful withdrawal yields.
pub mod abi;
pub mod commitment;
pub mod error;
pub mod node;
pub mod storage;
pub mod trie;
pub mod withdrawal;
pub mod word;

pub use abi::WithdrawalData;
pub use commitment::{compute_commitment, compute_inclusion_root, InclusionBranches};
pub use error::WithdrawalError;
pub use storage::{compute_storage_keys, verify_storage_slot, AccountProof, StorageProof};
pub use trie::{encode_value, verify_mpt_proof, TrieAccount, TrieValue};
pub use withdrawal::{hash_block_header, process_withdrawal, BlockNumHash, WithdrawalInput};
